//! Hierarchical paths: a folder is a sequence of segment names, a file is a
//! folder and one more name.

use crate::order::{chars_order, path_order, segments_order, Order};
use core::cmp::Ordering;
use vstd::prelude::*;

verus! {

/// The mathematical value of a [`FilePath`]: the segments of its folder and
/// its file name, each as a sequence of characters.
pub struct FilePathView {
    pub folder: Seq<Seq<char>>,
    pub file_name: Seq<char>,
}

/// The characters of each name in `names`.
pub open spec fn segments_of_strs(names: Seq<&str>) -> Seq<Seq<char>> {
    Seq::new(names.len(), |i: int| names[i]@)
}

/// The characters of each name in `names`.
pub open spec fn segments_of_strings(names: Seq<String>) -> Seq<Seq<char>> {
    Seq::new(names.len(), |i: int| names[i]@)
}

/// The segments of a folder written one after the other, with `/` between
/// them.
pub open spec fn joined(segments: Seq<Seq<char>>) -> Seq<char>
    decreases segments.len(),
{
    if segments.len() == 0 {
        Seq::empty()
    } else if segments.len() == 1 {
        segments[0]
    } else {
        joined(segments.drop_last()) + seq!['/'] + segments.last()
    }
}

/// A folder as text: its segments with `/` between them and `/` at the end,
/// so the root is `/` and the folder `b` in `a` is `a/b/`.
pub open spec fn folder_text(folder: Seq<Seq<char>>) -> Seq<char> {
    joined(folder) + seq!['/']
}

/// A file path as text: the text of its folder and then the file name, so
/// the item `c` of the folder `a/b/` is `a/b/c`.
pub open spec fn file_text(path: FilePathView) -> Seq<char> {
    folder_text(path.folder) + path.file_name
}

/// `Ord::cmp` of `str` in the standard library, which orders strings
/// lexicographically by their bytes and thereby by the code points of their
/// characters; a string that is the beginning of another comes first.
#[verifier::external_body]
fn compare_names(first: &String, second: &String) -> (order: Order)
    ensures
        order == chars_order(first@, second@),
{
    match first.as_str().cmp(second.as_str()) {
        Ordering::Less => Order::Before,
        Ordering::Equal => Order::Same,
        Ordering::Greater => Order::After,
    }
}

/// An order as the standard library names it.
pub open spec fn std_order(order: Order) -> Ordering {
    match order {
        Order::Before => Ordering::Less,
        Order::Same => Ordering::Equal,
        Order::After => Ordering::Greater,
    }
}

/// An order as the standard library names it.
fn to_std_order(order: Order) -> (named: Ordering)
    ensures
        named == std_order(order),
{
    match order {
        Order::Before => Ordering::Less,
        Order::Same => Ordering::Equal,
        Order::After => Ordering::Greater,
    }
}

/// A position in the hierarchy: the names of the folders that lead to it,
/// outermost first. The empty sequence is the root.
#[derive(Eq, Hash, Ord, Debug)]
pub struct FolderPath {
    parts: Vec<String>,
}

impl View for FolderPath {
    type V = Seq<Seq<char>>;

    closed spec fn view(&self) -> Seq<Seq<char>> {
        segments_of_strings(self.parts@)
    }
}

impl PartialEq for FolderPath {
    /// Two folders are equal when they have the same segments in the same
    /// order.
    fn eq(&self, other: &Self) -> (equal: bool) {
        self.same_as(other)
    }
}

impl vstd::std_specs::cmp::PartialEqSpecImpl for FolderPath {
    open spec fn obeys_eq_spec() -> bool {
        true
    }

    open spec fn eq_spec(&self, other: &Self) -> bool {
        self@ == other@
    }
}

impl PartialOrd for FolderPath {
    /// Folders are ordered segment by segment.
    fn partial_cmp(&self, other: &Self) -> (order: Option<Ordering>) {
        Some(to_std_order(self.compare(other)))
    }
}

impl vstd::std_specs::cmp::PartialOrdSpecImpl for FolderPath {
    open spec fn obeys_partial_cmp_spec() -> bool {
        true
    }

    open spec fn partial_cmp_spec(&self, other: &Self) -> Option<Ordering> {
        Some(std_order(segments_order(self@, other@)))
    }
}

impl FolderPath {
    /// How this folder stands to `other` in the order of folders.
    pub fn compare(&self, other: &Self) -> (order: Order)
        ensures
            order == segments_order(self@, other@),
    {
        let mut i: usize = 0;
        assert(self@.skip(0) =~= self@ && other@.skip(0) =~= other@);
        while i < self.parts.len() && i < other.parts.len()
            invariant
                i <= self.parts.len(),
                i <= other.parts.len(),
                segments_order(self@, other@) == segments_order(
                    self@.skip(i as int),
                    other@.skip(i as int),
                ),
            decreases self.parts.len() - i,
        {
            let order = compare_names(&self.parts[i], &other.parts[i]);
            proof {
                let mine = self@.skip(i as int);
                let theirs = other@.skip(i as int);
                assert(mine[0] == self@[i as int]);
                assert(theirs[0] == other@[i as int]);
                assert(mine.drop_first() =~= self@.skip(i + 1));
                assert(theirs.drop_first() =~= other@.skip(i + 1));
            }
            match order {
                Order::Same => {},
                _ => {
                    return order;
                },
            }
            i += 1;
        }
        if self.parts.len() < other.parts.len() {
            Order::Before
        } else if self.parts.len() == other.parts.len() {
            Order::Same
        } else {
            Order::After
        }
    }

    /// Whether `other` has the same segments in the same order.
    pub fn same_as(&self, other: &Self) -> (same: bool)
        ensures
            same == (self@ == other@),
    {
        if self.parts.len() != other.parts.len() {
            assert(self@.len() != other@.len());
            return false;
        }
        let mut i: usize = 0;
        while i < self.parts.len()
            invariant
                i <= self.parts.len() == other.parts.len(),
                forall|j: int| 0 <= j < i ==> self@[j] == other@[j],
            decreases self.parts.len() - i,
        {
            if !(self.parts[i] == other.parts[i]) {
                assert(self@[i as int] != other@[i as int]);
                return false;
            }
            i += 1;
        }
        assert(self@ =~= other@);
        true
    }

    /// The folder as text, as `folder_text` writes it.
    pub fn to_text(&self) -> (text: String)
        ensures
            text@ == folder_text(self@),
    {
        proof {
            reveal_strlit("/");
        }
        let mut text = String::new();
        let mut i: usize = 0;
        while i < self.parts.len()
            invariant
                i <= self.parts.len(),
                "/"@ == seq!['/'],
                text@ == joined(self@.subrange(0, i as int)),
            decreases self.parts.len() - i,
        {
            let ghost before = self@.subrange(0, i as int);
            let ghost now = self@.subrange(0, i + 1);
            if i > 0 {
                text.append("/");
            }
            text.append(self.parts[i].as_str());
            proof {
                assert(now.drop_last() =~= before);
                assert(now.last() == self@[i as int]);
                assert(text@ =~= joined(now));
            }
            i += 1;
        }
        assert(self@.subrange(0, self@.len() as int) =~= self@);
        text.append("/");
        text
    }

    /// The root folder, which has no segments.
    pub fn root() -> (root: Self)
        ensures
            root@ == Seq::<Seq<char>>::empty(),
    {
        let root = FolderPath { parts: Vec::new() };
        assert(root@ =~= Seq::<Seq<char>>::empty());
        root
    }

    /// Whether `other` is this folder or lies below it, that is, whether the
    /// segments of this folder are the first segments of `other`.
    pub fn contains(&self, other: &Self) -> (inside: bool)
        ensures
            inside == self@.is_prefix_of(other@),
    {
        if self.parts.len() > other.parts.len() {
            return false;
        }
        let mut i: usize = 0;
        while i < self.parts.len()
            invariant
                i <= self.parts.len() <= other.parts.len(),
                forall|j: int| 0 <= j < i ==> self@[j] == other@[j],
            decreases self.parts.len() - i,
        {
            if !(self.parts[i] == other.parts[i]) {
                assert(self@[i as int] != other@[i as int]);
                return false;
            }
            i += 1;
        }
        assert(self@ =~= other@.subrange(0, self@.len() as int));
        true
    }
}

impl Clone for FolderPath {
    fn clone(&self) -> (copy: Self)
        ensures
            copy@ == self@,
    {
        let mut parts: Vec<String> = Vec::new();
        let mut i: usize = 0;
        while i < self.parts.len()
            invariant
                i <= self.parts.len(),
                parts@.len() == i,
                forall|j: int| 0 <= j < i ==> parts@[j]@ == self@[j],
            decreases self.parts.len() - i,
        {
            parts.push(self.parts[i].clone());
            i += 1;
        }
        let copy = FolderPath { parts };
        assert(copy@ =~= self@);
        copy
    }
}

/// An owned copy of each name in `names`, in the same order.
fn owned_names(names: &Vec<&str>) -> (owned: Vec<String>)
    ensures
        segments_of_strings(owned@) == segments_of_strs(names@),
{
    let mut owned: Vec<String> = Vec::new();
    let mut i: usize = 0;
    while i < names.len()
        invariant
            i <= names.len(),
            owned@.len() == i,
            forall|j: int| 0 <= j < i ==> owned@[j]@ == names@[j]@,
        decreases names.len() - i,
    {
        owned.push(String::from_str(names[i]));
        i += 1;
    }
    assert(segments_of_strings(owned@) =~= segments_of_strs(names@));
    owned
}

impl From<Vec<String>> for FolderPath {
    /// The folder whose segments are `parts`, outermost first.
    fn from(parts: Vec<String>) -> (folder: Self)
        ensures
            folder@ == segments_of_strings(parts@),
    {
        FolderPath { parts }
    }
}

impl vstd::std_specs::convert::FromSpecImpl<Vec<String>> for FolderPath {
    /// A folder is known by its view alone, so `from` states the view of what
    /// it returns and claims no particular value.
    open spec fn obeys_from_spec() -> bool {
        false
    }

    open spec fn from_spec(parts: Vec<String>) -> Self {
        arbitrary()
    }
}

impl<'a> From<Vec<&'a str>> for FolderPath {
    /// The folder whose segments are `parts`, outermost first.
    fn from(parts: Vec<&'a str>) -> (folder: Self)
        ensures
            folder@ == segments_of_strs(parts@),
    {
        FolderPath { parts: owned_names(&parts) }
    }
}

impl<'a> vstd::std_specs::convert::FromSpecImpl<Vec<&'a str>> for FolderPath {
    /// A folder is known by its view alone, so `from` states the view of what
    /// it returns and claims no particular value.
    open spec fn obeys_from_spec() -> bool {
        false
    }

    open spec fn from_spec(parts: Vec<&'a str>) -> Self {
        arbitrary()
    }
}

/// The one way in which building a [`FilePath`] from segments fails.
#[derive(Debug)]
pub enum FilePathCreationError {
    /// No segment was given, so there is no file name.
    MissingFileName,
}

/// The address of one item: the folder that holds it and its name there.
#[derive(Eq, Hash, Ord, Debug)]
pub struct FilePath {
    folder: FolderPath,
    file_name: String,
}

impl View for FilePath {
    type V = FilePathView;

    closed spec fn view(&self) -> FilePathView {
        FilePathView { folder: self.folder@, file_name: self.file_name@ }
    }
}

impl PartialEq for FilePath {
    /// Two file paths are equal when their folders are equal and their file
    /// names are equal.
    fn eq(&self, other: &Self) -> (equal: bool) {
        self.same_as(other)
    }
}

impl vstd::std_specs::cmp::PartialEqSpecImpl for FilePath {
    open spec fn obeys_eq_spec() -> bool {
        true
    }

    open spec fn eq_spec(&self, other: &Self) -> bool {
        self@ == other@
    }
}

impl Clone for FilePath {
    fn clone(&self) -> (copy: Self)
        ensures
            copy@ == self@,
    {
        FilePath { folder: self.folder.clone(), file_name: self.file_name.clone() }
    }
}

impl PartialOrd for FilePath {
    /// File paths are ordered by their folder and then by their file name.
    fn partial_cmp(&self, other: &Self) -> (order: Option<Ordering>) {
        Some(to_std_order(self.compare(other)))
    }
}

impl vstd::std_specs::cmp::PartialOrdSpecImpl for FilePath {
    open spec fn obeys_partial_cmp_spec() -> bool {
        true
    }

    open spec fn partial_cmp_spec(&self, other: &Self) -> Option<Ordering> {
        Some(std_order(path_order(self@, other@)))
    }
}

impl FilePath {
    /// How this path stands to `other` in the order of file paths.
    pub fn compare(&self, other: &Self) -> (order: Order)
        ensures
            order == path_order(self@, other@),
    {
        match self.folder.compare(&other.folder) {
            Order::Same => compare_names(&self.file_name, &other.file_name),
            order => order,
        }
    }

    /// Whether `other` has the same folder and the same file name.
    pub fn same_as(&self, other: &Self) -> (same: bool)
        ensures
            same == (self@ == other@),
    {
        self.folder.same_as(&other.folder) && self.file_name == other.file_name
    }

    /// The path as text, as `file_text` writes it.
    pub fn to_text(&self) -> (text: String)
        ensures
            text@ == file_text(self@),
    {
        let mut text = self.folder.to_text();
        text.append(self.file_name.as_str());
        text
    }

    /// The path of the item called `file_name` in `folder`.
    pub fn new(folder: FolderPath, file_name: String) -> (path: Self)
        ensures
            path@ == (FilePathView { folder: folder@, file_name: file_name@ }),
    {
        FilePath { folder, file_name }
    }

    /// The folder that holds the item.
    pub fn folder(&self) -> (folder: &FolderPath)
        ensures
            folder@ == self@.folder,
    {
        &self.folder
    }

    /// The name of the item in its folder.
    pub fn file_name(&self) -> (file_name: &String)
        ensures
            file_name@ == self@.file_name,
    {
        &self.file_name
    }
}

/// What a list of segments stands for as a file path: the last segment is
/// the file name and those before it are the folder. An empty list stands
/// for no path.
pub open spec fn split_segments(segments: Seq<Seq<char>>) -> Option<FilePathView> {
    if segments.len() == 0 {
        None
    } else {
        Some(FilePathView { folder: segments.drop_last(), file_name: segments.last() })
    }
}

impl TryFrom<Vec<String>> for FilePath {
    type Error = FilePathCreationError;

    /// The file path that `parts` stands for, or `MissingFileName` when
    /// `parts` is empty.
    fn try_from(parts: Vec<String>) -> (made: Result<Self, FilePathCreationError>)
        ensures
            match split_segments(segments_of_strings(parts@)) {
                Some(view) => made matches Ok(path) && path@ == view,
                None => made matches Err(FilePathCreationError::MissingFileName),
            },
    {
        let mut parts = parts;
        let ghost segments = segments_of_strings(parts@);
        match parts.pop() {
            None => Err(FilePathCreationError::MissingFileName),
            Some(file_name) => {
                let path = FilePath { folder: FolderPath { parts }, file_name };
                assert(path@.folder =~= segments.drop_last());
                Ok(path)
            },
        }
    }
}

impl vstd::std_specs::convert::TryFromSpecImpl<Vec<String>> for FilePath {
    /// A path is known by its view alone, so `try_from` states the view of
    /// what it returns and claims no particular value.
    open spec fn obeys_try_from_spec() -> bool {
        false
    }

    open spec fn try_from_spec(parts: Vec<String>) -> Result<Self, FilePathCreationError> {
        arbitrary()
    }
}

impl<'a> TryFrom<Vec<&'a str>> for FilePath {
    type Error = FilePathCreationError;

    /// The file path that `parts` stands for, or `MissingFileName` when
    /// `parts` is empty.
    fn try_from(parts: Vec<&'a str>) -> (made: Result<Self, FilePathCreationError>)
        ensures
            match split_segments(segments_of_strs(parts@)) {
                Some(view) => made matches Ok(path) && path@ == view,
                None => made matches Err(FilePathCreationError::MissingFileName),
            },
    {
        FilePath::try_from(owned_names(&parts))
    }
}

impl<'a> vstd::std_specs::convert::TryFromSpecImpl<Vec<&'a str>> for FilePath {
    /// A path is known by its view alone, so `try_from` states the view of
    /// what it returns and claims no particular value.
    open spec fn obeys_try_from_spec() -> bool {
        false
    }

    open spec fn try_from_spec(parts: Vec<&'a str>) -> Result<Self, FilePathCreationError> {
        arbitrary()
    }
}

} // verus!
