//! What a key/value store must offer to take part in a synchronisation.

use crate::path::{FilePath, FilePathView, FolderPath};
use vstd::prelude::*;

verus! {

/// How far below a folder a listing or a pass reaches.
#[derive(Clone, Copy, Debug)]
pub enum Depth {
    /// The folder and everything below it.
    Recursive,
    /// The folder itself, without its subfolders.
    Simple,
}

impl Depth {
    /// Whether an operation at this depth from the folder `scope` reaches
    /// the items that lie directly in `folder`.
    pub open spec fn covers(self, scope: Seq<Seq<char>>, folder: Seq<Seq<char>>) -> bool {
        match self {
            Depth::Simple => scope == folder,
            Depth::Recursive => scope.is_prefix_of(folder),
        }
    }

    /// Whether an operation at this depth from the folder `scope` reaches
    /// the item at `path`.
    pub open spec fn reaches(self, scope: Seq<Seq<char>>, path: FilePathView) -> bool {
        self.covers(scope, path.folder)
    }

    /// Decides whether an operation at this depth from `scope` reaches the
    /// items that lie directly in `folder`.
    pub fn includes(&self, scope: &FolderPath, folder: &FolderPath) -> (included: bool)
        ensures
            included == self.covers(scope@, folder@),
    {
        match self {
            Depth::Simple => scope.same_as(folder),
            Depth::Recursive => scope.contains(folder),
        }
    }
}

/// The item that `store` holds at `path`, if any.
pub open spec fn stored_at<T>(store: Map<FilePathView, T>, path: FilePathView) -> Option<T> {
    if store.dom().contains(path) {
        Some(store[path])
    } else {
        None
    }
}

/// What `store` holds once `item` has been written at `path`: the item is
/// stored there, or, when `item` is `None`, nothing is.
pub open spec fn written<T>(store: Map<FilePathView, T>, path: FilePathView, item: Option<T>) -> Map<
    FilePathView,
    T,
> {
    match item {
        Some(item) => store.insert(path, item),
        None => store.remove(path),
    }
}

/// The views of the paths of `entries`, in the same order.
pub open spec fn listed_paths<T>(entries: Seq<(FilePath, T)>) -> Seq<FilePathView> {
    entries.map_values(|entry: (FilePath, T)| entry.0@)
}

/// Whether `entries` lists what `store` holds within reach of `depth` from
/// `scope`: every entry is stored and within reach, everything stored within
/// reach is an entry, and no path is listed twice. The order is left open.
pub open spec fn is_listing<T>(
    entries: Seq<(FilePath, T)>,
    store: Map<FilePathView, T>,
    depth: Depth,
    scope: Seq<Seq<char>>,
) -> bool {
    &&& forall|i: int|
        0 <= i < entries.len() ==> {
            let entry = #[trigger] entries[i];
            &&& depth.reaches(scope, entry.0@)
            &&& stored_at(store, entry.0@) == Some(entry.1)
        }
    &&& forall|path: FilePathView|
        #[trigger] store.dom().contains(path) && depth.reaches(scope, path) ==> listed_paths(
            entries,
        ).contains(path)
    &&& listed_paths(entries).no_duplicates()
}

/// A key/value store addressed by file paths. Its view is the item stored
/// at each path that has one; a path without an item is not in the view's
/// domain, whether an item was never written there or was removed.
pub trait Db<T>: Sized {
    /// The item stored at each path that has one.
    spec fn view(&self) -> Map<FilePathView, T>;

    /// Writes `item` at `path`, or removes what is stored there when `item`
    /// is `None`, and returns what was stored there before.
    fn set(&mut self, path: FilePath, item: Option<T>) -> (previous: Option<T>)
        ensures
            final(self)@ == written(old(self)@, path@, item),
            previous == stored_at(old(self)@, path@),
    ;

    /// Stores `item` at `path` and returns what was stored there before.
    fn insert(&mut self, path: FilePath, item: T) -> (previous: Option<T>)
        ensures
            final(self)@ == old(self)@.insert(path@, item),
            previous == stored_at(old(self)@, path@),
    {
        self.set(path, Some(item))
    }

    /// Removes what is stored at `path` and returns it.
    fn remove(&mut self, path: FilePath) -> (previous: Option<T>)
        ensures
            final(self)@ == old(self)@.remove(path@),
            previous == stored_at(old(self)@, path@),
    {
        self.set(path, None)
    }

    /// The item stored at `path`, if any.
    fn get(&self, path: &FilePath) -> (item: Option<T>)
        ensures
            item == stored_at(self@, path@),
    ;

    /// Every stored entry within reach of `depth` from the folder `path`,
    /// each once, in no particular order.
    fn list(&self, depth: &Depth, path: &FolderPath) -> (entries: Vec<(FilePath, T)>)
        ensures
            is_listing(entries@, self@, *depth, path@),
    ;
}

} // verus!
