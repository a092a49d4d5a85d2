//! The order of paths: folders are ordered segment by segment, file paths by
//! their folder and then by their file name, names character by character.

use crate::path::FilePathView;
use vstd::prelude::*;

verus! {

/// How a first value stands to a second one.
#[derive(Clone, Copy, Debug, PartialEq, Eq, Structural)]
pub enum Order {
    /// The first comes before the second.
    Before,
    /// The two are the same.
    Same,
    /// The first comes after the second.
    After,
}

impl Order {
    /// How the second value stands to the first.
    pub open spec fn flipped(self) -> Order {
        match self {
            Order::Before => Order::After,
            Order::Same => Order::Same,
            Order::After => Order::Before,
        }
    }
}

/// The position of a character in the code charts.
pub open spec fn code_point(c: char) -> int {
    c as int
}

/// The order of two lengths.
pub open spec fn sizes_order(first: nat, second: nat) -> Order {
    if first < second {
        Order::Before
    } else if first == second {
        Order::Same
    } else {
        Order::After
    }
}

/// The order of two names: that of their first characters that differ, by
/// code point; a name that is the beginning of another comes before it.
pub open spec fn chars_order(first: Seq<char>, second: Seq<char>) -> Order
    decreases first.len(),
{
    if first.len() == 0 || second.len() == 0 {
        sizes_order(first.len(), second.len())
    } else if code_point(first[0]) < code_point(second[0]) {
        Order::Before
    } else if code_point(first[0]) > code_point(second[0]) {
        Order::After
    } else {
        chars_order(first.drop_first(), second.drop_first())
    }
}

/// The order of two folders: that of their first segments that differ; a
/// folder that contains another comes before it.
pub open spec fn segments_order(first: Seq<Seq<char>>, second: Seq<Seq<char>>) -> Order
    decreases first.len(),
{
    if first.len() == 0 || second.len() == 0 {
        sizes_order(first.len(), second.len())
    } else {
        match chars_order(first[0], second[0]) {
            Order::Same => segments_order(first.drop_first(), second.drop_first()),
            order => order,
        }
    }
}

/// The order of two file paths: that of their folders, and within one
/// folder that of their file names.
pub open spec fn path_order(first: FilePathView, second: FilePathView) -> Order {
    match segments_order(first.folder, second.folder) {
        Order::Same => chars_order(first.file_name, second.file_name),
        order => order,
    }
}

/// Two names are in the order `Same` exactly if they are equal.
pub proof fn lemma_names_same_iff_equal(first: Seq<char>, second: Seq<char>)
    ensures
        chars_order(first, second) == Order::Same <==> first == second,
    decreases first.len(),
{
    if first.len() == 0 || second.len() == 0 {
        if first.len() == second.len() {
            assert(first =~= second);
        }
    } else {
        lemma_names_same_iff_equal(first.drop_first(), second.drop_first());
        if chars_order(first, second) == Order::Same {
            assert(first[0] == second[0]);
            assert(first =~= seq![first[0]] + first.drop_first());
            assert(second =~= seq![second[0]] + second.drop_first());
        }
    }
}

/// Seen from the other side the order of two names is the opposite.
pub proof fn lemma_names_order_flips(first: Seq<char>, second: Seq<char>)
    ensures
        chars_order(second, first) == chars_order(first, second).flipped(),
    decreases first.len(),
{
    if first.len() == 0 || second.len() == 0 {
    } else {
        lemma_names_order_flips(first.drop_first(), second.drop_first());
    }
}

/// A name before a second one that is before or the same as a third is
/// before the third, and so with `Same` first.
pub proof fn lemma_names_order_is_transitive(
    first: Seq<char>,
    second: Seq<char>,
    third: Seq<char>,
)
    requires
        chars_order(first, second) != Order::After,
        chars_order(second, third) != Order::After,
    ensures
        chars_order(first, third) != Order::After,
        chars_order(first, third) == Order::Same ==> chars_order(first, second) == Order::Same
            && chars_order(second, third) == Order::Same,
    decreases first.len(),
{
    if first.len() == 0 || second.len() == 0 || third.len() == 0 {
    } else if code_point(first[0]) == code_point(second[0]) && code_point(second[0])
        == code_point(third[0]) {
        lemma_names_order_is_transitive(
            first.drop_first(),
            second.drop_first(),
            third.drop_first(),
        );
    }
}

/// Two folders are in the order `Same` exactly if they are equal.
pub proof fn lemma_folders_same_iff_equal(first: Seq<Seq<char>>, second: Seq<Seq<char>>)
    ensures
        segments_order(first, second) == Order::Same <==> first == second,
    decreases first.len(),
{
    if first.len() == 0 || second.len() == 0 {
        if first.len() == second.len() {
            assert(first =~= second);
        }
    } else {
        lemma_names_same_iff_equal(first[0], second[0]);
        lemma_folders_same_iff_equal(first.drop_first(), second.drop_first());
        if segments_order(first, second) == Order::Same {
            assert(first =~= seq![first[0]] + first.drop_first());
            assert(second =~= seq![second[0]] + second.drop_first());
        }
    }
}

/// Seen from the other side the order of two folders is the opposite.
pub proof fn lemma_folders_order_flips(first: Seq<Seq<char>>, second: Seq<Seq<char>>)
    ensures
        segments_order(second, first) == segments_order(first, second).flipped(),
    decreases first.len(),
{
    if first.len() == 0 || second.len() == 0 {
    } else {
        lemma_names_order_flips(first[0], second[0]);
        lemma_folders_order_flips(first.drop_first(), second.drop_first());
    }
}

/// The order of folders is transitive.
pub proof fn lemma_folders_order_is_transitive(
    first: Seq<Seq<char>>,
    second: Seq<Seq<char>>,
    third: Seq<Seq<char>>,
)
    requires
        segments_order(first, second) != Order::After,
        segments_order(second, third) != Order::After,
    ensures
        segments_order(first, third) != Order::After,
        segments_order(first, third) == Order::Same ==> segments_order(first, second)
            == Order::Same && segments_order(second, third) == Order::Same,
    decreases first.len(),
{
    if first.len() == 0 || second.len() == 0 || third.len() == 0 {
    } else {
        lemma_names_order_is_transitive(first[0], second[0], third[0]);
        if chars_order(first[0], second[0]) == Order::Same && chars_order(second[0], third[0])
            == Order::Same {
            lemma_names_same_iff_equal(first[0], second[0]);
            lemma_names_same_iff_equal(second[0], third[0]);
            lemma_names_same_iff_equal(first[0], third[0]);
            lemma_folders_order_is_transitive(
                first.drop_first(),
                second.drop_first(),
                third.drop_first(),
            );
        } else {
            lemma_names_same_iff_equal(first[0], third[0]);
            lemma_names_same_iff_equal(first[0], second[0]);
            lemma_names_same_iff_equal(second[0], third[0]);
        }
    }
}

/// A folder comes before or is the same as every folder that it contains.
pub proof fn lemma_folder_comes_before_its_contents(outer: Seq<Seq<char>>, inner: Seq<Seq<char>>)
    requires
        outer.is_prefix_of(inner),
    ensures
        segments_order(outer, inner) != Order::After,
    decreases outer.len(),
{
    if outer.len() == 0 || inner.len() == 0 {
    } else {
        assert(outer[0] == inner[0]);
        lemma_names_same_iff_equal(outer[0], inner[0]);
        assert(outer.drop_first() =~= inner.drop_first().subrange(
            0,
            outer.drop_first().len() as int,
        ));
        lemma_folder_comes_before_its_contents(outer.drop_first(), inner.drop_first());
    }
}

/// The order of file paths is total: two paths are in the order `Same`
/// exactly if they are equal, and seen from the other side their order is
/// the opposite.
pub proof fn lemma_paths_order_is_total(first: FilePathView, second: FilePathView)
    ensures
        path_order(first, second) == Order::Same <==> first == second,
        path_order(second, first) == path_order(first, second).flipped(),
{
    lemma_folders_same_iff_equal(first.folder, second.folder);
    lemma_folders_order_flips(first.folder, second.folder);
    lemma_names_same_iff_equal(first.file_name, second.file_name);
    lemma_names_order_flips(first.file_name, second.file_name);
}

/// The order of file paths is transitive.
pub proof fn lemma_paths_order_is_transitive(
    first: FilePathView,
    second: FilePathView,
    third: FilePathView,
)
    requires
        path_order(first, second) != Order::After,
        path_order(second, third) != Order::After,
    ensures
        path_order(first, third) != Order::After,
{
    lemma_folders_order_is_transitive(first.folder, second.folder, third.folder);
    if segments_order(first.folder, third.folder) == Order::Same {
        lemma_names_order_is_transitive(first.file_name, second.file_name, third.file_name);
    }
}

} // verus!
