//! What holds of every pass, whatever the two stores hold.
//!
//! The laws speak of the maps that [`SyncDb::sync_folder`] is specified
//! with: `synced_local` and `synced_remote` give what the two stores hold
//! after a pass over what they held before it.
//!
//! [`SyncDb::sync_folder`]: crate::sync_db::SyncDb::sync_folder

use crate::db::{is_listing, listed_paths, stored_at, Depth};
use crate::path::{FilePath, FilePathView};
use crate::sync_db::{synced_local, synced_local_by, synced_remote};
use vstd::prelude::*;
use vstd::std_specs::cmp::PartialEqSpec;

verus! {

/// Every folder contains itself.
pub proof fn lemma_folder_contains_itself(folder: Seq<Seq<char>>)
    ensures
        folder.is_prefix_of(folder),
{
    assert(folder =~= folder.subrange(0, folder.len() as int));
}

/// The root contains every folder.
pub proof fn lemma_root_contains_all(folder: Seq<Seq<char>>)
    ensures
        root_folder().is_prefix_of(folder),
{
    assert(root_folder() =~= folder.subrange(0, 0));
}

/// A folder contains what the folders in it contain.
pub proof fn lemma_containment_is_transitive(
    outer: Seq<Seq<char>>,
    middle: Seq<Seq<char>>,
    inner: Seq<Seq<char>>,
)
    requires
        outer.is_prefix_of(middle),
        middle.is_prefix_of(inner),
    ensures
        outer.is_prefix_of(inner),
{
    assert(outer =~= inner.subrange(0, outer.len() as int));
}

/// Containment is not symmetric: two folders that contain each other are
/// the same folder.
pub proof fn lemma_mutual_containment_is_equality(first: Seq<Seq<char>>, second: Seq<Seq<char>>)
    requires
        first.is_prefix_of(second),
        second.is_prefix_of(first),
    ensures
        first == second,
{
    assert(first =~= second);
}

/// What a simple listing or pass reaches, a recursive one from the same
/// folder reaches too.
pub proof fn lemma_recursive_reaches_more(scope: Seq<Seq<char>>, path: FilePathView)
    requires
        Depth::Simple.reaches(scope, path),
    ensures
        Depth::Recursive.reaches(scope, path),
{
    lemma_folder_contains_itself(scope);
}

/// A listing names exactly the paths within reach at which the store holds
/// an item.
pub proof fn lemma_listing_names_what_is_stored<T>(
    entries: Seq<(FilePath, T)>,
    store: Map<FilePathView, T>,
    depth: Depth,
    scope: Seq<Seq<char>>,
    path: FilePathView,
)
    requires
        is_listing(entries, store, depth, scope),
    ensures
        listed_paths(entries).contains(path) <==> store.dom().contains(path) && depth.reaches(
            scope,
            path,
        ),
{
    if listed_paths(entries).contains(path) {
        let i = choose|i: int| 0 <= i < entries.len() && listed_paths(entries)[i] == path;
        assert(entries[i].0@ == path);
    }
}

/// Whether `entries` holds an entry for `path` with the item `item`.
pub open spec fn holds_entry<T>(entries: Seq<(FilePath, T)>, path: FilePathView, item: T) -> bool {
    exists|j: int|
        0 <= j < entries.len() && (#[trigger] entries[j]).0@ == path && entries[j].1 == item
}

/// Two listings of one store from the same folder at the same depth differ
/// in their order at most: they are equally long, and each entry of the
/// one is an entry of the other.
pub proof fn lemma_listings_hold_the_same<T>(
    first: Seq<(FilePath, T)>,
    second: Seq<(FilePath, T)>,
    store: Map<FilePathView, T>,
    depth: Depth,
    scope: Seq<Seq<char>>,
)
    requires
        is_listing(first, store, depth, scope),
        is_listing(second, store, depth, scope),
    ensures
        first.len() == second.len(),
        forall|i: int|
            0 <= i < first.len() ==> holds_entry(second, (#[trigger] first[i]).0@, first[i].1),
{
    let first_paths = listed_paths(first);
    let second_paths = listed_paths(second);
    assert forall|path: FilePathView|
        first_paths.to_set().contains(path) <==> second_paths.to_set().contains(path) by {
        lemma_listing_names_what_is_stored(first, store, depth, scope, path);
        lemma_listing_names_what_is_stored(second, store, depth, scope, path);
    }
    assert(first_paths.to_set() =~= second_paths.to_set());
    first_paths.unique_seq_to_set();
    second_paths.unique_seq_to_set();
    assert forall|i: int| 0 <= i < first.len() implies holds_entry(
        second,
        (#[trigger] first[i]).0@,
        first[i].1,
    ) by {
        let path = first[i].0@;
        assert(first_paths[i] == path);
        lemma_listing_names_what_is_stored(first, store, depth, scope, path);
        lemma_listing_names_what_is_stored(second, store, depth, scope, path);
        let j = choose|j: int| 0 <= j < second.len() && second_paths[j] == path;
        assert(second[j].0@ == path);
        assert(stored_at(store, path) == Some(second[j].1));
        assert(stored_at(store, path) == Some(first[i].1));
    }
}

/// Whether two stores agree at `path`: neither holds an item there, or both
/// do and the items are the same or compare equal by `==`.
pub open spec fn agree_at<T: PartialEq>(
    local: Map<FilePathView, T>,
    remote: Map<FilePathView, T>,
    path: FilePathView,
) -> bool {
    match (stored_at(local, path), stored_at(remote, path)) {
        (Some(l), Some(r)) => l == r || l.eq_spec(&r),
        (None, None) => true,
        _ => false,
    }
}

/// The folder without segments.
pub open spec fn root_folder() -> Seq<Seq<char>> {
    Seq::empty()
}

/// A recursive pass from the root reaches every path.
pub proof fn lemma_root_reaches_all(path: FilePathView)
    ensures
        Depth::Recursive.reaches(root_folder(), path),
{
    assert(root_folder() =~= path.folder.subrange(0, 0));
}

/// After a pass the two stores agree at every path within its reach.
pub proof fn lemma_pass_reconciles<T: PartialEq>(
    local: Map<FilePathView, T>,
    remote: Map<FilePathView, T>,
    depth: Depth,
    scope: Seq<Seq<char>>,
    path: FilePathView,
)
    requires
        depth.reaches(scope, path),
    ensures
        agree_at(
            synced_local(local, remote, depth, scope),
            synced_remote(local, remote, depth, scope),
            path,
        ),
{
}

/// Convergence: after a recursive pass from the root the two stores hold
/// items at the same paths, and at each path items that are the same or
/// compare equal. Two listings of the whole stores therefore hold the same
/// paths with equal items.
pub proof fn lemma_full_pass_converges<T: PartialEq>(
    local: Map<FilePathView, T>,
    remote: Map<FilePathView, T>,
)
    ensures
        synced_local(local, remote, Depth::Recursive, root_folder()).dom() == synced_remote(
            local,
            remote,
            Depth::Recursive,
            root_folder(),
        ).dom(),
        forall|path: FilePathView|
            #[trigger] agree_at(
                synced_local(local, remote, Depth::Recursive, root_folder()),
                synced_remote(local, remote, Depth::Recursive, root_folder()),
                path,
            ),
{
    let after_local = synced_local(local, remote, Depth::Recursive, root_folder());
    let after_remote = synced_remote(local, remote, Depth::Recursive, root_folder());
    assert forall|path: FilePathView| #[trigger] agree_at(after_local, after_remote, path) by {
        lemma_root_reaches_all(path);
        lemma_pass_reconciles(local, remote, Depth::Recursive, root_folder(), path);
    }
    assert forall|path: FilePathView|
        after_local.dom().contains(path) <==> after_remote.dom().contains(path) by {
        assert(agree_at(after_local, after_remote, path));
    }
    assert(after_local.dom() =~= after_remote.dom());
}

/// Idempotence: a second pass with the same depth and folder, right after
/// the first, changes neither store.
pub proof fn lemma_pass_is_idempotent<T: PartialEq>(
    local: Map<FilePathView, T>,
    remote: Map<FilePathView, T>,
    depth: Depth,
    scope: Seq<Seq<char>>,
)
    ensures
        synced_local(
            synced_local(local, remote, depth, scope),
            synced_remote(local, remote, depth, scope),
            depth,
            scope,
        ) == synced_local(local, remote, depth, scope),
        synced_remote(
            synced_local(local, remote, depth, scope),
            synced_remote(local, remote, depth, scope),
            depth,
            scope,
        ) == synced_remote(local, remote, depth, scope),
{
    let once_local = synced_local(local, remote, depth, scope);
    let once_remote = synced_remote(local, remote, depth, scope);
    assert(synced_local(once_local, once_remote, depth, scope) =~= once_local);
    assert(synced_remote(once_local, once_remote, depth, scope) =~= once_remote);
}

/// Scope, first half: a pass leaves both stores as they are at every path
/// outside its reach, however the items within reach compare.
pub proof fn lemma_pass_keeps_outside<T>(
    local: Map<FilePathView, T>,
    remote: Map<FilePathView, T>,
    depth: Depth,
    scope: Seq<Seq<char>>,
    equal: spec_fn(FilePathView) -> bool,
    path: FilePathView,
)
    requires
        !depth.reaches(scope, path),
    ensures
        stored_at(synced_local_by(local, remote, depth, scope, equal), path) == stored_at(
            local,
            path,
        ),
        stored_at(synced_remote(local, remote, depth, scope), path) == stored_at(remote, path),
{
}

/// Scope, second half: what a pass leaves at a path within its reach
/// depends only on what the two stores held at that path. Two pairs of
/// stores that hold the same there hold the same there after the pass,
/// whatever else they hold.
pub proof fn lemma_pass_reads_one_path<T: PartialEq>(
    local: Map<FilePathView, T>,
    remote: Map<FilePathView, T>,
    other_local: Map<FilePathView, T>,
    other_remote: Map<FilePathView, T>,
    depth: Depth,
    scope: Seq<Seq<char>>,
    path: FilePathView,
)
    requires
        stored_at(local, path) == stored_at(other_local, path),
        stored_at(remote, path) == stored_at(other_remote, path),
    ensures
        stored_at(synced_local(local, remote, depth, scope), path) == stored_at(
            synced_local(other_local, other_remote, depth, scope),
            path,
        ),
        stored_at(synced_remote(local, remote, depth, scope), path) == stored_at(
            synced_remote(other_local, other_remote, depth, scope),
            path,
        ),
{
}

/// A pass loses nothing: a path at which a store held an item holds an
/// item in both stores after a pass that reaches it, and in that store
/// after any pass.
pub proof fn lemma_pass_keeps_paths<T: PartialEq>(
    local: Map<FilePathView, T>,
    remote: Map<FilePathView, T>,
    depth: Depth,
    scope: Seq<Seq<char>>,
    path: FilePathView,
)
    ensures
        local.dom().contains(path) ==> synced_local(local, remote, depth, scope).dom().contains(
            path,
        ),
        remote.dom().contains(path) ==> synced_remote(local, remote, depth, scope).dom().contains(
            path,
        ),
        depth.reaches(scope, path) && (local.dom().contains(path) || remote.dom().contains(path))
            ==> synced_local(local, remote, depth, scope).dom().contains(path) && synced_remote(
            local,
            remote,
            depth,
            scope,
        ).dom().contains(path),
{
}

} // verus!
