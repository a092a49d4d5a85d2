//! The synchronisation engine: it brings a local and a remote store into
//! agreement, one path at a time.
//!
//! A pass never fails half way by itself: it is a sequence of calls of
//! [`SyncDb::sync_file`], each of which leaves both stores consistent. A
//! store whose operations can fail has to stop the pass (by not returning);
//! the writes made until then stand.

use crate::db::{listed_paths, stored_at, Db, Depth};
use crate::path::{FilePath, FilePathView, FolderPath};
use core::marker::PhantomData;
use vstd::prelude::*;
use vstd::std_specs::cmp::PartialEqSpec;

verus! {

/// What has to be written for one path, once both stores have been read.
#[derive(Debug)]
pub enum Resolution<T> {
    /// Nothing: the stores agree on the path, or neither holds an item.
    Keep,
    /// The item goes into the local store.
    StoreLocally(T),
    /// The item goes into the remote store.
    StoreRemotely(T),
}

/// The rule of reconciliation, given whether the two items compare equal
/// (`equal` matters only where both stores hold an item): equal items stay,
/// of two unequal items the remote one replaces the local one, and an item
/// that only one store holds is copied to the other.
pub open spec fn resolution_when<T>(local: Option<T>, remote: Option<T>, equal: bool) -> Resolution<
    T,
> {
    match (local, remote) {
        (Some(l), Some(r)) => if equal {
            Resolution::Keep
        } else {
            Resolution::StoreLocally(r)
        },
        (Some(l), None) => Resolution::StoreRemotely(l),
        (None, Some(r)) => Resolution::StoreLocally(r),
        (None, None) => Resolution::Keep,
    }
}

/// Whether both stores hold an item and the two compare equal by `==`.
pub open spec fn same_items<T: PartialEq>(local: Option<T>, remote: Option<T>) -> bool {
    match (local, remote) {
        (Some(l), Some(r)) => l.eq_spec(&r),
        _ => false,
    }
}

/// The rule of reconciliation for item types whose `==` is `eq_spec`.
pub open spec fn resolution<T: PartialEq>(local: Option<T>, remote: Option<T>) -> Resolution<T> {
    resolution_when(local, remote, same_items(local, remote))
}

/// What the local store holds at a path after `resolution` was carried out.
pub open spec fn local_after<T>(local: Option<T>, resolution: Resolution<T>) -> Option<T> {
    match resolution {
        Resolution::StoreLocally(item) => Some(item),
        _ => local,
    }
}

/// What the remote store holds at a path after `resolution` was carried out.
pub open spec fn remote_after<T>(remote: Option<T>, resolution: Resolution<T>) -> Option<T> {
    match resolution {
        Resolution::StoreRemotely(item) => Some(item),
        _ => remote,
    }
}

/// Decides what to write for a path at which the local store holds `local`
/// and the remote store holds `remote`: `resolution` where `==` on items is
/// `eq_spec`, and for any other item type what the rule gives for one of the
/// two answers of `==`.
pub fn resolve<T: PartialEq>(local: Option<T>, remote: Option<T>) -> (decision: Resolution<T>)
    ensures
        T::obeys_eq_spec() ==> decision == resolution(local, remote),
        decision == resolution_when(local, remote, true) || decision == resolution_when(
            local,
            remote,
            false,
        ),
{
    match (local, remote) {
        (Some(l), Some(r)) => {
            if l == r {
                Resolution::Keep
            } else {
                Resolution::StoreLocally(r)
            }
        },
        (Some(l), None) => Resolution::StoreRemotely(l),
        (None, Some(r)) => Resolution::StoreLocally(r),
        (None, None) => Resolution::Keep,
    }
}

/// What the local store holds after the path `path` was reconciled, where
/// both stores hold items there that compare equal exactly if `equal`.
pub open spec fn local_after_file_when<T>(
    local: Map<FilePathView, T>,
    remote: Map<FilePathView, T>,
    path: FilePathView,
    equal: bool,
) -> Map<FilePathView, T> {
    match resolution_when(stored_at(local, path), stored_at(remote, path), equal) {
        Resolution::StoreLocally(item) => local.insert(path, item),
        _ => local,
    }
}

/// What the local store holds after the path `path` was reconciled.
pub open spec fn local_after_file<T: PartialEq>(
    local: Map<FilePathView, T>,
    remote: Map<FilePathView, T>,
    path: FilePathView,
) -> Map<FilePathView, T> {
    local_after_file_when(
        local,
        remote,
        path,
        same_items(stored_at(local, path), stored_at(remote, path)),
    )
}

/// What the remote store holds after the path `path` was reconciled. Only
/// an item that the local store alone holds is written to it, so this does
/// not depend on how items compare.
pub open spec fn remote_after_file<T>(
    local: Map<FilePathView, T>,
    remote: Map<FilePathView, T>,
    path: FilePathView,
) -> Map<FilePathView, T> {
    match resolution_when(stored_at(local, path), stored_at(remote, path), true) {
        Resolution::StoreRemotely(item) => remote.insert(path, item),
        _ => remote,
    }
}

/// What the local store holds at `path` after a pass at `depth` from the
/// folder `scope`, where the items of both stores at `path` compare equal
/// exactly if `equal`: a path within reach is reconciled, any other is left
/// as it is.
pub open spec fn local_at_after_pass<T>(
    local: Map<FilePathView, T>,
    remote: Map<FilePathView, T>,
    depth: Depth,
    scope: Seq<Seq<char>>,
    path: FilePathView,
    equal: bool,
) -> Option<T> {
    if depth.reaches(scope, path) {
        local_after(
            stored_at(local, path),
            resolution_when(stored_at(local, path), stored_at(remote, path), equal),
        )
    } else {
        stored_at(local, path)
    }
}

/// What the remote store holds at `path` after a pass at `depth` from the
/// folder `scope`.
pub open spec fn remote_at_after_pass<T>(
    local: Map<FilePathView, T>,
    remote: Map<FilePathView, T>,
    depth: Depth,
    scope: Seq<Seq<char>>,
    path: FilePathView,
) -> Option<T> {
    if depth.reaches(scope, path) {
        remote_after(
            stored_at(remote, path),
            resolution_when(stored_at(local, path), stored_at(remote, path), true),
        )
    } else {
        stored_at(remote, path)
    }
}

/// What the local store holds after a pass at `depth` from the folder
/// `scope`, where `equal` says for each path whether the items of the two
/// stores there compare equal.
pub open spec fn synced_local_by<T>(
    local: Map<FilePathView, T>,
    remote: Map<FilePathView, T>,
    depth: Depth,
    scope: Seq<Seq<char>>,
    equal: spec_fn(FilePathView) -> bool,
) -> Map<FilePathView, T> {
    Map::new(
        |path: FilePathView|
            local_at_after_pass(local, remote, depth, scope, path, equal(path)) is Some,
        |path: FilePathView|
            local_at_after_pass(local, remote, depth, scope, path, equal(path)).unwrap(),
    )
}

/// What the local store holds after a pass at `depth` from the folder
/// `scope`, for items whose `==` is `eq_spec`.
pub open spec fn synced_local<T: PartialEq>(
    local: Map<FilePathView, T>,
    remote: Map<FilePathView, T>,
    depth: Depth,
    scope: Seq<Seq<char>>,
) -> Map<FilePathView, T> {
    synced_local_by(
        local,
        remote,
        depth,
        scope,
        |path: FilePathView| same_items(stored_at(local, path), stored_at(remote, path)),
    )
}

/// What the remote store holds after a pass at `depth` from the folder
/// `scope`.
pub open spec fn synced_remote<T>(
    local: Map<FilePathView, T>,
    remote: Map<FilePathView, T>,
    depth: Depth,
    scope: Seq<Seq<char>>,
) -> Map<FilePathView, T> {
    Map::new(
        |path: FilePathView| remote_at_after_pass(local, remote, depth, scope, path) is Some,
        |path: FilePathView| remote_at_after_pass(local, remote, depth, scope, path).unwrap(),
    )
}

/// The views of `paths`, in the same order.
pub open spec fn path_views(paths: Seq<FilePath>) -> Seq<FilePathView> {
    paths.map_values(|path: FilePath| path@)
}

/// Whether `path` is one of `paths`.
fn holds_path(paths: &Vec<FilePath>, path: &FilePath) -> (found: bool)
    ensures
        found == path_views(paths@).contains(path@),
{
    let mut i: usize = 0;
    while i < paths.len()
        invariant
            i <= paths.len(),
            forall|j: int| 0 <= j < i ==> path_views(paths@)[j] != path@,
        decreases paths.len() - i,
    {
        if paths[i].same_as(path) {
            assert(path_views(paths@)[i as int] == path@);
            return true;
        }
        i += 1;
    }
    false
}

/// Adds to `paths` the path of each of `entries` that is not among them
/// yet.
fn add_paths<T>(paths: &mut Vec<FilePath>, entries: Vec<(FilePath, T)>)
    requires
        path_views(old(paths)@).no_duplicates(),
    ensures
        path_views(final(paths)@).no_duplicates(),
        forall|path: FilePathView|
            path_views(final(paths)@).contains(path) <==> path_views(old(paths)@).contains(path)
                || listed_paths(entries@).contains(path),
{
    let mut entries = entries;
    let ghost all = listed_paths(entries@);
    while entries.len() > 0
        invariant
            entries@.len() <= all.len(),
            listed_paths(entries@) == all.subrange(0, entries@.len() as int),
            path_views(paths@).no_duplicates(),
            forall|path: FilePathView|
                path_views(paths@).contains(path) <==> path_views(old(paths)@).contains(path)
                    || all.subrange(entries@.len() as int, all.len() as int).contains(path),
        decreases entries.len(),
    {
        let ghost before = path_views(paths@);
        let ghost taken = all.subrange(entries@.len() as int, all.len() as int);
        let ghost rest = entries@.len() - 1;
        let ghost listed = listed_paths(entries@);
        let entry = entries.pop().unwrap();
        let path = entry.0;
        proof {
            assert(listed[rest] == path@);
            assert(all[rest] == path@);
            assert(listed_paths(entries@) =~= all.subrange(0, rest));
            assert(all.subrange(rest, all.len() as int) =~= seq![path@] + taken);
        }
        if !holds_path(paths, &path) {
            paths.push(path);
            assert(path_views(paths@) =~= before.push(path@));
        }
        proof {
            let now = path_views(paths@);
            let taken_now = all.subrange(rest, all.len() as int);
            assert forall|key: FilePathView| now.contains(key) <==> before.contains(key) || key
                == path@ by {
                if before.contains(key) {
                    let j = choose|j: int| 0 <= j < before.len() && before[j] == key;
                    assert(now[j] == key);
                }
                if key == path@ && !before.contains(key) {
                    assert(now[before.len() as int] == key);
                }
            }
            assert forall|key: FilePathView| taken_now.contains(key) <==> taken.contains(key)
                || key == path@ by {
                if taken.contains(key) {
                    let j = choose|j: int| 0 <= j < taken.len() && taken[j] == key;
                    assert(taken_now[j + 1] == key);
                }
                if key == path@ {
                    assert(taken_now[0] == key);
                }
            }
        }
    }
    assert(all.subrange(0, all.len() as int) =~= all);
}

/// The paths that occur in `first` or in `second`, each once.
pub fn union_paths<T>(first: Vec<(FilePath, T)>, second: Vec<(FilePath, T)>) -> (paths: Vec<
    FilePath,
>)
    ensures
        path_views(paths@).no_duplicates(),
        forall|path: FilePathView|
            path_views(paths@).contains(path) <==> listed_paths(first@).contains(path)
                || listed_paths(second@).contains(path),
{
    let mut paths: Vec<FilePath> = Vec::new();
    add_paths(&mut paths, first);
    add_paths(&mut paths, second);
    paths
}

/// A local and a remote store, held together for synchronisation. It keeps
/// nothing else: every pass starts from what the two stores hold.
pub struct SyncDb<T, L, R> where L: Db<T>, R: Db<T> {
    local: L,
    remote: R,
    phantom: PhantomData<T>,
}

impl<T, L, R> SyncDb<T, L, R> where L: Db<T>, R: Db<T>, T: Clone + Eq {
    /// What the local store holds.
    pub closed spec fn local_view(&self) -> Map<FilePathView, T> {
        self.local@
    }

    /// What the remote store holds.
    pub closed spec fn remote_view(&self) -> Map<FilePathView, T> {
        self.remote@
    }

    /// Puts a local and a remote store together, each as it is.
    pub fn new(local: L, remote: R) -> (db: Self)
        ensures
            db.local_view() == local@,
            db.remote_view() == remote@,
    {
        Self { local: local, remote: remote, phantom: PhantomData }
    }

    /// The local store.
    pub fn local(&self) -> (local: &L)
        ensures
            local@ == self.local_view(),
    {
        &self.local
    }

    /// The remote store.
    pub fn remote(&self) -> (remote: &R)
        ensures
            remote@ == self.remote_view(),
    {
        &self.remote
    }

    /// Gives the two stores back, local first, each as the passes left it.
    pub fn into_parts(self) -> (parts: (L, R))
        ensures
            parts.0@ == self.local_view(),
            parts.1@ == self.remote_view(),
    {
        (self.local, self.remote)
    }

    /// One pass: reconciles every path within reach of `depth` from the
    /// folder `sync_path` at which either store holds an item, and leaves
    /// every other path as it is. The paths are found by listing both
    /// stores; each is then read again in both and reconciled as
    /// [`Self::sync_file`] does.
    ///
    /// What the remote store holds afterwards does not depend on how items
    /// compare. What the local store holds is `synced_local` where `==` on
    /// items is `eq_spec`; for any other item type it is what the rule gives
    /// for some answer of `==` at each path.
    pub fn sync_folder(&mut self, depth: &Depth, sync_path: &FolderPath)
        ensures
            final(self).remote_view() == synced_remote(
                old(self).local_view(),
                old(self).remote_view(),
                *depth,
                sync_path@,
            ),
            T::obeys_eq_spec() ==> final(self).local_view() == synced_local(
                old(self).local_view(),
                old(self).remote_view(),
                *depth,
                sync_path@,
            ),
            exists|equal: spec_fn(FilePathView) -> bool|
                final(self).local_view() == #[trigger] synced_local_by(
                    old(self).local_view(),
                    old(self).remote_view(),
                    *depth,
                    sync_path@,
                    equal,
                ),
    {
        let ghost local_before = self.local@;
        let ghost remote_before = self.remote@;
        let ghost scope = sync_path@;
        let local_entries = self.local.list(depth, sync_path);
        let remote_entries = self.remote.list(depth, sync_path);
        let mut paths_to_sync = union_paths(local_entries, remote_entries);
        proof {
            assert forall|path: FilePathView|
                depth.reaches(scope, path) && (local_before.dom().contains(path)
                    || remote_before.dom().contains(path)) implies path_views(
                paths_to_sync@,
            ).contains(path) by {
                if local_before.dom().contains(path) {
                    assert(listed_paths(local_entries@).contains(path));
                } else {
                    assert(listed_paths(remote_entries@).contains(path));
                }
            }
            assert forall|path: FilePathView|
                path_views(paths_to_sync@).contains(path) implies depth.reaches(scope, path) by {
                if listed_paths(local_entries@).contains(path) {
                    let i = choose|i: int|
                        0 <= i < local_entries@.len() && listed_paths(local_entries@)[i] == path;
                    assert(depth.reaches(scope, local_entries@[i].0@));
                } else {
                    let i = choose|i: int|
                        0 <= i < remote_entries@.len() && listed_paths(remote_entries@)[i]
                            == path;
                    assert(depth.reaches(scope, remote_entries@[i].0@));
                }
            }
        }
        while paths_to_sync.len() > 0
            invariant
                path_views(paths_to_sync@).no_duplicates(),
                forall|path: FilePathView|
                    path_views(paths_to_sync@).contains(path) ==> {
                        &&& depth.reaches(scope, path)
                        &&& stored_at(self.local@, path) == stored_at(local_before, path)
                        &&& stored_at(self.remote@, path) == stored_at(remote_before, path)
                    },
                forall|path: FilePathView|
                    !path_views(paths_to_sync@).contains(path) ==> {
                        &&& stored_at(self.remote@, path) == remote_at_after_pass(
                            local_before,
                            remote_before,
                            *depth,
                            scope,
                            path,
                        )
                        &&& stored_at(self.local@, path) == local_at_after_pass(
                            local_before,
                            remote_before,
                            *depth,
                            scope,
                            path,
                            stored_at(self.local@, path) == stored_at(local_before, path),
                        )
                        &&& T::obeys_eq_spec() ==> stored_at(self.local@, path)
                            == local_at_after_pass(
                            local_before,
                            remote_before,
                            *depth,
                            scope,
                            path,
                            same_items(
                                stored_at(local_before, path),
                                stored_at(remote_before, path),
                            ),
                        )
                    },
            decreases paths_to_sync.len(),
        {
            let ghost waiting = path_views(paths_to_sync@);
            let ghost local_now = self.local@;
            let ghost remote_now = self.remote@;
            let path = paths_to_sync.pop().unwrap();
            proof {
                assert(path_views(paths_to_sync@) =~= waiting.drop_last());
                assert(waiting.last() == path@);
                assert(waiting.contains(path@));
                assert forall|other: FilePathView|
                    path_views(paths_to_sync@).contains(other) implies waiting.contains(other)
                    && other != path@ by {
                    let i = choose|i: int|
                        0 <= i < waiting.len() - 1 && waiting.drop_last()[i] == other;
                    assert(waiting[i] == other);
                }
                assert forall|other: FilePathView|
                    waiting.contains(other) && other != path@ implies path_views(
                    paths_to_sync@,
                ).contains(other) by {
                    let i = choose|i: int| 0 <= i < waiting.len() && waiting[i] == other;
                    assert(waiting.drop_last()[i] == other);
                }
            }
            self.sync_file(path);
            proof {
                let equal = choose|equal: bool|
                    self.local@ == #[trigger] local_after_file_when(
                        local_now,
                        remote_now,
                        path@,
                        equal,
                    );
                assert(self.local@ == local_after_file_when(local_now, remote_now, path@, equal));
                assert(self.remote@ == remote_after_file(local_now, remote_now, path@));
            }
        }
        proof {
            let equal = |path: FilePathView|
                stored_at(self.local@, path) == stored_at(local_before, path);
            assert(self.local@ =~= synced_local_by(
                local_before,
                remote_before,
                *depth,
                scope,
                equal,
            ));
            assert(self.remote@ =~= synced_remote(local_before, remote_before, *depth, scope));
            if T::obeys_eq_spec() {
                assert(self.local@ =~= synced_local(local_before, remote_before, *depth, scope));
            }
            assert(self.local_view() == synced_local_by(
                old(self).local_view(),
                old(self).remote_view(),
                *depth,
                sync_path@,
                equal,
            ));
        }
    }

    /// Reconciles the single path `sync_path`: reads it in both stores and
    /// writes what the rule of `resolution` asks for. No other path is read
    /// or written.
    ///
    /// What the remote store holds afterwards does not depend on how items
    /// compare. What the local store holds is `local_after_file` where `==`
    /// on items is `eq_spec`; for any other item type it is what the rule
    /// gives for one of the two answers of `==`.
    pub fn sync_file(&mut self, sync_path: FilePath)
        ensures
            final(self).remote_view() == remote_after_file(
                old(self).local_view(),
                old(self).remote_view(),
                sync_path@,
            ),
            T::obeys_eq_spec() ==> final(self).local_view() == local_after_file(
                old(self).local_view(),
                old(self).remote_view(),
                sync_path@,
            ),
            exists|equal: bool|
                final(self).local_view() == #[trigger] local_after_file_when(
                    old(self).local_view(),
                    old(self).remote_view(),
                    sync_path@,
                    equal,
                ),
    {
        let ghost local_before = self.local@;
        let ghost remote_before = self.remote@;
        let local = self.local.get(&sync_path);
        let remote = self.remote.get(&sync_path);
        let decision = resolve(local, remote);
        proof {
            let equal = decision == resolution_when(local, remote, true);
            assert(decision == resolution_when(local, remote, equal));
        }
        match decision {
            Resolution::StoreLocally(item) => {
                self.local.insert(sync_path, item);
            },
            Resolution::StoreRemotely(item) => {
                self.remote.insert(sync_path, item);
            },
            Resolution::Keep => {},
        }
        proof {
            let equal = decision == resolution_when(local, remote, true);
            assert(self.local@ == local_after_file_when(
                local_before,
                remote_before,
                sync_path@,
                equal,
            ));
        }
    }
}

} // verus!
