//! A store that keeps its entries in memory.
//!
//! The entries are owned by the store. An item is kept behind an `Rc`, so a
//! read hands out another handle to the stored item and never a way to
//! change it.

use crate::db::{listed_paths, stored_at, Db, Depth};
use crate::path::{FilePath, FilePathView, FolderPath};
use std::rc::Rc;
use vstd::prelude::*;

verus! {

/// `Rc::clone` of the standard library: the new handle points to the same
/// allocation as `item`, so it stands for the same value.
#[verifier::external_body]
fn share<T>(item: &Rc<T>) -> (shared: Rc<T>)
    ensures
        shared == *item,
{
    Rc::clone(item)
}

/// Where among `items` the entry for `path` stands, if there is one.
pub open spec fn slot_of<T>(items: Seq<(FilePath, T)>, path: FilePathView) -> int {
    choose|i: int| 0 <= i < items.len() && listed_paths(items)[i] == path
}

/// What a list of entries holds as a store: at the path of each entry an
/// item of an entry with that path.
pub open spec fn entries_of<T>(items: Seq<(FilePath, T)>) -> Map<FilePathView, T> {
    Map::new(
        |path: FilePathView| listed_paths(items).contains(path),
        |path: FilePathView| items[slot_of(items, path)].1,
    )
}

/// The store that results from writing `entries` one after the other into
/// an empty store: of two entries with the same path the later one stays.
pub open spec fn entries_written<T>(entries: Seq<(FilePath, T)>) -> Map<FilePathView, T>
    decreases entries.len(),
{
    if entries.len() == 0 {
        Map::empty()
    } else {
        entries_written(entries.drop_last()).insert(entries.last().0@, entries.last().1)
    }
}

/// In a list without repeated paths each entry is what the list holds at
/// its path.
pub proof fn lemma_entry_is_stored<T>(items: Seq<(FilePath, T)>, i: int)
    requires
        listed_paths(items).no_duplicates(),
        0 <= i < items.len(),
    ensures
        stored_at(entries_of(items), items[i].0@) == Some(items[i].1),
{
    let path = items[i].0@;
    assert(listed_paths(items)[i] == path);
    assert(listed_paths(items).contains(path));
    assert(slot_of(items, path) == i);
}

/// Taking an entry out of a list without repeated paths removes its path
/// from what the list holds and changes nothing else.
pub proof fn lemma_entry_removed<T>(items: Seq<(FilePath, T)>, i: int)
    requires
        listed_paths(items).no_duplicates(),
        0 <= i < items.len(),
    ensures
        listed_paths(items.remove(i)).no_duplicates(),
        !listed_paths(items.remove(i)).contains(items[i].0@),
        entries_of(items.remove(i)) == entries_of(items).remove(items[i].0@),
{
    let rest = items.remove(i);
    let paths = listed_paths(items);
    let rest_paths = listed_paths(rest);
    assert(rest_paths =~= paths.remove(i));
    assert forall|j: int| 0 <= j < rest.len() implies rest[j] == items[if j < i {
        j
    } else {
        j + 1
    }] && rest_paths[j] == paths[if j < i {
        j
    } else {
        j + 1
    }] by {}
    assert forall|path: FilePathView| rest_paths.contains(path) <==> paths.contains(path) && path
        != paths[i] by {
        if rest_paths.contains(path) {
            let j = choose|j: int| 0 <= j < rest_paths.len() && rest_paths[j] == path;
            let k = if j < i {
                j
            } else {
                j + 1
            };
            assert(paths[k] == path);
        }
        if paths.contains(path) && path != paths[i] {
            let k = choose|k: int| 0 <= k < paths.len() && paths[k] == path;
            let j = if k < i {
                k
            } else {
                k - 1
            };
            assert(rest_paths[j] == path);
        }
    }
    assert forall|path: FilePathView| rest_paths.contains(path) implies entries_of(rest)[path]
        == entries_of(items)[path] by {
        let j = slot_of(rest, path);
        let k = if j < i {
            j
        } else {
            j + 1
        };
        assert(paths[k] == path);
        assert(slot_of(items, path) == k);
    }
    assert(entries_of(rest) =~= entries_of(items).remove(items[i].0@));
}

/// Adding an entry with a new path to a list without repeated paths stores
/// its item at that path and changes nothing else.
pub proof fn lemma_entry_added<T>(items: Seq<(FilePath, T)>, entry: (FilePath, T))
    requires
        listed_paths(items).no_duplicates(),
        !listed_paths(items).contains(entry.0@),
    ensures
        listed_paths(items.push(entry)).no_duplicates(),
        entries_of(items.push(entry)) == entries_of(items).insert(entry.0@, entry.1),
{
    let more = items.push(entry);
    let paths = listed_paths(items);
    let more_paths = listed_paths(more);
    assert(more_paths =~= paths.push(entry.0@));
    assert forall|path: FilePathView| more_paths.contains(path) <==> paths.contains(path) || path
        == entry.0@ by {
        if paths.contains(path) {
            let j = choose|j: int| 0 <= j < paths.len() && paths[j] == path;
            assert(more_paths[j] == path);
        }
        if path == entry.0@ {
            assert(more_paths[items.len() as int] == path);
        }
    }
    assert forall|path: FilePathView| more_paths.contains(path) implies entries_of(more)[path]
        == entries_of(items).insert(entry.0@, entry.1)[path] by {
        let j = slot_of(more, path);
        if j < items.len() {
            assert(paths[j] == path);
            assert(slot_of(items, path) == j);
        }
    }
    assert(entries_of(more) =~= entries_of(items).insert(entry.0@, entry.1));
}

/// An in-memory store: a list of entries in which no path occurs twice.
pub struct MemoryDb<T> where T: Clone {
    items: Vec<(FilePath, Rc<T>)>,
}

impl<T> MemoryDb<T> where T: Clone {
    #[verifier::type_invariant]
    spec fn distinct_paths(self) -> bool {
        listed_paths(self.items@).no_duplicates()
    }

    /// An empty store.
    pub fn new() -> (db: Self)
        ensures
            db@ == Map::<FilePathView, Rc<T>>::empty(),
    {
        let db = Self { items: Vec::new() };
        assert(db@ =~= Map::<FilePathView, Rc<T>>::empty());
        db
    }

    /// A store that holds what writing `items` one after the other into an
    /// empty store leaves: of two entries with the same path the later one
    /// stays.
    pub fn with(items: Vec<(FilePath, Rc<T>)>) -> (db: Self)
        ensures
            db@ == entries_written(items@),
    {
        let mut db = Self::new();
        let mut i: usize = 0;
        while i < items.len()
            invariant
                i <= items@.len(),
                db@ == entries_written(items@.subrange(0, i as int)),
            decreases items.len() - i,
        {
            let path = items[i].0.clone();
            let item = share(&items[i].1);
            proof {
                let next = items@.subrange(0, i + 1);
                assert(next.drop_last() =~= items@.subrange(0, i as int));
                assert(next.last() == items@[i as int]);
            }
            db.set(path, Some(item));
            i += 1;
        }
        assert(items@.subrange(0, items@.len() as int) =~= items@);
        db
    }

    /// Stores `item` at `path` and returns the item that was stored there
    /// before.
    pub fn insert_item(&mut self, path: FilePath, item: T) -> (previous: Option<Rc<T>>)
        ensures
            final(self)@ == old(self)@.insert(path@, Rc::new(item)),
            previous == stored_at(old(self)@, path@),
    {
        self.insert(path, Rc::new(item))
    }

    /// The index of the entry for `path`, if there is one.
    fn find(&self, path: &FilePath) -> (found: Option<usize>)
        ensures
            match found {
                Some(i) => i < self.items@.len() && listed_paths(self.items@)[i as int] == path@,
                None => !listed_paths(self.items@).contains(path@),
            },
    {
        let mut i: usize = 0;
        while i < self.items.len()
            invariant
                i <= self.items@.len(),
                forall|j: int| 0 <= j < i ==> listed_paths(self.items@)[j] != path@,
            decreases self.items.len() - i,
        {
            if self.items[i].0.same_as(path) {
                return Some(i);
            }
            i += 1;
        }
        None
    }
}

impl<T> Db<Rc<T>> for MemoryDb<T> where T: Clone {
    closed spec fn view(&self) -> Map<FilePathView, Rc<T>> {
        entries_of(self.items@)
    }

    fn set(&mut self, path: FilePath, item: Option<Rc<T>>) -> (previous: Option<Rc<T>>) {
        proof {
            use_type_invariant(&*self);
        }
        let ghost before = self.items@;
        let found = self.find(&path);
        let mut taken = Self { items: Vec::new() };
        core::mem::swap(self, &mut taken);
        let mut items = taken.items;
        let previous = match found {
            Some(i) => {
                proof {
                    lemma_entry_is_stored(before, i as int);
                    lemma_entry_removed(before, i as int);
                }
                let entry = items.remove(i);
                Some(entry.1)
            },
            None => {
                assert(entries_of(before) =~= entries_of(before).remove(path@));
                None
            },
        };
        let ghost without = items@;
        assert(entries_of(without) == entries_of(before).remove(path@));
        assert(!listed_paths(without).contains(path@));
        match item {
            Some(item) => {
                proof {
                    lemma_entry_added(without, (path, item));
                    assert(entries_of(before).remove(path@).insert(path@, item) =~= entries_of(
                        before,
                    ).insert(path@, item));
                }
                items.push((path, item));
            },
            None => {},
        }
        *self = Self { items };
        previous
    }

    fn get(&self, path: &FilePath) -> (item: Option<Rc<T>>) {
        proof {
            use_type_invariant(self);
        }
        match self.find(path) {
            Some(i) => {
                proof {
                    lemma_entry_is_stored(self.items@, i as int);
                }
                Some(share(&self.items[i].1))
            },
            None => None,
        }
    }

    fn list(&self, depth: &Depth, sync_path: &FolderPath) -> (entries: Vec<(FilePath, Rc<T>)>) {
        proof {
            use_type_invariant(self);
        }
        let ghost scope = sync_path@;
        let ghost stored = listed_paths(self.items@);
        let mut entries: Vec<(FilePath, Rc<T>)> = Vec::new();
        let ghost mut origin: Seq<int> = Seq::empty();
        let mut i: usize = 0;
        while i < self.items.len()
            invariant
                i <= self.items@.len(),
                stored == listed_paths(self.items@),
                stored.no_duplicates(),
                scope == sync_path@,
                origin.len() == entries@.len(),
                forall|k: int|
                    0 <= k < entries@.len() ==> {
                        &&& 0 <= #[trigger] origin[k] < i
                        &&& listed_paths(entries@)[k] == stored[origin[k]]
                        &&& entries@[k].1 == self.items@[origin[k]].1
                        &&& depth.reaches(scope, stored[origin[k]])
                    },
                forall|k: int, l: int|
                    0 <= k < l < entries@.len() ==> #[trigger] origin[k] < #[trigger] origin[l],
                forall|j: int|
                    0 <= j < i && depth.reaches(scope, #[trigger] stored[j]) ==> listed_paths(
                        entries@,
                    ).contains(stored[j]),
            decreases self.items.len() - i,
        {
            let ghost listed = listed_paths(entries@);
            if depth.includes(sync_path, self.items[i].0.folder()) {
                let path = self.items[i].0.clone();
                let item = share(&self.items[i].1);
                entries.push((path, item));
                proof {
                    origin = origin.push(i as int);
                    assert(listed_paths(entries@) =~= listed.push(stored[i as int]));
                    assert(listed_paths(entries@)[listed.len() as int] == stored[i as int]);
                    assert forall|j: int|
                        0 <= j < i + 1 && depth.reaches(scope, #[trigger] stored[j])
                        implies listed_paths(entries@).contains(stored[j]) by {
                        if j < i {
                            let k = choose|k: int| 0 <= k < listed.len() && listed[k] == stored[j];
                            assert(listed_paths(entries@)[k] == stored[j]);
                        }
                    }
                }
            }
            i += 1;
        }
        proof {
            let listed = listed_paths(entries@);
            assert forall|k: int| 0 <= k < entries@.len() implies {
                let entry = #[trigger] entries@[k];
                &&& depth.reaches(scope, entry.0@)
                &&& stored_at(self@, entry.0@) == Some(entry.1)
            } by {
                assert(listed[k] == stored[origin[k]]);
                lemma_entry_is_stored(self.items@, origin[k]);
            }
            assert forall|path: FilePathView| #[trigger]
                self@.dom().contains(path) && depth.reaches(scope, path) implies listed.contains(
                path,
            ) by {
                let j = choose|j: int| 0 <= j < stored.len() && stored[j] == path;
                assert(depth.reaches(scope, stored[j]));
            }
            assert forall|k: int, l: int| 0 <= k < listed.len() && 0 <= l < listed.len() && k
                != l implies listed[k] != listed[l] by {
                assert(origin[k] != origin[l]) by {
                    if k < l {
                        assert(origin[k] < origin[l]);
                    } else {
                        assert(origin[l] < origin[k]);
                    }
                }
                assert(listed[k] == stored[origin[k]]);
                assert(listed[l] == stored[origin[l]]);
            }
        }
        entries
    }
}

} // verus!
