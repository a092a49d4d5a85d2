use std::rc::Rc;

use sync::memory_db::MemoryDb;
use sync::{resolve, union_paths, Db, Depth, FilePath, FolderPath, Resolution, SyncDb};

fn path(parts: &[&'static str]) -> FilePath {
    FilePath::try_from(parts.to_vec()).unwrap()
}

fn folder(parts: &[&'static str]) -> FolderPath {
    parts.to_vec().into()
}

fn store(entries: &[(&[&'static str], &'static str)]) -> MemoryDb<&'static str> {
    let mut db = MemoryDb::new();
    for (parts, item) in entries {
        db.insert_item(path(parts), *item);
    }
    db
}

fn all(db: &MemoryDb<&'static str>) -> Vec<(FilePath, Rc<&'static str>)> {
    let mut entries = db.list(&Depth::Recursive, &FolderPath::root());
    entries.sort_by_key(|(path, _)| path.clone());
    entries
}

#[test]
fn sync_on_demand() {
    let folder_path: FolderPath = vec!["folder"].into();
    let mut local = MemoryDb::new();
    let mut remote = MemoryDb::new();

    let path1 = FilePath::new(folder_path.clone(), "item1".to_string());
    let item1 = "store me";
    local.insert_item(path1.clone(), item1);

    let path2 = FilePath::new(folder_path, "item2".to_string());
    let item2 = "store me, too";
    remote.insert_item(path2.clone(), item2);

    let mut db = SyncDb::new(local, remote);
    db.sync_folder(&Depth::Recursive, &FolderPath::root());

    let folder_path = vec!["folder"].into();
    let mut stored_locally = db.local().list(&Depth::Simple, &folder_path);
    let mut stored_remotely = db.remote().list(&Depth::Simple, &folder_path);

    let expected = vec![(path1, Rc::new(item1)), (path2, Rc::new(item2))];
    stored_locally.sort_by_key(|(path, _)| path.clone());
    stored_remotely.sort_by_key(|(path, _)| path.clone());
    assert_eq!(expected, stored_locally);
    assert_eq!(expected, stored_remotely);
}

#[test]
fn remote_wins_a_tie() {
    let local = store(&[(&["folder", "item"], "A")]);
    let remote = store(&[(&["folder", "item"], "B")]);
    let mut db = SyncDb::new(local, remote);
    db.sync_folder(&Depth::Recursive, &FolderPath::root());
    assert_eq!(db.local().get(&path(&["folder", "item"])), Some(Rc::new("B")));
    assert_eq!(db.remote().get(&path(&["folder", "item"])), Some(Rc::new("B")));
}

#[test]
fn sync_file_remote_wins_a_tie() {
    let local = store(&[(&["folder", "item"], "A")]);
    let remote = store(&[(&["folder", "item"], "B")]);
    let mut db = SyncDb::new(local, remote);
    db.sync_file(path(&["folder", "item"]));
    assert_eq!(db.local().get(&path(&["folder", "item"])), Some(Rc::new("B")));
    assert_eq!(db.remote().get(&path(&["folder", "item"])), Some(Rc::new("B")));
}

#[test]
fn sync_file_copies_to_the_store_that_lacks_the_item() {
    let local = store(&[(&["a"], "only local")]);
    let remote = store(&[(&["b"], "only remote")]);
    let mut db = SyncDb::new(local, remote);
    db.sync_file(path(&["a"]));
    assert_eq!(db.remote().get(&path(&["a"])), Some(Rc::new("only local")));
    assert_eq!(db.local().get(&path(&["b"])), None);
    db.sync_file(path(&["b"]));
    assert_eq!(db.local().get(&path(&["b"])), Some(Rc::new("only remote")));
    assert_eq!(all(db.local()), all(db.remote()));
}

#[test]
fn sync_file_leaves_equal_items_and_absent_paths() {
    let local = store(&[(&["a"], "same")]);
    let remote = store(&[(&["a"], "same")]);
    let mut db = SyncDb::new(local, remote);
    db.sync_file(path(&["a"]));
    db.sync_file(path(&["nowhere"]));
    assert_eq!(all(db.local()), vec![(path(&["a"]), Rc::new("same"))]);
    assert_eq!(all(db.remote()), vec![(path(&["a"]), Rc::new("same"))]);
}

#[test]
fn sync_file_touches_no_other_path() {
    let local = store(&[(&["a"], "A"), (&["b"], "local b")]);
    let remote = store(&[(&["a"], "B"), (&["c"], "remote c")]);
    let mut db = SyncDb::new(local, remote);
    db.sync_file(path(&["a"]));
    assert_eq!(all(db.local()), vec![(path(&["a"]), Rc::new("B")), (path(&["b"]), Rc::new("local b"))]);
    assert_eq!(all(db.remote()), vec![(path(&["a"]), Rc::new("B")), (path(&["c"]), Rc::new("remote c"))]);
}

#[test]
fn full_pass_makes_the_stores_equal() {
    let local = store(&[
        (&["top"], "l0"),
        (&["a", "x"], "l1"),
        (&["a", "b", "y"], "same"),
        (&["c", "z"], "l3"),
    ]);
    let remote = store(&[
        (&["a", "x"], "r1"),
        (&["a", "b", "y"], "same"),
        (&["d", "w"], "r4"),
        (&["a", "b", "c", "v"], "r5"),
    ]);
    let mut db = SyncDb::new(local, remote);
    db.sync_folder(&Depth::Recursive, &FolderPath::root());
    let expected = vec![
        (path(&["top"]), Rc::new("l0")),
        (path(&["a", "x"]), Rc::new("r1")),
        (path(&["a", "b", "y"]), Rc::new("same")),
        (path(&["a", "b", "c", "v"]), Rc::new("r5")),
        (path(&["c", "z"]), Rc::new("l3")),
        (path(&["d", "w"]), Rc::new("r4")),
    ];
    assert_eq!(all(db.local()), expected);
    assert_eq!(all(db.remote()), expected);
}

#[test]
fn second_pass_changes_nothing() {
    let local = store(&[(&["a", "x"], "l1"), (&["a", "y"], "l2"), (&["b", "z"], "l3")]);
    let remote = store(&[(&["a", "x"], "r1"), (&["c", "w"], "r4")]);
    let mut db = SyncDb::new(local, remote);
    db.sync_folder(&Depth::Recursive, &folder(&["a"]));
    let local_once = all(db.local());
    let remote_once = all(db.remote());
    db.sync_folder(&Depth::Recursive, &folder(&["a"]));
    assert_eq!(all(db.local()), local_once);
    assert_eq!(all(db.remote()), remote_once);
    assert_eq!(
        local_once,
        vec![
            (path(&["a", "x"]), Rc::new("r1")),
            (path(&["a", "y"]), Rc::new("l2")),
            (path(&["b", "z"]), Rc::new("l3")),
        ]
    );
    assert_eq!(
        remote_once,
        vec![
            (path(&["a", "x"]), Rc::new("r1")),
            (path(&["a", "y"]), Rc::new("l2")),
            (path(&["c", "w"]), Rc::new("r4")),
        ]
    );
}

#[test]
fn recursive_pass_stays_within_its_folder() {
    let local = store(&[(&["in", "x"], "l1"), (&["in", "sub", "y"], "l2"), (&["out", "z"], "l3"), (&["top"], "l4")]);
    let remote = store(&[(&["in", "x"], "r1"), (&["out", "z"], "r3"), (&["inner", "w"], "r5")]);
    let mut db = SyncDb::new(local, remote);
    db.sync_folder(&Depth::Recursive, &folder(&["in"]));
    assert_eq!(
        all(db.local()),
        vec![
            (path(&["top"]), Rc::new("l4")),
            (path(&["in", "x"]), Rc::new("r1")),
            (path(&["in", "sub", "y"]), Rc::new("l2")),
            (path(&["out", "z"]), Rc::new("l3")),
        ]
    );
    assert_eq!(
        all(db.remote()),
        vec![
            (path(&["in", "x"]), Rc::new("r1")),
            (path(&["in", "sub", "y"]), Rc::new("l2")),
            (path(&["inner", "w"]), Rc::new("r5")),
            (path(&["out", "z"]), Rc::new("r3")),
        ]
    );
}

#[test]
fn simple_pass_leaves_subfolders_alone() {
    let local = store(&[(&["in", "x"], "l1"), (&["in", "sub", "y"], "l2")]);
    let remote = store(&[(&["in", "sub", "y"], "r2"), (&["in", "v"], "r6")]);
    let mut db = SyncDb::new(local, remote);
    db.sync_folder(&Depth::Simple, &folder(&["in"]));
    assert_eq!(
        all(db.local()),
        vec![
            (path(&["in", "v"]), Rc::new("r6")),
            (path(&["in", "x"]), Rc::new("l1")),
            (path(&["in", "sub", "y"]), Rc::new("l2")),
        ]
    );
    assert_eq!(
        all(db.remote()),
        vec![
            (path(&["in", "v"]), Rc::new("r6")),
            (path(&["in", "x"]), Rc::new("l1")),
            (path(&["in", "sub", "y"]), Rc::new("r2")),
        ]
    );
}

#[test]
fn pass_over_empty_stores() {
    let local: MemoryDb<&'static str> = MemoryDb::new();
    let remote: MemoryDb<&'static str> = MemoryDb::new();
    let mut db = SyncDb::new(local, remote);
    db.sync_folder(&Depth::Recursive, &FolderPath::root());
    assert!(all(db.local()).is_empty());
    assert!(all(db.remote()).is_empty());
}

#[test]
fn into_parts_gives_the_stores_back() {
    let local = store(&[(&["a"], "A")]);
    let remote = store(&[]);
    let mut db = SyncDb::new(local, remote);
    db.sync_folder(&Depth::Recursive, &FolderPath::root());
    let (mut local, remote) = db.into_parts();
    assert_eq!(remote.get(&path(&["a"])), Some(Rc::new("A")));
    local.remove(path(&["a"]));
    assert_eq!(local.get(&path(&["a"])), None);
    assert_eq!(remote.get(&path(&["a"])), Some(Rc::new("A")));
}

#[test]
fn resolve_follows_the_rule() {
    assert!(matches!(resolve(Some(1), Some(1)), Resolution::Keep));
    assert!(matches!(resolve(Some(1), Some(2)), Resolution::StoreLocally(2)));
    assert!(matches!(resolve(Some(1), None), Resolution::StoreRemotely(1)));
    assert!(matches!(resolve(None, Some(2)), Resolution::StoreLocally(2)));
    assert!(matches!(resolve::<u8>(None, None), Resolution::Keep));
}

#[test]
fn union_paths_names_each_path_once() {
    let first = vec![(path(&["a"]), 1), (path(&["b", "c"]), 2)];
    let second = vec![(path(&["b", "c"]), 3), (path(&["d"]), 4), (path(&["a"]), 5)];
    let mut paths = union_paths(first, second);
    paths.sort();
    assert_eq!(paths, vec![path(&["a"]), path(&["d"]), path(&["b", "c"])]);
    assert!(union_paths(Vec::<(FilePath, u8)>::new(), Vec::new()).is_empty());
    let twice = vec![(path(&["a"]), 1), (path(&["a"]), 2)];
    assert_eq!(union_paths(twice, Vec::new()), vec![path(&["a"])]);
}
