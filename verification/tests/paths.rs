use std::cmp::Ordering;
use std::convert::TryFrom;
use std::convert::TryInto;

use sync::{FilePath, FilePathCreationError, FolderPath, Order};

fn folder(parts: &[&'static str]) -> FolderPath {
    parts.to_vec().into()
}

#[test]
fn it_works() {
    assert_eq!(2 + 2, 4);
}

#[test]
fn root_has_no_segments() {
    assert_eq!(FolderPath::root(), folder(&[]));
    assert_eq!(FolderPath::root().to_text(), "/");
}

#[test]
fn folder_contains_itself() {
    assert!(FolderPath::root().contains(&FolderPath::root()));
    assert!(folder(&["a", "b"]).contains(&folder(&["a", "b"])));
}

#[test]
fn folder_contains_what_lies_below() {
    assert!(FolderPath::root().contains(&folder(&["a"])));
    assert!(folder(&["a"]).contains(&folder(&["a", "b"])));
    assert!(folder(&["a"]).contains(&folder(&["a", "b", "c"])));
}

#[test]
fn folder_does_not_contain_what_lies_above() {
    assert!(!folder(&["a"]).contains(&FolderPath::root()));
    assert!(!folder(&["a", "b"]).contains(&folder(&["a"])));
    assert!(!folder(&["a", "b", "c"]).contains(&folder(&["a", "b"])));
}

#[test]
fn folder_does_not_contain_a_neighbour() {
    assert!(!folder(&["a"]).contains(&folder(&["b"])));
    assert!(!folder(&["a", "b"]).contains(&folder(&["a", "c"])));
    assert!(!folder(&["a", "b"]).contains(&folder(&["c", "b", "d"])));
    assert!(!folder(&["ab"]).contains(&folder(&["abc"])));
}

#[test]
fn folders_are_equal_by_their_segments() {
    assert_eq!(folder(&["a", "b"]), folder(&["a", "b"]));
    assert_ne!(folder(&["a", "b"]), folder(&["a"]));
    assert_ne!(folder(&["a", "b"]), folder(&["b", "a"]));
    assert_ne!(folder(&["a"]), FolderPath::root());
    assert!(folder(&["a", "b"]).same_as(&folder(&["a", "b"])));
    assert!(!folder(&["a", "b"]).same_as(&folder(&["a", "c"])));
}

#[test]
fn folder_from_owned_names() {
    let owned: FolderPath = vec!["a".to_string(), "b".to_string()].into();
    assert_eq!(owned, folder(&["a", "b"]));
}

#[test]
fn folder_clone_is_equal() {
    let deep = folder(&["a", "b", "c"]);
    assert_eq!(deep.clone(), deep);
    assert_eq!(FolderPath::root().clone(), FolderPath::root());
}

#[test]
fn folder_text() {
    assert_eq!(folder(&["a"]).to_text(), "a/");
    assert_eq!(folder(&["a", "b"]).to_text(), "a/b/");
    assert_eq!(folder(&["folder", "sub", "deep"]).to_text(), "folder/sub/deep/");
}

#[test]
fn file_path_round_trip() {
    let path = FilePath::try_from(vec!["folder", "item"]).unwrap();
    assert_eq!(path.folder(), &folder(&["folder"]));
    assert_eq!(path.file_name(), "item");
}

#[test]
fn file_path_from_one_segment_lies_in_the_root() {
    let path: FilePath = vec!["item"].try_into().unwrap();
    assert_eq!(path.folder(), &FolderPath::root());
    assert_eq!(path.file_name(), "item");
}

#[test]
fn file_path_from_many_segments() {
    let path = FilePath::try_from(vec!["a", "b", "c", "d"]).unwrap();
    assert_eq!(path.folder(), &folder(&["a", "b", "c"]));
    assert_eq!(path.file_name(), "d");
}

#[test]
fn file_path_from_no_segment_fails() {
    let made = FilePath::try_from(Vec::<&str>::new());
    assert!(matches!(made, Err(FilePathCreationError::MissingFileName)));
    let made = FilePath::try_from(Vec::<String>::new());
    assert!(matches!(made, Err(FilePathCreationError::MissingFileName)));
}

#[test]
fn file_path_from_owned_names() {
    let path = FilePath::try_from(vec!["folder".to_string(), "item".to_string()]).unwrap();
    assert_eq!(path, FilePath::new(folder(&["folder"]), "item".to_string()));
}

#[test]
fn file_path_new_keeps_both_parts() {
    let path = FilePath::new(folder(&["a", "b"]), "c".to_string());
    assert_eq!(path.folder(), &folder(&["a", "b"]));
    assert_eq!(path.file_name(), "c");
    assert_eq!(path, FilePath::try_from(vec!["a", "b", "c"]).unwrap());
}

#[test]
fn file_paths_are_equal_by_both_parts() {
    let path = FilePath::new(folder(&["a"]), "x".to_string());
    assert_eq!(path, FilePath::new(folder(&["a"]), "x".to_string()));
    assert_ne!(path, FilePath::new(folder(&["a"]), "y".to_string()));
    assert_ne!(path, FilePath::new(folder(&["b"]), "x".to_string()));
    assert_ne!(path, FilePath::new(FolderPath::root(), "x".to_string()));
    assert!(path.same_as(&path.clone()));
    assert!(!path.same_as(&FilePath::new(folder(&["a", "x"]), "x".to_string())));
}

#[test]
fn file_path_text() {
    assert_eq!(FilePath::new(FolderPath::root(), "item".to_string()).to_text(), "/item");
    assert_eq!(FilePath::new(folder(&["folder"]), "item1".to_string()).to_text(), "folder/item1");
    assert_eq!(FilePath::new(folder(&["a", "b"]), "c".to_string()).to_text(), "a/b/c");
}

#[test]
fn file_paths_are_ordered_by_folder_then_name() {
    let mut paths = vec![
        FilePath::new(folder(&["b"]), "a".to_string()),
        FilePath::new(folder(&["a", "b"]), "a".to_string()),
        FilePath::new(folder(&["a"]), "z".to_string()),
        FilePath::new(FolderPath::root(), "z".to_string()),
        FilePath::new(folder(&["a"]), "b".to_string()),
    ];
    paths.sort();
    let expected = vec![
        FilePath::new(FolderPath::root(), "z".to_string()),
        FilePath::new(folder(&["a"]), "b".to_string()),
        FilePath::new(folder(&["a"]), "z".to_string()),
        FilePath::new(folder(&["a", "b"]), "a".to_string()),
        FilePath::new(folder(&["b"]), "a".to_string()),
    ];
    assert_eq!(paths, expected);
}

#[test]
fn names_are_ordered_by_their_characters() {
    let name = |text: &str| FilePath::new(FolderPath::root(), text.to_string());
    assert_eq!(name("a").compare(&name("b")), Order::Before);
    assert_eq!(name("b").compare(&name("a")), Order::After);
    assert_eq!(name("ab").compare(&name("ab")), Order::Same);
    assert_eq!(name("a").compare(&name("ab")), Order::Before);
    assert_eq!(name("ab").compare(&name("a")), Order::After);
    assert_eq!(name("").compare(&name("a")), Order::Before);
    assert_eq!(name("Z").compare(&name("a")), Order::Before);
    assert_eq!(name("z").compare(&name("\u{e9}")), Order::Before);
    assert_eq!(name("\u{e9}").compare(&name("\u{4e2d}")), Order::Before);
    assert_eq!(name("\u{ffff}").compare(&name("\u{10000}")), Order::Before);
    assert_eq!(name("\u{10000}").compare(&name("\u{e000}")), Order::After);
}

#[test]
fn folders_are_ordered_segment_by_segment() {
    assert_eq!(folder(&[]).compare(&folder(&[])), Order::Same);
    assert_eq!(folder(&[]).compare(&folder(&["a"])), Order::Before);
    assert_eq!(folder(&["a"]).compare(&folder(&[])), Order::After);
    assert_eq!(folder(&["a"]).compare(&folder(&["a", "b"])), Order::Before);
    assert_eq!(folder(&["a", "b"]).compare(&folder(&["a", "b"])), Order::Same);
    assert_eq!(folder(&["a", "c"]).compare(&folder(&["a", "b", "z"])), Order::After);
    assert_eq!(folder(&["a", "b"]).compare(&folder(&["ab"])), Order::Before);
    assert_eq!(folder(&["b"]).compare(&folder(&["a", "z"])), Order::After);
}

#[test]
fn file_paths_compare_folder_first() {
    let first = FilePath::new(folder(&["a"]), "z".to_string());
    let second = FilePath::new(folder(&["b"]), "a".to_string());
    let third = FilePath::new(folder(&["a"]), "zz".to_string());
    assert_eq!(first.compare(&second), Order::Before);
    assert_eq!(second.compare(&first), Order::After);
    assert_eq!(first.compare(&third), Order::Before);
    assert_eq!(first.compare(&first.clone()), Order::Same);
}

#[test]
fn the_comparison_operators_follow_compare() {
    let samples = vec![
        FilePath::new(FolderPath::root(), "z".to_string()),
        FilePath::new(FolderPath::root(), "".to_string()),
        FilePath::new(folder(&["a"]), "b".to_string()),
        FilePath::new(folder(&["a"]), "z".to_string()),
        FilePath::new(folder(&["a", "b"]), "a".to_string()),
        FilePath::new(folder(&["ab"]), "a".to_string()),
        FilePath::new(folder(&["b"]), "a".to_string()),
        FilePath::new(folder(&["\u{e9}"]), "\u{10000}".to_string()),
    ];
    for first in &samples {
        for second in &samples {
            let expected = match first.compare(second) {
                Order::Before => Ordering::Less,
                Order::Same => Ordering::Equal,
                Order::After => Ordering::Greater,
            };
            assert_eq!(first.partial_cmp(second), Some(expected));
            assert_eq!(first.cmp(second), expected);
            assert_eq!(first < second, expected == Ordering::Less);
            assert_eq!(first == second, expected == Ordering::Equal);
            assert_eq!(first.folder().partial_cmp(second.folder()), Some(first.folder().cmp(second.folder())));
        }
    }
}
