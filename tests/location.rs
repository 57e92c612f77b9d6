use gittask::location::{ancestors, join, parent, TaskLocation, TaskLocationError};
use gittask::text::{trim_str, truncate};

#[test]
fn test_global_location() {
    let loc = TaskLocation::global().unwrap();
    assert!(loc.is_global);
    assert!(loc.tasks_dir.ends_with(".tasks"));
}

#[test]
fn global_without_home_fails() {
    assert!(matches!(TaskLocation::global_at(None), Err(TaskLocationError::NoHomeDirectory)));
    let loc = TaskLocation::global_at(Some("/home/u".to_string())).unwrap();
    assert_eq!(loc.tasks_dir, "/home/u/.tasks");
    assert!(loc.is_global);
}

#[test]
fn test_find_project_from_git_root() {
    let chain = ancestors("/tmp/x");
    let marked: Vec<bool> = chain.iter().map(|d| d == "/tmp/x").collect();
    let loc = TaskLocation::find_project_from(&chain, &marked).unwrap();
    assert!(!loc.is_global);
    assert_eq!(loc.root, "/tmp/x");
    assert_eq!(loc.tasks_dir, "/tmp/x/.tasks");
}

#[test]
fn test_find_project_from_subdirectory() {
    let chain = ancestors("/tmp/x/src/nested");
    assert_eq!(chain, vec!["/tmp/x/src/nested", "/tmp/x/src", "/tmp/x", "/tmp", "/"]);
    let marked: Vec<bool> = chain.iter().map(|d| d == "/tmp/x").collect();
    let loc = TaskLocation::find_project_from(&chain, &marked).unwrap();
    assert!(!loc.is_global);
    assert_eq!(loc.root, "/tmp/x");
}

#[test]
fn test_find_project_no_git() {
    let chain = ancestors("/tmp/y");
    let marked = vec![false; chain.len()];
    assert!(matches!(
        TaskLocation::find_project_from(&chain, &marked),
        Err(TaskLocationError::NotInGitRepo)
    ));
}

#[test]
fn nearest_marked_ancestor_wins() {
    let chain = ancestors("a/b");
    assert_eq!(chain, vec!["a/b", "a", ""]);
    let loc = TaskLocation::find_project_from(&chain, &vec![false, true, true]).unwrap();
    assert_eq!(loc.root, "a");
}

#[test]
fn paths_join_and_parent() {
    assert_eq!(join("/", ".tasks"), "/.tasks");
    assert_eq!(join("", "x"), "x");
    assert_eq!(join("/a/", "x"), "/a/x");
    assert_eq!(parent("/a"), Some("/".to_string()));
    assert_eq!(parent("/"), None);
    assert_eq!(parent(""), None);
}

#[test]
fn trimming_and_truncating_text() {
    assert_eq!(trim_str("\u{3000} a b \t\n"), "a b");
    assert_eq!(truncate("abcdefgh", 6), "abc...");
    assert_eq!(truncate("abc", 6), "abc");
}
