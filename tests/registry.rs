use gittask::registry::{file_name, select_project, ProjectRegistry, ProjectStatus};
use gittask::task::{Task, TaskKind, TaskStatus};

fn registry_with(paths: &[&str]) -> ProjectRegistry {
    let mut r = ProjectRegistry::new("/home/u/.tasks/.projects".to_string());
    for p in paths {
        r.link(p.to_string());
    }
    r
}

#[test]
fn test_load_empty_registry() {
    let registry = ProjectRegistry::from_text("/tmp/.projects".to_string(), "");
    assert!(registry.is_empty());
}

#[test]
fn test_link_project() {
    let mut registry = ProjectRegistry::new("/tmp/t/.projects".to_string());
    let inserted = registry.link("/tmp/t/myproject".to_string());
    assert!(inserted);
    assert_eq!(registry.len(), 1);

    let inserted = registry.link("/tmp/t/myproject".to_string());
    assert!(!inserted);
    assert_eq!(registry.len(), 1);
}

#[test]
fn test_unlink_project() {
    let mut registry = ProjectRegistry::new("/tmp/t/.projects".to_string());
    registry.link("/tmp/t/myproject".to_string());
    assert_eq!(registry.len(), 1);

    let removed = registry.unlink("/tmp/t/myproject", None);
    assert!(removed);
    assert!(registry.is_empty());

    let removed = registry.unlink("/tmp/t/myproject", None);
    assert!(!removed);
}

#[test]
fn unlink_falls_back_to_the_canonical_form() {
    let mut registry = registry_with(&["/real/proj"]);
    assert!(!registry.unlink("/link/proj", None));
    assert!(registry.unlink("/link/proj", Some("/real/proj")));
    assert!(registry.is_empty());
}

#[test]
fn link_twice_then_unlink_twice() {
    let mut registry = ProjectRegistry::new("/r".to_string());
    assert_eq!((registry.link("/p".to_string()), registry.link("/p".to_string())), (true, false));
    assert!(registry.unlink("/p", Some("/p")));
    assert!(!registry.unlink("/p", Some("/p")));
    assert_eq!(registry.len(), 0);
}

#[test]
fn test_save_and_load() {
    let mut registry = ProjectRegistry::new("/tmp/t/.tasks/.projects".to_string());
    registry.link("/tmp/t/project1".to_string());
    registry.link("/tmp/t/project2".to_string());
    let text = registry.to_text();
    assert_eq!(text, "/tmp/t/project1\n/tmp/t/project2\n");
    let loaded = ProjectRegistry::from_text("/tmp/t/.tasks/.projects".to_string(), &text);
    assert_eq!(loaded.len(), 2);
    assert_eq!(loaded.registry_path(), "/tmp/t/.tasks/.projects");
}

#[test]
fn registry_text_skips_blank_lines_and_duplicates() {
    let loaded = ProjectRegistry::from_text("/r".to_string(), "\n  /a  \n\n/b\r\n/a\n   \n/c");
    assert_eq!(loaded.projects(), &vec!["/a".to_string(), "/b".to_string(), "/c".to_string()]);
    assert_eq!(ProjectRegistry::new("/r".to_string()).to_text(), "");
}

#[test]
fn test_find_project() {
    let registry = registry_with(&["/tmp/t/gittask", "/tmp/t/brooklyn"]);

    assert!(registry.find_project("gittask").is_some());
    assert!(registry.find_project("brooklyn").is_some());
    assert!(registry.find_project("GitTask").is_some());
    assert!(registry.find_project("git").is_some());
    assert!(registry.find_project("brook").is_some());
    assert!(registry.find_project("nonexistent").is_none());
}

#[test]
fn find_project_prefers_exact_and_refuses_ambiguity() {
    let registry = registry_with(&["/a/gittask", "/b/git", "/c/gitlab"]);
    assert_eq!(registry.find_project("GIT"), Some("/b/git".to_string()));
    assert_eq!(registry.find_project("gitt"), Some("/a/gittask".to_string()));
    assert_eq!(registry.find_project("gi"), None);
    assert_eq!(registry.find_project(""), None);
}

#[test]
fn select_project_on_given_keys() {
    let paths = vec!["/x/Alpha".to_string(), "/y/alphabet".to_string(), "/".to_string()];
    let keys = vec![Some("alpha".to_string()), Some("alphabet".to_string()), None];
    assert_eq!(select_project(&paths, &keys, "alpha"), Some("/x/Alpha".to_string()));
    assert_eq!(select_project(&paths, &keys, "alphab"), Some("/y/alphabet".to_string()));
    assert_eq!(select_project(&paths, &keys, "al"), None);
    assert_eq!(select_project(&paths, &keys, "zeta"), None);
}

#[test]
fn file_names_of_paths() {
    assert_eq!(file_name("/tmp/t/myproject"), Some("myproject".to_string()));
    assert_eq!(file_name("myproject"), Some("myproject".to_string()));
    assert_eq!(file_name("/"), None);
    assert_eq!(file_name("/a/.."), None);
}

#[test]
fn test_project_status() {
    let status = ProjectStatus::from_path("/tmp/t/myproject", true, false, None);
    assert_eq!(status.name, "myproject");
    assert!(status.exists);
    assert!(!status.has_tasks_dir);
    assert_eq!(status.open_tasks, 0);
    assert_eq!(status.total_tasks, 0);
}

#[test]
fn project_status_counts_open_tasks() {
    let mut done = Task::new(2, TaskKind::Task, "b".to_string());
    done.status = TaskStatus::Completed;
    let tasks = vec![Task::new(1, TaskKind::Task, "a".to_string()), done];
    let status = ProjectStatus::from_path("/w/p", true, true, Some(&tasks));
    assert_eq!(status.open_tasks, 1);
    assert_eq!(status.total_tasks, 2);
    assert_eq!(status.path, "/w/p");
}

#[test]
fn registry_file_sits_in_the_global_tasks_directory() {
    assert_eq!(ProjectRegistry::path_under(Some("/home/u".to_string())).unwrap(), "/home/u/.tasks/.projects");
    assert!(ProjectRegistry::path_under(None).is_err());
    assert!(ProjectRegistry::default_path().unwrap().ends_with("/.tasks/.projects"));
}
