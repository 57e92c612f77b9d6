use gittask::file_store::{DirEntry, DirListing, FileStore, FileStoreError, TaskFilter};
use gittask::location::{join, TaskLocation};
use gittask::task::{Date, Priority, Task, TaskKind, TaskStatus};

/// An in-memory stand-in for a task directory: file names and their tasks.
struct Dir {
    files: Vec<(String, Task)>,
}

fn setup_test_store() -> (Dir, FileStore) {
    let location = TaskLocation::project_at("/work/proj");
    (Dir { files: Vec::new() }, FileStore::new(location))
}

fn names(dir: &Dir) -> Vec<String> {
    dir.files.iter().map(|(n, _)| n.clone()).collect()
}

fn listing(dir: &Dir) -> DirListing {
    DirListing {
        exists: true,
        entries: dir
            .files
            .iter()
            .map(|(n, t)| DirEntry { name: n.clone(), task: Some(t.clone()) })
            .collect(),
    }
}

fn create(store: &FileStore, dir: &mut Dir, task: Task) -> Task {
    let created = store.create(true, &names(dir), task).unwrap();
    dir.files.push((created.filename(), created.clone()));
    created
}

fn update(store: &FileStore, dir: &mut Dir, task: &Task) {
    let plan = store.update(true, &names(dir), task).unwrap();
    let dir_path = store.location().tasks_dir.clone();
    dir.files.retain(|(n, _)| join(&dir_path, n) != plan.old_path);
    dir.files.push((task.filename(), task.clone()));
    assert_eq!(plan.new_path, store.task_path(task));
}

fn read(store: &FileStore, dir: &Dir, id: u64) -> Result<Task, FileStoreError> {
    let path = store.find_task_file(true, &names(dir), id)?;
    let dir_path = store.location().tasks_dir.clone();
    Ok(dir.files.iter().find(|(n, _)| join(&dir_path, n) == path).unwrap().1.clone())
}

fn delete(store: &FileStore, dir: &mut Dir, id: u64) -> Result<(), FileStoreError> {
    let path = store.find_task_file(true, &names(dir), id)?;
    let dir_path = store.location().tasks_dir.clone();
    dir.files.retain(|(n, _)| join(&dir_path, n) != path);
    Ok(())
}

#[test]
fn test_create_task() {
    let (mut dir, store) = setup_test_store();
    let task = Task::new(0, TaskKind::Task, "Test task".to_string());
    let created = create(&store, &mut dir, task);
    assert_eq!(created.id, 1);
    assert_eq!(created.title, "Test task");
    assert_eq!(dir.files.len(), 1);
}

#[test]
fn create_needs_the_directory() {
    let (_dir, store) = setup_test_store();
    let task = Task::new(0, TaskKind::Task, "x".to_string());
    assert!(matches!(
        store.create(false, &Vec::new(), task),
        Err(FileStoreError::DirectoryNotInitialized)
    ));
}

#[test]
fn create_fails_when_ids_are_exhausted() {
    let (_dir, store) = setup_test_store();
    let task = Task::new(0, TaskKind::Task, "x".to_string());
    let n = vec!["y-18446744073709551615.md".to_string()];
    assert!(matches!(store.create(true, &n, task), Err(FileStoreError::IdsExhausted)));
}

#[test]
fn test_read_task() {
    let (mut dir, store) = setup_test_store();
    let task = Task::new(0, TaskKind::Task, "Test task".to_string());
    let created = create(&store, &mut dir, task);
    let read = read(&store, &dir, created.id).unwrap();
    assert_eq!(read.id, created.id);
    assert_eq!(read.title, "Test task");
}

#[test]
fn find_reports_missing_ids_and_directories() {
    let (mut dir, store) = setup_test_store();
    create(&store, &mut dir, Task::new(0, TaskKind::Task, "One".to_string()));
    assert!(matches!(
        store.find_task_file(true, &names(&dir), 2),
        Err(FileStoreError::TaskNotFound(2))
    ));
    assert!(matches!(
        store.find_task_file(false, &names(&dir), 1),
        Err(FileStoreError::TaskNotFound(1))
    ));
    assert_eq!(
        store.find_task_file(true, &names(&dir), 1).unwrap(),
        "/work/proj/.tasks/one-001.md"
    );
}

#[test]
fn test_update_task() {
    let (mut dir, store) = setup_test_store();
    let task = Task::new(0, TaskKind::Task, "Original title".to_string());
    let mut created = create(&store, &mut dir, task);

    created.title = "Updated title".to_string();
    created.priority = Priority::High;
    update(&store, &mut dir, &created);

    let read = read(&store, &dir, created.id).unwrap();
    assert_eq!(read.title, "Updated title");
    assert_eq!(read.priority, Priority::High);
}

#[test]
fn retitled_task_is_found_by_id() {
    let (mut dir, store) = setup_test_store();
    let mut t = create(&store, &mut dir, Task::new(0, TaskKind::Task, "Old name".to_string()));
    t.title = "New name".to_string();
    let plan = store.update(true, &names(&dir), &t).unwrap();
    assert_eq!(plan.old_path, "/work/proj/.tasks/old-name-001.md");
    assert_eq!(plan.new_path, "/work/proj/.tasks/new-name-001.md");
    assert!(plan.remove_old);
    update(&store, &mut dir, &t);
    assert_eq!(names(&dir), vec!["new-name-001.md".to_string()]);
    assert_eq!(read(&store, &dir, 1).unwrap().title, "New name");

    t.priority = Priority::Low;
    let same = store.update(true, &names(&dir), &t).unwrap();
    assert!(!same.remove_old);
}

#[test]
fn test_delete_task() {
    let (mut dir, store) = setup_test_store();
    let task = Task::new(0, TaskKind::Task, "Test task".to_string());
    let created = create(&store, &mut dir, task);
    delete(&store, &mut dir, created.id).unwrap();
    assert!(read(&store, &dir, created.id).is_err());
}

#[test]
fn test_list_tasks() {
    let (mut dir, store) = setup_test_store();
    create(&store, &mut dir, Task::new(0, TaskKind::Task, "Task 1".to_string()));
    create(&store, &mut dir, Task::new(0, TaskKind::Todo, "Todo 1".to_string()));
    create(&store, &mut dir, Task::new(0, TaskKind::Idea, "Idea 1".to_string()));
    let all = store.list(listing(&dir), &TaskFilter::default());
    assert_eq!(all.len(), 3);
}

#[test]
fn list_sorts_by_id_skips_other_files_and_absent_dirs() {
    let (mut dir, store) = setup_test_store();
    create(&store, &mut dir, Task::new(0, TaskKind::Task, "A".to_string()));
    create(&store, &mut dir, Task::new(0, TaskKind::Task, "B".to_string()));
    create(&store, &mut dir, Task::new(0, TaskKind::Task, "C".to_string()));
    dir.files.reverse();
    let mut l = listing(&dir);
    let stray = Task::new(99, TaskKind::Task, "Stray".to_string());
    l.entries.push(DirEntry { name: "notes-099.txt".to_string(), task: Some(stray) });
    l.entries.push(DirEntry { name: "broken-050.md".to_string(), task: None });
    let ids: Vec<u64> = store.list(l, &TaskFilter::default()).iter().map(|t| t.id).collect();
    assert_eq!(ids, vec![1, 2, 3]);
    let absent = DirListing { exists: false, entries: listing(&dir).entries };
    assert!(store.list(absent, &TaskFilter::default()).is_empty());
}

#[test]
fn test_filter_by_kind() {
    let (mut dir, store) = setup_test_store();
    create(&store, &mut dir, Task::new(0, TaskKind::Task, "Task 1".to_string()));
    create(&store, &mut dir, Task::new(0, TaskKind::Todo, "Todo 1".to_string()));
    let filter = TaskFilter { kind: Some(TaskKind::Task), ..Default::default() };
    let tasks = store.list(listing(&dir), &filter);
    assert_eq!(tasks.len(), 1);
    assert_eq!(tasks[0].kind, TaskKind::Task);
}

#[test]
fn test_filter_by_status() {
    let (mut dir, store) = setup_test_store();
    let mut task1 = create(&store, &mut dir, Task::new(0, TaskKind::Task, "Task 1".to_string()));
    create(&store, &mut dir, Task::new(0, TaskKind::Task, "Task 2".to_string()));
    task1.status = TaskStatus::Completed;
    update(&store, &mut dir, &task1);
    let filter = TaskFilter { status: Some(TaskStatus::Pending), ..Default::default() };
    let tasks = store.list(listing(&dir), &filter);
    assert_eq!(tasks.len(), 1);
}

#[test]
fn filter_by_priority() {
    let (mut dir, store) = setup_test_store();
    let mut t = create(&store, &mut dir, Task::new(0, TaskKind::Task, "P".to_string()));
    create(&store, &mut dir, Task::new(0, TaskKind::Task, "Q".to_string()));
    t.priority = Priority::Critical;
    update(&store, &mut dir, &t);
    let filter = TaskFilter { priority: Some(Priority::Critical), ..Default::default() };
    let tasks = store.list(listing(&dir), &filter);
    assert_eq!(tasks.len(), 1);
    assert_eq!(tasks[0].title, "P");
}

#[test]
fn test_filter_excludes_archived() {
    let (mut dir, store) = setup_test_store();
    let mut task = create(&store, &mut dir, Task::new(0, TaskKind::Task, "Task 1".to_string()));
    task.status = TaskStatus::Archived;
    update(&store, &mut dir, &task);

    let filter = TaskFilter::default();
    let tasks = store.list(listing(&dir), &filter);
    assert_eq!(tasks.len(), 0);

    let filter = TaskFilter { include_archived: true, ..Default::default() };
    let tasks = store.list(listing(&dir), &filter);
    assert_eq!(tasks.len(), 1);
}

#[test]
fn test_filter_by_tags() {
    let (mut dir, store) = setup_test_store();
    let mut task1 = Task::new(0, TaskKind::Task, "Task 1".to_string());
    task1.tags = vec!["bug".to_string(), "urgent".to_string()];
    create(&store, &mut dir, task1);

    let mut task2 = Task::new(0, TaskKind::Task, "Task 2".to_string());
    task2.tags = vec!["feature".to_string()];
    create(&store, &mut dir, task2);

    let filter = TaskFilter { tags: vec!["bug".to_string()], ..Default::default() };
    let tasks = store.list(listing(&dir), &filter);
    assert_eq!(tasks.len(), 1);
    assert!(tasks[0].tags.contains(&"bug".to_string()));
}

#[test]
fn several_tags_must_all_be_present() {
    let (mut dir, store) = setup_test_store();
    let mut a = Task::new(0, TaskKind::Task, "A".to_string());
    a.tags = vec!["bug".to_string(), "ui".to_string()];
    create(&store, &mut dir, a);
    let mut b = Task::new(0, TaskKind::Task, "B".to_string());
    b.tags = vec!["bug".to_string()];
    create(&store, &mut dir, b);
    let filter = TaskFilter { tags: vec!["ui".to_string(), "bug".to_string()], ..Default::default() };
    let tasks = store.list(listing(&dir), &filter);
    assert_eq!(tasks.len(), 1);
    assert_eq!(tasks[0].title, "A");
}

#[test]
fn test_stats() {
    let (mut dir, store) = setup_test_store();
    create(&store, &mut dir, Task::new(0, TaskKind::Task, "Task 1".to_string()));
    create(&store, &mut dir, Task::new(0, TaskKind::Todo, "Todo 1".to_string()));
    let mut task = create(&store, &mut dir, Task::new(0, TaskKind::Idea, "Idea 1".to_string()));
    task.status = TaskStatus::Completed;
    update(&store, &mut dir, &task);

    let stats = store.stats(&listing(&dir));
    assert_eq!(stats.total, 3);
    assert_eq!(stats.pending, 2);
    assert_eq!(stats.completed, 1);
    assert_eq!(stats.tasks, 1);
    assert_eq!(stats.todos, 1);
    assert_eq!(stats.ideas, 1);
}

#[test]
fn stats_count_overdue_open_tasks_only() {
    let (mut dir, store) = setup_test_store();
    let mut a = Task::new(0, TaskKind::Task, "Late".to_string());
    a.due = Some(Date { year: 2001, month: 3, day: 1 });
    create(&store, &mut dir, a);
    let mut b = Task::new(0, TaskKind::Task, "Due today".to_string());
    b.due = Some(Date { year: 2001, month: 3, day: 2 });
    create(&store, &mut dir, b);
    let mut c = Task::new(0, TaskKind::Task, "Late but done".to_string());
    c.due = Some(Date { year: 2001, month: 1, day: 9 });
    let mut c = create(&store, &mut dir, c);
    c.status = TaskStatus::Archived;
    update(&store, &mut dir, &c);
    let today = Date { year: 2001, month: 3, day: 2 };
    let stats = store.stats_on(&listing(&dir), today);
    assert_eq!(stats.total, 3);
    assert_eq!(stats.overdue, 1);
    assert_eq!(stats.archived, 1);
    let long_ago = store.stats(&listing(&dir));
    assert_eq!(long_ago.overdue, 2);
}

#[test]
fn test_sequential_ids() {
    let (mut dir, store) = setup_test_store();
    let task1 = create(&store, &mut dir, Task::new(0, TaskKind::Task, "Task 1".to_string()));
    let task2 = create(&store, &mut dir, Task::new(0, TaskKind::Task, "Task 2".to_string()));
    let task3 = create(&store, &mut dir, Task::new(0, TaskKind::Task, "Task 3".to_string()));
    assert_eq!(task1.id, 1);
    assert_eq!(task2.id, 2);
    assert_eq!(task3.id, 3);
}

#[test]
fn example_end_to_end() {
    let (mut dir, store) = setup_test_store();
    let created = create(&store, &mut dir, Task::new(0, TaskKind::Todo, "Fix auth bug".to_string()));
    assert_eq!(created.id, 1);
    assert_eq!(names(&dir), vec!["fix-auth-bug-001.md".to_string()]);
    let mut t = read(&store, &dir, 1).unwrap();
    t.complete(Some("abc123".to_string()));
    update(&store, &mut dir, &t);
    let t = read(&store, &dir, 1).unwrap();
    assert_eq!(t.status, TaskStatus::Completed);
    assert_eq!(t.closed_commit, Some("abc123".to_string()));
    let stats = store.stats(&listing(&dir));
    assert_eq!(stats.total, 1);
    assert_eq!(stats.completed, 1);
    assert_eq!(stats.pending, 0);
    assert_eq!(stats.overdue, 0);
}
