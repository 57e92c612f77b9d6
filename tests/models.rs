use gittask::frontmatter::{assemble_frontmatter, split_frontmatter, FrontmatterError};
use gittask::task::{Date, Priority, Task, TaskKind, TaskStatus};

#[test]
fn test_split_frontmatter() {
    let content = "---\nid: 1\ntitle: Test task\n---\n\nThis is the body.\n";
    let (frontmatter, body) = split_frontmatter(content).unwrap();
    assert!(frontmatter.contains("id: 1"));
    assert!(frontmatter.contains("title: Test task"));
    assert!(body.contains("This is the body."));
}

#[test]
fn test_split_frontmatter_no_body() {
    let content = "---\nid: 1\ntitle: Test task\n---";
    let (frontmatter, body) = split_frontmatter(content).unwrap();
    assert!(frontmatter.contains("id: 1"));
    assert!(body.is_empty());
}

#[test]
fn test_split_frontmatter_missing_start() {
    let content = "No frontmatter here";
    assert!(split_frontmatter(content).is_err());
}

#[test]
fn test_split_frontmatter_missing_end() {
    let content = "---\nid: 1\ntitle: Test task";
    assert!(split_frontmatter(content).is_err());
}

#[test]
fn split_gives_exact_block_and_body() {
    let (fm, body) = split_frontmatter("\n---\nid: 1\n---\n\nBody text\n").unwrap();
    assert_eq!(fm, "id: 1");
    assert_eq!(body, "\n\nBody text");
}

#[test]
fn split_needs_a_whole_delimiter_line() {
    let r = split_frontmatter("---\nid: 1\n----\nrest");
    assert!(matches!(r, Err(FrontmatterError::MissingDelimiters)));
    let (fm, body) = split_frontmatter("---\nid: 1\n--- \n---\nrest").unwrap();
    assert_eq!(fm, "id: 1\n--- ");
    assert_eq!(body, "\nrest");
}

#[test]
fn split_with_empty_block() {
    let (fm, body) = split_frontmatter("---\n---\nx").unwrap();
    assert_eq!(fm, "");
    assert_eq!(body, "\nx");
}

#[test]
fn assemble_then_split_keeps_block_and_description() {
    let text = assemble_frontmatter("id: 3\ntitle: A\n", "Line one\nLine two");
    assert_eq!(text, "---\nid: 3\ntitle: A\n---\n\nLine one\nLine two\n");
    let (fm, body) = split_frontmatter(&text).unwrap();
    assert_eq!(fm, "id: 3\ntitle: A");
    assert_eq!(body.trim(), "Line one\nLine two");
    assert_eq!(assemble_frontmatter("id: 3\n", ""), "---\nid: 3\n---\n");
}

#[test]
fn test_task_status_display() {
    assert_eq!(TaskStatus::Pending.to_string(), "pending");
    assert_eq!(TaskStatus::InProgress.to_string(), "in-progress");
    assert_eq!(TaskStatus::Completed.to_string(), "completed");
    assert_eq!(TaskStatus::Archived.to_string(), "archived");
}

#[test]
fn test_task_status_parse() {
    assert_eq!("pending".parse::<TaskStatus>().unwrap(), TaskStatus::Pending);
    assert_eq!("in-progress".parse::<TaskStatus>().unwrap(), TaskStatus::InProgress);
    assert_eq!("inprogress".parse::<TaskStatus>().unwrap(), TaskStatus::InProgress);
    assert_eq!("completed".parse::<TaskStatus>().unwrap(), TaskStatus::Completed);
    assert_eq!("done".parse::<TaskStatus>().unwrap(), TaskStatus::Completed);
    assert!("invalid".parse::<TaskStatus>().is_err());
}

#[test]
fn status_parse_ignores_case_and_names_the_input() {
    assert_eq!("In_Progress".parse::<TaskStatus>().unwrap(), TaskStatus::InProgress);
    assert_eq!("DONE".parse::<TaskStatus>().unwrap(), TaskStatus::Completed);
    assert_eq!(TaskStatus::parse("Nope").unwrap_err(), "Unknown status: Nope");
}

#[test]
fn test_priority_display() {
    assert_eq!(Priority::Low.to_string(), "low");
    assert_eq!(Priority::Medium.to_string(), "medium");
    assert_eq!(Priority::High.to_string(), "high");
    assert_eq!(Priority::Critical.to_string(), "critical");
}

#[test]
fn test_priority_parse() {
    assert_eq!("low".parse::<Priority>().unwrap(), Priority::Low);
    assert_eq!("medium".parse::<Priority>().unwrap(), Priority::Medium);
    assert_eq!("med".parse::<Priority>().unwrap(), Priority::Medium);
    assert_eq!("high".parse::<Priority>().unwrap(), Priority::High);
    assert_eq!("critical".parse::<Priority>().unwrap(), Priority::Critical);
    assert!("invalid".parse::<Priority>().is_err());
}

#[test]
fn priority_parse_short_and_upper_case() {
    assert_eq!("CRIT".parse::<Priority>().unwrap(), Priority::Critical);
    assert_eq!(Priority::parse("x").unwrap_err(), "Unknown priority: x");
}

#[test]
fn test_task_kind_display() {
    assert_eq!(TaskKind::Task.to_string(), "task");
    assert_eq!(TaskKind::Todo.to_string(), "todo");
    assert_eq!(TaskKind::Idea.to_string(), "idea");
}

#[test]
fn test_task_kind_parse() {
    assert_eq!("task".parse::<TaskKind>().unwrap(), TaskKind::Task);
    assert_eq!("todo".parse::<TaskKind>().unwrap(), TaskKind::Todo);
    assert_eq!("idea".parse::<TaskKind>().unwrap(), TaskKind::Idea);
    assert!("invalid".parse::<TaskKind>().is_err());
}

#[test]
fn kind_parse_upper_case_and_error_text() {
    assert_eq!("IDEA".parse::<TaskKind>().unwrap(), TaskKind::Idea);
    assert_eq!(TaskKind::parse("bug").unwrap_err(), "Unknown kind: bug");
}

#[test]
fn test_task_new() {
    let task = Task::new(1, TaskKind::Task, "Fix authentication bug".to_string());
    assert_eq!(task.id, 1);
    assert_eq!(task.title, "Fix authentication bug");
    assert_eq!(task.status, TaskStatus::Pending);
    assert_eq!(task.priority, Priority::Medium);
    assert_eq!(task.kind, TaskKind::Task);
    assert!(task.tags.is_empty());
    assert!(task.due.is_none());
    assert!(task.closed_commit.is_none());
}

#[test]
fn new_task_is_created_and_updated_at_once() {
    let task = Task::new(5, TaskKind::Idea, "x".to_string());
    assert_eq!(task.created, task.updated);
    assert!(task.created.seconds > 1_600_000_000);
    assert!(task.description.is_empty());
}

#[test]
fn test_task_slug() {
    let task = Task::new(1, TaskKind::Task, "Fix Authentication Bug".to_string());
    assert_eq!(task.slug(), "fix-authentication-bug");
}

#[test]
fn test_task_filename() {
    let task = Task::new(1, TaskKind::Task, "Fix auth bug".to_string());
    assert_eq!(task.filename(), "fix-auth-bug-001.md");

    let task2 = Task::new(123, TaskKind::Task, "Test".to_string());
    assert_eq!(task2.filename(), "test-123.md");
}

#[test]
fn filename_pads_only_short_ids() {
    let t = Task::new(12, TaskKind::Task, "  Hello, World!  ".to_string());
    assert_eq!(t.filename(), "hello-world-012.md");
    let t = Task::new(4567, TaskKind::Task, "a".to_string());
    assert_eq!(t.filename(), "a-4567.md");
    let t = Task::new(0, TaskKind::Task, "z".to_string());
    assert_eq!(t.filename(), "z-000.md");
}

#[test]
fn test_task_is_open() {
    let mut task = Task::new(1, TaskKind::Task, "Test".to_string());
    assert!(task.is_open());

    task.status = TaskStatus::InProgress;
    assert!(task.is_open());

    task.status = TaskStatus::Completed;
    assert!(!task.is_open());

    task.status = TaskStatus::Archived;
    assert!(!task.is_open());
}

#[test]
fn test_task_complete() {
    let mut task = Task::new(1, TaskKind::Task, "Test".to_string());
    task.complete(Some("abc123".to_string()));

    assert_eq!(task.status, TaskStatus::Completed);
    assert_eq!(task.closed_commit, Some("abc123".to_string()));
}

#[test]
fn touch_changes_only_the_update_time() {
    let mut task = Task::new(1, TaskKind::Todo, "Keep".to_string());
    let before = task.clone();
    task.touch();
    assert_eq!(task.title, before.title);
    assert_eq!(task.created, before.created);
    assert!(task.updated.seconds >= before.updated.seconds);
}

#[test]
fn dates_order_by_year_month_day() {
    let a = Date { year: 2025, month: 12, day: 31 };
    let b = Date { year: 2026, month: 1, day: 1 };
    assert!(a.is_before(&b));
    assert!(!b.is_before(&a));
    assert!(!a.is_before(&a));
}

#[test]
fn lowercase_words_name_values_exactly() {
    assert_eq!(TaskStatus::from_lowercase("in_progress", "IN_PROGRESS").unwrap(), TaskStatus::InProgress);
    assert_eq!(TaskStatus::from_lowercase("Pending", "Pending").unwrap_err(), "Unknown status: Pending");
    assert_eq!(Priority::from_lowercase("med", "Med").unwrap(), Priority::Medium);
    assert_eq!(TaskKind::from_lowercase("todo", "ToDo").unwrap(), TaskKind::Todo);
    assert_eq!(TaskStatus::default(), TaskStatus::Pending);
    assert_eq!(Priority::default(), Priority::Medium);
    assert_eq!(TaskKind::default(), TaskKind::Task);
}
