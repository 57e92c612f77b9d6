//! The task record and its enumerated attributes.
use vstd::prelude::*;
use chrono::Datelike;
use crate::id_generator::{file_name_for, task_file_name};
use crate::text::{copy_opt_string, copy_strings, lower_of, str_eq, texts, to_lower};

verus! {

/// Lifecycle state of a task.
#[derive(Debug, Clone, Copy, PartialEq, Eq, Structural)]
pub enum TaskStatus {
    Pending,
    InProgress,
    Completed,
    Archived,
}

/// Urgency of a task.
#[derive(Debug, Clone, Copy, PartialEq, Eq, Structural)]
pub enum Priority {
    Low,
    Medium,
    High,
    Critical,
}

/// What sort of record a task is.
#[derive(Debug, Clone, Copy, PartialEq, Eq, Structural)]
pub enum TaskKind {
    Task,
    Todo,
    Idea,
}

/// The text `prefix` followed by `s`.
pub open spec fn prefixed(prefix: Seq<char>, s: Seq<char>) -> Seq<char> {
    prefix + s
}

/// Builds `prefix` followed by `s`.
fn prefixed_string(prefix: &str, s: &str) -> (r: String)
    ensures
        r@ == prefixed(prefix@, s@),
{
    let mut r = String::from_str(prefix);
    r.append(s);
    r
}

impl TaskStatus {
    /// The status written in lower case, as stored and shown.
    pub open spec fn name(self) -> Seq<char> {
        match self {
            TaskStatus::Pending => "pending"@,
            TaskStatus::InProgress => "in-progress"@,
            TaskStatus::Completed => "completed"@,
            TaskStatus::Archived => "archived"@,
        }
    }

    /// The status that a lower-cased word names, if any.
    pub open spec fn named(s: Seq<char>) -> Option<TaskStatus> {
        if s == "pending"@ {
            Some(TaskStatus::Pending)
        } else if s == "in-progress"@ || s == "inprogress"@ || s == "in_progress"@ {
            Some(TaskStatus::InProgress)
        } else if s == "completed"@ || s == "done"@ {
            Some(TaskStatus::Completed)
        } else if s == "archived"@ {
            Some(TaskStatus::Archived)
        } else {
            None
        }
    }

    pub fn to_string(&self) -> (r: String)
        ensures
            r@ == self.name(),
    {
        match self {
            TaskStatus::Pending => String::from_str("pending"),
            TaskStatus::InProgress => String::from_str("in-progress"),
            TaskStatus::Completed => String::from_str("completed"),
            TaskStatus::Archived => String::from_str("archived"),
        }
    }

    /// Reads an already lower-cased word; the error repeats `given`.
    pub fn from_lowercase(lower: &str, given: &str) -> (r: Result<TaskStatus, String>)
        ensures
            r matches Ok(st) ==> TaskStatus::named(lower@) == Some(st),
            r matches Err(e) ==> TaskStatus::named(lower@) is None && e@ == prefixed(
                "Unknown status: "@,
                given@,
            ),
            r is Ok <==> TaskStatus::named(lower@) is Some,
    {
        if str_eq(lower, "pending") {
            Ok(TaskStatus::Pending)
        } else if str_eq(lower, "in-progress") || str_eq(lower, "inprogress") || str_eq(
            lower,
            "in_progress",
        ) {
            Ok(TaskStatus::InProgress)
        } else if str_eq(lower, "completed") || str_eq(lower, "done") {
            Ok(TaskStatus::Completed)
        } else if str_eq(lower, "archived") {
            Ok(TaskStatus::Archived)
        } else {
            Err(prefixed_string("Unknown status: ", given))
        }
    }

    /// Reads a status name in any letter case.
    pub fn parse(s: &str) -> (r: Result<TaskStatus, String>)
        ensures
            r matches Ok(st) ==> TaskStatus::named(lower_of(s@)) == Some(st),
            r is Ok <==> TaskStatus::named(lower_of(s@)) is Some,
            r matches Err(e) ==> e@ == prefixed("Unknown status: "@, s@),
    {
        let lower = to_lower(s);
        TaskStatus::from_lowercase(lower.as_str(), s)
    }
}

impl Priority {
    /// The priority written in lower case, as stored and shown.
    pub open spec fn name(self) -> Seq<char> {
        match self {
            Priority::Low => "low"@,
            Priority::Medium => "medium"@,
            Priority::High => "high"@,
            Priority::Critical => "critical"@,
        }
    }

    /// The priority that a lower-cased word names, if any.
    pub open spec fn named(s: Seq<char>) -> Option<Priority> {
        if s == "low"@ {
            Some(Priority::Low)
        } else if s == "medium"@ || s == "med"@ {
            Some(Priority::Medium)
        } else if s == "high"@ {
            Some(Priority::High)
        } else if s == "critical"@ || s == "crit"@ {
            Some(Priority::Critical)
        } else {
            None
        }
    }

    pub fn to_string(&self) -> (r: String)
        ensures
            r@ == self.name(),
    {
        match self {
            Priority::Low => String::from_str("low"),
            Priority::Medium => String::from_str("medium"),
            Priority::High => String::from_str("high"),
            Priority::Critical => String::from_str("critical"),
        }
    }

    /// Reads an already lower-cased word; the error repeats `given`.
    pub fn from_lowercase(lower: &str, given: &str) -> (r: Result<Priority, String>)
        ensures
            r matches Ok(p) ==> Priority::named(lower@) == Some(p),
            r matches Err(e) ==> Priority::named(lower@) is None && e@ == prefixed(
                "Unknown priority: "@,
                given@,
            ),
            r is Ok <==> Priority::named(lower@) is Some,
    {
        if str_eq(lower, "low") {
            Ok(Priority::Low)
        } else if str_eq(lower, "medium") || str_eq(lower, "med") {
            Ok(Priority::Medium)
        } else if str_eq(lower, "high") {
            Ok(Priority::High)
        } else if str_eq(lower, "critical") || str_eq(lower, "crit") {
            Ok(Priority::Critical)
        } else {
            Err(prefixed_string("Unknown priority: ", given))
        }
    }

    /// Reads a priority name in any letter case.
    pub fn parse(s: &str) -> (r: Result<Priority, String>)
        ensures
            r matches Ok(p) ==> Priority::named(lower_of(s@)) == Some(p),
            r is Ok <==> Priority::named(lower_of(s@)) is Some,
            r matches Err(e) ==> e@ == prefixed("Unknown priority: "@, s@),
    {
        let lower = to_lower(s);
        Priority::from_lowercase(lower.as_str(), s)
    }
}

impl TaskKind {
    /// The kind written in lower case, as stored and shown.
    pub open spec fn name(self) -> Seq<char> {
        match self {
            TaskKind::Task => "task"@,
            TaskKind::Todo => "todo"@,
            TaskKind::Idea => "idea"@,
        }
    }

    /// The kind that a lower-cased word names, if any.
    pub open spec fn named(s: Seq<char>) -> Option<TaskKind> {
        if s == "task"@ {
            Some(TaskKind::Task)
        } else if s == "todo"@ {
            Some(TaskKind::Todo)
        } else if s == "idea"@ {
            Some(TaskKind::Idea)
        } else {
            None
        }
    }

    pub fn to_string(&self) -> (r: String)
        ensures
            r@ == self.name(),
    {
        match self {
            TaskKind::Task => String::from_str("task"),
            TaskKind::Todo => String::from_str("todo"),
            TaskKind::Idea => String::from_str("idea"),
        }
    }

    /// Reads an already lower-cased word; the error repeats `given`.
    pub fn from_lowercase(lower: &str, given: &str) -> (r: Result<TaskKind, String>)
        ensures
            r matches Ok(k) ==> TaskKind::named(lower@) == Some(k),
            r matches Err(e) ==> TaskKind::named(lower@) is None && e@ == prefixed(
                "Unknown kind: "@,
                given@,
            ),
            r is Ok <==> TaskKind::named(lower@) is Some,
    {
        if str_eq(lower, "task") {
            Ok(TaskKind::Task)
        } else if str_eq(lower, "todo") {
            Ok(TaskKind::Todo)
        } else if str_eq(lower, "idea") {
            Ok(TaskKind::Idea)
        } else {
            Err(prefixed_string("Unknown kind: ", given))
        }
    }

    /// Reads a kind name in any letter case.
    pub fn parse(s: &str) -> (r: Result<TaskKind, String>)
        ensures
            r matches Ok(k) ==> TaskKind::named(lower_of(s@)) == Some(k),
            r is Ok <==> TaskKind::named(lower_of(s@)) is Some,
            r matches Err(e) ==> e@ == prefixed("Unknown kind: "@, s@),
    {
        let lower = to_lower(s);
        TaskKind::from_lowercase(lower.as_str(), s)
    }
}

impl Default for TaskStatus {
    fn default() -> (r: TaskStatus)
        ensures
            r == TaskStatus::Pending,
    {
        TaskStatus::Pending
    }
}

impl Default for Priority {
    fn default() -> (r: Priority)
        ensures
            r == Priority::Medium,
    {
        Priority::Medium
    }
}

impl Default for TaskKind {
    fn default() -> (r: TaskKind)
        ensures
            r == TaskKind::Task,
    {
        TaskKind::Task
    }
}

impl std::str::FromStr for TaskStatus {
    type Err = String;

    fn from_str(s: &str) -> Result<TaskStatus, String> {
        TaskStatus::parse(s)
    }
}

impl std::str::FromStr for Priority {
    type Err = String;

    fn from_str(s: &str) -> Result<Priority, String> {
        Priority::parse(s)
    }
}

impl std::str::FromStr for TaskKind {
    type Err = String;

    fn from_str(s: &str) -> Result<TaskKind, String> {
        TaskKind::parse(s)
    }
}

/// A calendar date, without a time of day.
#[derive(Debug, Clone, Copy, PartialEq, Eq, Structural)]
pub struct Date {
    pub year: i32,
    pub month: u32,
    pub day: u32,
}

impl Date {
    /// Calendar order: strictly earlier.
    pub open spec fn before(self, other: Date) -> bool {
        self.year < other.year || (self.year == other.year && (self.month < other.month || (
        self.month == other.month && self.day < other.day)))
    }

    pub fn is_before(&self, other: &Date) -> (r: bool)
        ensures
            r == self.before(*other),
    {
        self.year < other.year || (self.year == other.year && (self.month < other.month || (
        self.month == other.month && self.day < other.day)))
    }
}

/// An instant in UTC: whole seconds since the Unix epoch and the nanoseconds
/// past that second.
#[derive(Debug, Clone, Copy, PartialEq, Eq, Structural)]
pub struct Timestamp {
    pub seconds: i64,
    pub nanos: u32,
}

/// Relies on `chrono::Utc::now`: the current instant, read as its Unix
/// seconds and sub-second nanoseconds.
#[verifier::external_body]
fn now_utc() -> (r: Timestamp) {
    let now = chrono::Utc::now();
    Timestamp { seconds: now.timestamp(), nanos: now.timestamp_subsec_nanos() }
}

/// Relies on `chrono::Utc::now` and `DateTime::date_naive`: today's date in
/// UTC, whose month lies in 1..=12 and day in 1..=31.
#[verifier::external_body]
pub(crate) fn today_utc() -> (r: Date)
    ensures
        1 <= r.month <= 12,
        1 <= r.day <= 31,
{
    let d = chrono::Utc::now().date_naive();
    Date { year: d.year(), month: d.month(), day: d.day() }
}

/// A task with all its metadata and its free-text description.
#[derive(Debug, Clone, PartialEq, Eq)]
pub struct Task {
    pub id: u64,
    pub title: String,
    pub status: TaskStatus,
    pub priority: Priority,
    pub kind: TaskKind,
    pub tags: Vec<String>,
    pub due: Option<Date>,
    pub created: Timestamp,
    pub updated: Timestamp,
    pub closed_commit: Option<String>,
    pub description: String,
}

/// The value of a task: its fields with text read as characters.
pub struct TaskView {
    pub id: u64,
    pub title: Seq<char>,
    pub status: TaskStatus,
    pub priority: Priority,
    pub kind: TaskKind,
    pub tags: Seq<Seq<char>>,
    pub due: Option<Date>,
    pub created: Timestamp,
    pub updated: Timestamp,
    pub closed_commit: Option<Seq<char>>,
    pub description: Seq<char>,
}

/// The characters of an optional string.
pub open spec fn opt_text(o: Option<String>) -> Option<Seq<char>> {
    match o {
        Some(s) => Some(s@),
        None => None,
    }
}

impl View for Task {
    type V = TaskView;

    open spec fn view(&self) -> TaskView {
        TaskView {
            id: self.id,
            title: self.title@,
            status: self.status,
            priority: self.priority,
            kind: self.kind,
            tags: texts(self.tags@),
            due: self.due,
            created: self.created,
            updated: self.updated,
            closed_commit: opt_text(self.closed_commit),
            description: self.description@,
        }
    }
}

/// What `slug::slugify` yields for a title.
pub uninterp spec fn slug_of(title: Seq<char>) -> Seq<char>;

/// Relies on `slug::slugify`: the title transliterated to ASCII, lower-cased,
/// with each run of other characters turned into one hyphen.
#[verifier::external_body]
fn slugify(title: &str) -> (r: String)
    ensures
        r@ == slug_of(title@),
{
    slug::slugify(title)
}

impl TaskView {
    /// Open tasks are those still pending or in progress.
    pub open spec fn is_open(self) -> bool {
        self.status == TaskStatus::Pending || self.status == TaskStatus::InProgress
    }

    /// The name of the file that holds the task.
    pub open spec fn file_name(self) -> Seq<char> {
        task_file_name(slug_of(self.title), self.id)
    }
}

impl Task {
    /// A fresh task: pending, medium priority, no tags, no due date, no
    /// description, created and updated now.
    pub fn new(id: u64, kind: TaskKind, title: String) -> (r: Task)
        ensures
            r@.id == id,
            r@.title == title@,
            r@.kind == kind,
            r@.status == TaskStatus::Pending,
            r@.priority == Priority::Medium,
            r@.tags.len() == 0,
            r@.due is None,
            r@.closed_commit is None,
            r@.description.len() == 0,
            r@.created == r@.updated,
    {
        let now = now_utc();
        Task {
            id,
            title,
            status: TaskStatus::Pending,
            priority: Priority::Medium,
            kind,
            tags: Vec::new(),
            due: None,
            created: now,
            updated: now,
            closed_commit: None,
            description: String::new(),
        }
    }

    /// A copy with equal value.
    pub fn duplicate(&self) -> (r: Task)
        ensures
            r@ == self@,
    {
        Task {
            id: self.id,
            title: self.title.clone(),
            status: self.status,
            priority: self.priority,
            kind: self.kind,
            tags: copy_strings(&self.tags),
            due: self.due,
            created: self.created,
            updated: self.updated,
            closed_commit: copy_opt_string(&self.closed_commit),
            description: self.description.clone(),
        }
    }

    /// The title as a file-name slug.
    pub fn slug(&self) -> (r: String)
        ensures
            r@ == slug_of(self.title@),
    {
        slugify(self.title.as_str())
    }

    /// `{slug}-{id}.md`, the id written with at least three digits.
    pub fn filename(&self) -> (r: String)
        ensures
            r@ == self@.file_name(),
    {
        let s = self.slug();
        file_name_for(s.as_str(), self.id)
    }

    pub fn is_open(&self) -> (r: bool)
        ensures
            r == self@.is_open(),
    {
        match self.status {
            TaskStatus::Pending | TaskStatus::InProgress => true,
            _ => false,
        }
    }

    /// Marks the task completed, recording the commit it was closed at.
    pub fn complete(&mut self, commit: Option<String>)
        ensures
            final(self)@ == (TaskView {
                status: TaskStatus::Completed,
                closed_commit: opt_text(commit),
                updated: final(self)@.updated,
                ..old(self)@
            }),
    {
        self.status = TaskStatus::Completed;
        self.closed_commit = commit;
        self.updated = now_utc();
    }

    /// Sets the updated time to now.
    pub fn touch(&mut self)
        ensures
            final(self)@ == (TaskView { updated: final(self)@.updated, ..old(self)@ }),
    {
        self.updated = now_utc();
    }
}

} // verus!
