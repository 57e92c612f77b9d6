//! Operations over the task files of one location. The directory is read and
//! written by the caller; these functions decide what is read, kept, named
//! and written.
use vstd::prelude::*;
use crate::frontmatter::FrontmatterError;
use crate::id_generator::{
    entry_id, is_task_file, is_task_file_name, lemma_file_name_id, max_id, task_file_name,
    IdGenerator,
};
use crate::location::{join, join_path, TaskLocation};
use crate::sort::{sort_by_key_order, KeyOrder};
use crate::task::{slug_of, today_utc, Date, Priority, Task, TaskKind, TaskStatus, TaskView};
use crate::text::texts;

verus! {

/// Errors of the file store.
#[derive(Debug)]
pub enum FileStoreError {
    TaskNotFound(u64),
    Frontmatter(FrontmatterError),
    Io(String),
    DirectoryNotInitialized,
    /// No identifier is left above the largest one present.
    IdsExhausted,
}

/// Criteria for listing tasks; unset criteria admit every task.
#[derive(Debug)]
pub struct TaskFilter {
    pub kind: Option<TaskKind>,
    pub status: Option<TaskStatus>,
    pub priority: Option<Priority>,
    pub tags: Vec<String>,
    pub include_archived: bool,
}

impl TaskFilter {
    /// Whether a task meets every criterion: equal kind, status and priority
    /// where set, every listed tag present, and not archived unless archived
    /// tasks are included.
    pub open spec fn admits(&self, t: TaskView) -> bool {
        &&& match self.kind {
            Some(k) => t.kind == k,
            None => true,
        }
        &&& match self.status {
            Some(s) => t.status == s,
            None => true,
        }
        &&& match self.priority {
            Some(p) => t.priority == p,
            None => true,
        }
        &&& forall|i: int| 0 <= i < self.tags@.len() ==> t.tags.contains(#[trigger] self.tags@[i]@)
        &&& (self.include_archived || t.status != TaskStatus::Archived)
    }

    /// No kind, status, priority or tag is asked for.
    pub open spec fn has_no_criteria(&self) -> bool {
        self.kind is None && self.status is None && self.priority is None && self.tags@.len() == 0
    }

    pub fn matches(&self, task: &Task) -> (r: bool)
        ensures
            r == self.admits(task@),
    {
        match self.kind {
            Some(k) => {
                if task.kind != k {
                    return false;
                }
            },
            None => {},
        }
        match self.status {
            Some(s) => {
                if task.status != s {
                    return false;
                }
            },
            None => {},
        }
        match self.priority {
            Some(p) => {
                if task.priority != p {
                    return false;
                }
            },
            None => {},
        }
        let mut i: usize = 0;
        while i < self.tags.len()
            invariant
                i <= self.tags@.len(),
                forall|j: int| 0 <= j < i ==> task@.tags.contains(#[trigger] self.tags@[j]@),
            decreases self.tags.len() - i,
        {
            if !contains_text(&task.tags, &self.tags[i]) {
                return false;
            }
            i = i + 1;
        }
        if !self.include_archived && task.status == TaskStatus::Archived {
            return false;
        }
        true
    }
}

impl Default for TaskFilter {
    fn default() -> (r: TaskFilter)
        ensures
            r.has_no_criteria(),
            !r.include_archived,
    {
        TaskFilter {
            kind: None,
            status: None,
            priority: None,
            tags: Vec::new(),
            include_archived: false,
        }
    }
}

/// Whether `s` is one of the strings of `v`.
fn contains_text(v: &Vec<String>, s: &String) -> (r: bool)
    ensures
        r == texts(v@).contains(s@),
{
    let mut i: usize = 0;
    while i < v.len()
        invariant
            i <= v@.len(),
            forall|j: int| 0 <= j < i ==> v@[j]@ != s@,
        decreases v.len() - i,
    {
        if v[i] == *s {
            assert(texts(v@)[i as int] == s@);
            return true;
        }
        i = i + 1;
    }
    assert forall|j: int| 0 <= j < texts(v@).len() implies texts(v@)[j] != s@ by {
        assert(texts(v@)[j] == v@[j]@);
    }
    false
}

/// One entry of the task directory: its file name and, for a record file that
/// could be read and parsed, the task it holds.
#[derive(Debug)]
pub struct DirEntry {
    pub name: String,
    pub task: Option<Task>,
}

/// What the caller read of the task directory.
#[derive(Debug)]
pub struct DirListing {
    pub exists: bool,
    pub entries: Vec<DirEntry>,
}

/// The task an entry contributes: only `.md` files count.
pub open spec fn record_of(e: DirEntry) -> Option<Task> {
    if is_task_file(e.name@) {
        e.task
    } else {
        None
    }
}

/// The tasks of all record files, in directory order.
pub open spec fn all_records(entries: Seq<DirEntry>) -> Seq<Task>
    decreases entries.len(),
{
    if entries.len() == 0 {
        Seq::empty()
    } else {
        let rest = all_records(entries.drop_last());
        match record_of(entries.last()) {
            Some(t) => rest.push(t),
            None => rest,
        }
    }
}

/// The tasks of all record files of a listing; none for an absent directory.
pub open spec fn present_records(listing: DirListing) -> Seq<Task> {
    if listing.exists {
        all_records(listing.entries@)
    } else {
        Seq::empty()
    }
}

/// The tasks that a filter admits.
pub open spec fn listed(entries: Seq<DirEntry>, f: TaskFilter) -> Seq<Task> {
    all_records(entries).filter(|t: Task| f.admits(t@))
}

/// Some file name carries the identifier.
pub open spec fn has_id(names: Seq<Seq<char>>, id: u64) -> bool {
    exists|i: int| 0 <= i < names.len() && entry_id(#[trigger] names[i]) == Some(id)
}

/// `i` is the first file name that carries the identifier.
pub open spec fn first_with_id(names: Seq<Seq<char>>, id: u64, i: int) -> bool {
    &&& 0 <= i < names.len()
    &&& entry_id(names[i]) == Some(id)
    &&& forall|j: int| 0 <= j < i ==> entry_id(#[trigger] names[j]) != Some(id)
}

/// How many tasks satisfy a predicate.
pub open spec fn count_where(s: Seq<Task>, p: spec_fn(TaskView) -> bool) -> nat
    decreases s.len(),
{
    if s.len() == 0 {
        0
    } else {
        count_where(s.drop_last(), p) + if p(s.last()@) {
            1nat
        } else {
            0nat
        }
    }
}

pub open spec fn status_is(st: TaskStatus) -> spec_fn(TaskView) -> bool {
    |t: TaskView| t.status == st
}

pub open spec fn kind_is(k: TaskKind) -> spec_fn(TaskView) -> bool {
    |t: TaskView| t.kind == k
}

/// Open and due strictly before `today`.
pub open spec fn overdue_on(today: Date) -> spec_fn(TaskView) -> bool {
    |t: TaskView|
        t.is_open() && match t.due {
            Some(d) => d.before(today),
            None => false,
        }
}

/// Counts over the tasks of a location.
#[derive(Debug, Clone, Copy, PartialEq, Eq, Structural)]
pub struct TaskStats {
    pub total: usize,
    pub pending: usize,
    pub in_progress: usize,
    pub completed: usize,
    pub archived: usize,
    pub overdue: usize,
    pub tasks: usize,
    pub todos: usize,
    pub ideas: usize,
}

impl TaskStats {
    /// The counts over `all`, with `today` deciding what is overdue.
    pub open spec fn tallies(self, all: Seq<Task>, today: Date) -> bool {
        &&& self.total == all.len()
        &&& self.pending == count_where(all, status_is(TaskStatus::Pending))
        &&& self.in_progress == count_where(all, status_is(TaskStatus::InProgress))
        &&& self.completed == count_where(all, status_is(TaskStatus::Completed))
        &&& self.archived == count_where(all, status_is(TaskStatus::Archived))
        &&& self.overdue == count_where(all, overdue_on(today))
        &&& self.tasks == count_where(all, kind_is(TaskKind::Task))
        &&& self.todos == count_where(all, kind_is(TaskKind::Todo))
        &&& self.ideas == count_where(all, kind_is(TaskKind::Idea))
    }
}

/// What an update writes: the file now holding the task, the file it is
/// written to, and whether the old one goes (its name changed with the title).
#[derive(Debug)]
pub struct UpdatePlan {
    pub old_path: String,
    pub new_path: String,
    pub remove_old: bool,
}

impl KeyOrder for Task {
    open spec fn key_le(&self, other: &Task) -> bool {
        self.id <= other.id
    }

    proof fn lemma_key_le_total(a: &Task, b: &Task) {
    }

    proof fn lemma_key_le_trans(a: &Task, b: &Task, c: &Task) {
    }

    fn le(&self, other: &Task) -> (r: bool) {
        self.id <= other.id
    }
}

proof fn lemma_all_records_push(s: Seq<DirEntry>, e: DirEntry)
    ensures
        all_records(s.push(e)) == match record_of(e) {
            Some(t) => all_records(s).push(t),
            None => all_records(s),
        },
{
    assert(s.push(e).drop_last() =~= s);
}

proof fn lemma_filter_push(s: Seq<Task>, t: Task, p: spec_fn(Task) -> bool)
    ensures
        s.push(t).filter(p) == if p(t) {
            s.filter(p).push(t)
        } else {
            s.filter(p)
        },
{
    reveal(Seq::filter);
    assert(s.push(t).drop_last() =~= s);
}

proof fn lemma_count_push(s: Seq<Task>, t: Task, p: spec_fn(TaskView) -> bool)
    ensures
        count_where(s.push(t), p) == count_where(s, p) + if p(t@) {
            1nat
        } else {
            0nat
        },
{
    assert(s.push(t).drop_last() =~= s);
}

/// Listing keeps every record file's task that the filter admits, and no other.
pub proof fn lemma_listed_members(entries: Seq<DirEntry>, f: TaskFilter, t: Task)
    ensures
        listed(entries, f).contains(t) <==> (all_records(entries).contains(t) && f.admits(t@)),
{
    let all = all_records(entries);
    let p = |x: Task| f.admits(x@);
    broadcast use vstd::seq_lib::group_filter_ensures;

    if all.contains(t) && f.admits(t@) {
        let i = choose|i: int| 0 <= i < all.len() && all[i] == t;
        all.lemma_filter_contains(p, i);
    }
    if listed(entries, f).contains(t) {
        let fl = all.filter(p);
        let i = choose|i: int| 0 <= i < fl.len() && fl[i] == t;
        all.lemma_filter_pred(p, i);
        all.lemma_filter_contains_rev(p, t);
    }
}

/// Tag filtering is exact: with tags as the only criterion, a task is listed
/// exactly when it is a record of the directory, it carries every tag asked
/// for, and it is not archived unless archived tasks are included.
pub proof fn lemma_tag_filter_exact(entries: Seq<DirEntry>, f: TaskFilter, t: Task)
    requires
        f.kind is None,
        f.status is None,
        f.priority is None,
    ensures
        listed(entries, f).contains(t) <==> (all_records(entries).contains(t) && (forall|i: int|
            0 <= i < f.tags@.len() ==> t@.tags.contains(#[trigger] f.tags@[i]@)) && (
        f.include_archived || t.status != TaskStatus::Archived)),
{
    lemma_listed_members(entries, f, t);
}

/// An archived task is left out by a filter without criteria, and listed by
/// the same filter once archived tasks are included.
pub proof fn lemma_archived_hidden_by_default(
    entries: Seq<DirEntry>,
    hiding: TaskFilter,
    showing: TaskFilter,
    t: Task,
)
    requires
        all_records(entries).contains(t),
        t.status == TaskStatus::Archived,
        hiding.has_no_criteria(),
        !hiding.include_archived,
        showing.has_no_criteria(),
        showing.include_archived,
    ensures
        !listed(entries, hiding).contains(t),
        listed(entries, showing).contains(t),
{
    lemma_listed_members(entries, hiding, t);
    lemma_listed_members(entries, showing, t);
}

/// The file names present after creating one task per slug, in order, in an
/// empty directory: the i-th (from 0) has identifier i + 1.
pub open spec fn created_names(slugs: Seq<Seq<char>>) -> Seq<Seq<char>> {
    Seq::new(slugs.len(), |i: int| task_file_name(slugs[i], (i + 1) as u64))
}

/// Identifiers count up from 1: after k creations in an empty directory the
/// largest identifier present is k, so the next creation is given k + 1.
pub proof fn lemma_sequential_ids(slugs: Seq<Seq<char>>)
    requires
        slugs.len() < u64::MAX,
    ensures
        forall|k: int|
            0 <= k <= slugs.len() ==> #[trigger] max_id(created_names(slugs).subrange(0, k)) == k,
{
    assert forall|k: int| 0 <= k <= slugs.len() implies #[trigger] max_id(
        created_names(slugs).subrange(0, k),
    ) == k by {
        lemma_sequential_prefix(slugs, k);
    }
}

proof fn lemma_sequential_prefix(slugs: Seq<Seq<char>>, k: int)
    requires
        slugs.len() < u64::MAX,
        0 <= k <= slugs.len(),
    ensures
        max_id(created_names(slugs).subrange(0, k)) == k,
    decreases k,
{
    let names = created_names(slugs).subrange(0, k);
    if k > 0 {
        lemma_sequential_prefix(slugs, k - 1);
        assert(names.drop_last() =~= created_names(slugs).subrange(0, k - 1));
        lemma_file_name_id(slugs[k - 1], k as u64);
        assert(names.last() == task_file_name(slugs[k - 1], k as u64));
    }
}

/// A task is found by its identifier whatever its title: once its file is
/// written under the current title, the directory holds a file that carries
/// the identifier, and files written under any two titles carry the same one.
pub proof fn lemma_found_after_retitle(
    names: Seq<Seq<char>>,
    id: u64,
    old_title: Seq<char>,
    new_title: Seq<char>,
)
    ensures
        has_id(names.push(task_file_name(slug_of(new_title), id)), id),
        entry_id(task_file_name(slug_of(old_title), id)) == entry_id(
            task_file_name(slug_of(new_title), id),
        ),
{
    lemma_file_name_id(slug_of(old_title), id);
    lemma_file_name_id(slug_of(new_title), id);
    let all = names.push(task_file_name(slug_of(new_title), id));
    assert(all[names.len() as int] == task_file_name(slug_of(new_title), id));
}

/// File-based task storage over one location.
pub struct FileStore {
    location: TaskLocation,
}

impl FileStore {
    /// The location this store works on.
    pub closed spec fn spec_location(&self) -> (Seq<char>, Seq<char>, bool) {
        self.location.parts()
    }

    /// The directory holding the task files.
    pub closed spec fn dir(&self) -> Seq<char> {
        self.location.tasks_dir@
    }

    pub fn new(location: TaskLocation) -> (r: FileStore)
        ensures
            r.spec_location() == location.parts(),
            r.dir() == location.tasks_dir@,
    {
        FileStore { location }
    }

    pub fn location(&self) -> (r: &TaskLocation)
        ensures
            r.parts() == self.spec_location(),
            r.tasks_dir@ == self.dir(),
    {
        &self.location
    }

    /// The path of the file that holds `task`.
    pub fn task_path(&self, task: &Task) -> (r: String)
        ensures
            r@ == join_path(self.dir(), task@.file_name()),
    {
        let name = task.filename();
        join(self.location.tasks_dir.as_str(), name.as_str())
    }

    /// Gives a new task the next identifier: one more than the largest among
    /// the `.md` files present. The caller then writes it to `task_path`.
    pub fn create(&self, dir_exists: bool, names: &Vec<String>, task: Task) -> (r: Result<
        Task,
        FileStoreError,
    >)
        ensures
            !dir_exists ==> r matches Err(FileStoreError::DirectoryNotInitialized),
            dir_exists && max_id(texts(names@)) < u64::MAX ==> (r matches Ok(t) && t@ == (TaskView {
                id: (max_id(texts(names@)) + 1) as u64,
                ..task@
            })),
            dir_exists && max_id(texts(names@)) == u64::MAX ==> r matches Err(
                FileStoreError::IdsExhausted,
            ),
    {
        if !dir_exists {
            return Err(FileStoreError::DirectoryNotInitialized);
        }
        match IdGenerator::next_id(names) {
            Ok(id) => {
                let mut task = task;
                task.id = id;
                Ok(task)
            },
            Err(_) => Err(FileStoreError::IdsExhausted),
        }
    }

    /// The path of the first `.md` file whose name carries `id`.
    pub fn find_task_file(&self, dir_exists: bool, names: &Vec<String>, id: u64) -> (r: Result<
        String,
        FileStoreError,
    >)
        ensures
            r is Ok <==> dir_exists && has_id(texts(names@), id),
            r matches Err(e) ==> e == FileStoreError::TaskNotFound(id),
            r matches Ok(p) ==> exists|i: int|
                first_with_id(texts(names@), id, i) && p@ == join_path(
                    self.dir(),
                    #[trigger] texts(names@)[i],
                ),
    {
        let ghost all = texts(names@);
        if !dir_exists {
            return Err(FileStoreError::TaskNotFound(id));
        }
        let mut i: usize = 0;
        while i < names.len()
            invariant
                i <= names@.len(),
                dir_exists,
                all == texts(names@),
                forall|j: int| 0 <= j < i ==> entry_id(#[trigger] all[j]) != Some(id),
            decreases names.len() - i,
        {
            let name = names[i].as_str();
            assert(all[i as int] == name@);
            if is_task_file_name(name) {
                match IdGenerator::extract_id_from_filename(name) {
                    Some(found) => {
                        if found == id {
                            let p = join(self.location.tasks_dir.as_str(), name);
                            assert(entry_id(all[i as int]) == Some(id));
                            assert(has_id(all, id));
                            assert(first_with_id(all, id, i as int));
                            return Ok(p);
                        }
                    },
                    None => {},
                }
            }
            i = i + 1;
        }
        Err(FileStoreError::TaskNotFound(id))
    }

    /// Where an update writes: the file currently carrying the task's
    /// identifier (found by identifier, as the title may have changed) and the
    /// file named from the task as it is now.
    pub fn update(&self, dir_exists: bool, names: &Vec<String>, task: &Task) -> (r: Result<
        UpdatePlan,
        FileStoreError,
    >)
        ensures
            r is Ok <==> dir_exists && has_id(texts(names@), task.id),
            r matches Err(e) ==> e == FileStoreError::TaskNotFound(task.id),
            r matches Ok(plan) ==> (exists|i: int|
                first_with_id(texts(names@), task.id, i) && plan.old_path@ == join_path(
                    self.dir(),
                    #[trigger] texts(names@)[i],
                )) && plan.new_path@ == join_path(self.dir(), task@.file_name()) && plan.remove_old
                == (plan.old_path@ != plan.new_path@),
    {
        let old_path = self.find_task_file(dir_exists, names, task.id)?;
        let new_path = self.task_path(task);
        let remove_old = old_path != new_path;
        Ok(UpdatePlan { old_path, new_path, remove_old })
    }

    /// The tasks of the record files that the filter admits, by ascending
    /// identifier; none when the directory is absent.
    pub fn list(&self, listing: DirListing, filter: &TaskFilter) -> (r: Vec<Task>)
        ensures
            !listing.exists ==> r@.len() == 0,
            listing.exists ==> r@.to_multiset() == listed(listing.entries@, *filter).to_multiset(),
            forall|i: int, j: int| 0 <= i < j < r@.len() ==> #[trigger] r@[i].id <= #[trigger] r@[j].id,
    {
        broadcast use vstd::seq_lib::group_to_multiset_ensures;

        if !listing.exists {
            return Vec::new();
        }
        let ghost orig = listing.entries@;
        let mut rest = listing.entries;
        let mut out: Vec<Task> = Vec::new();
        assert(rest@.subrange(0, rest@.len() as int) =~= rest@);
        while rest.len() > 0
            invariant
                out@.to_multiset().add(listed(rest@, *filter).to_multiset()) == listed(
                    orig,
                    *filter,
                ).to_multiset(),
            decreases rest.len(),
        {
            let ghost before = rest@;
            let ghost old_out = out@;
            let e = rest.pop().unwrap();
            assert(before == rest@.push(e));
            proof {
                lemma_all_records_push(rest@, e);
                match record_of(e) {
                    Some(t) => {
                        lemma_filter_push(all_records(rest@), t, |x: Task| filter.admits(x@));
                    },
                    None => {},
                }
            }
            let ghost ge = e;
            let DirEntry { name, task } = e;
            match task {
                Some(t) => {
                    if is_task_file_name(name.as_str()) && filter.matches(&t) {
                        assert(record_of(ge) == Some(t));
                        out.push(t);
                        proof {
                            vstd::seq_lib::to_multiset_build(old_out, t);
                            vstd::seq_lib::to_multiset_build(listed(rest@, *filter), t);
                            assert(out@.to_multiset().add(listed(rest@, *filter).to_multiset())
                                =~= old_out.to_multiset().add(
                                listed(before, *filter).to_multiset(),
                            ));
                        }
                    }
                },
                None => {},
            }
        }
        assert(rest@.len() == 0);
        assert(listed(rest@, *filter) =~= Seq::<Task>::empty()) by {
            reveal(Seq::filter);
        }
        assert(out@.to_multiset().add(Seq::<Task>::empty().to_multiset()) =~= out@.to_multiset());
        let sorted = sort_by_key_order(out);
        assert forall|i: int, j: int| 0 <= i < j < sorted@.len() implies #[trigger] sorted@[i].id
            <= #[trigger] sorted@[j].id by {
            assert(sorted@[i].key_le(&sorted@[j]));
        }
        sorted
    }

    /// Counts over every record file's task, archived ones included, with
    /// `today` deciding what is overdue.
    pub fn stats_on(&self, listing: &DirListing, today: Date) -> (r: TaskStats)
        ensures
            r.tallies(present_records(*listing), today),
    {
        let mut r = TaskStats {
            total: 0,
            pending: 0,
            in_progress: 0,
            completed: 0,
            archived: 0,
            overdue: 0,
            tasks: 0,
            todos: 0,
            ideas: 0,
        };
        if !listing.exists {
            return r;
        }
        let entries = &listing.entries;
        let mut i: usize = 0;
        while i < entries.len()
            invariant
                i <= entries@.len(),
                r.tallies(all_records(entries@.subrange(0, i as int)), today),
                r.total <= i,
                r.pending <= i,
                r.in_progress <= i,
                r.completed <= i,
                r.archived <= i,
                r.overdue <= i,
                r.tasks <= i,
                r.todos <= i,
                r.ideas <= i,
            decreases entries.len() - i,
        {
            let ghost prefix = entries@.subrange(0, i as int);
            let e = &entries[i];
            assert(entries@.subrange(0, i + 1) =~= prefix.push(*e));
            proof {
                lemma_all_records_push(prefix, *e);
            }
            match &e.task {
                Some(t) => {
                    if is_task_file_name(e.name.as_str()) {
                        proof {
                            let all = all_records(prefix);
                            lemma_count_push(all, *t, status_is(TaskStatus::Pending));
                            lemma_count_push(all, *t, status_is(TaskStatus::InProgress));
                            lemma_count_push(all, *t, status_is(TaskStatus::Completed));
                            lemma_count_push(all, *t, status_is(TaskStatus::Archived));
                            lemma_count_push(all, *t, overdue_on(today));
                            lemma_count_push(all, *t, kind_is(TaskKind::Task));
                            lemma_count_push(all, *t, kind_is(TaskKind::Todo));
                            lemma_count_push(all, *t, kind_is(TaskKind::Idea));
                        }
                        r.total = r.total + 1;
                        match t.status {
                            TaskStatus::Pending => r.pending = r.pending + 1,
                            TaskStatus::InProgress => r.in_progress = r.in_progress + 1,
                            TaskStatus::Completed => r.completed = r.completed + 1,
                            TaskStatus::Archived => r.archived = r.archived + 1,
                        }
                        match t.kind {
                            TaskKind::Task => r.tasks = r.tasks + 1,
                            TaskKind::Todo => r.todos = r.todos + 1,
                            TaskKind::Idea => r.ideas = r.ideas + 1,
                        }
                        if t.is_open() {
                            match &t.due {
                                Some(d) => {
                                    if d.is_before(&today) {
                                        r.overdue = r.overdue + 1;
                                    }
                                },
                                None => {},
                            }
                        }
                    }
                },
                None => {},
            }
            i = i + 1;
        }
        assert(entries@.subrange(0, entries@.len() as int) =~= entries@);
        r
    }

    /// Counts over every record file's task, archived ones included; what is
    /// overdue is judged against today's date in UTC.
    pub fn stats(&self, listing: &DirListing) -> (r: TaskStats)
        ensures
            exists|today: Date|
                #[trigger] r.tallies(present_records(*listing), today),
    {
        let today = today_utc();
        self.stats_on(listing, today)
    }
}

} // verus!
