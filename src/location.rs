//! Where tasks are stored: a project root found by its version-control
//! marker, or the user's home directory.
use vstd::prelude::*;
use crate::id_generator::{last_index, lemma_last_index_at, lemma_last_index_none};
use crate::text::push_char;

verus! {

/// Errors of finding a task location.
#[derive(Debug)]
pub enum TaskLocationError {
    NotInGitRepo,
    DirectoryNotFound(String),
    NoHomeDirectory,
    Io(String),
}

/// A root directory, its `.tasks` directory, and whether it is the
/// user-global location.
#[derive(Debug)]
pub struct TaskLocation {
    pub root: String,
    pub tasks_dir: String,
    pub is_global: bool,
}

/// The name of the directory that holds the task files.
pub open spec fn tasks_dir_name() -> Seq<char> {
    seq!['.', 't', 'a', 's', 'k', 's']
}

/// `dir` joined with a relative `name`: a separator goes between them unless
/// `dir` is empty or already ends with one.
pub open spec fn join_path(dir: Seq<char>, name: Seq<char>) -> Seq<char> {
    if dir.len() == 0 || dir.last() == '/' {
        dir + name
    } else {
        dir + seq!['/'] + name
    }
}

/// The parent of a path in normal form (no trailing separator): the part
/// before its last separator; `/` for a top-level entry; the empty path for a
/// single relative component; none for `/` and for the empty path.
pub open spec fn parent_dir(p: Seq<char>) -> Option<Seq<char>> {
    let k = last_index(p, '/');
    if p.len() == 0 || p == seq!['/'] {
        None
    } else if k < 0 {
        Some(Seq::<char>::empty())
    } else if k == 0 {
        Some(seq!['/'])
    } else {
        Some(p.subrange(0, k))
    }
}

/// The location of a project whose root is `root`.
pub open spec fn project_location(root: Seq<char>) -> (Seq<char>, Seq<char>, bool) {
    (root, join_path(root, tasks_dir_name()), false)
}

/// The global location under the home directory `home`.
pub open spec fn global_location(home: Seq<char>) -> (Seq<char>, Seq<char>, bool) {
    (home, join_path(home, tasks_dir_name()), true)
}

/// Builds `dir` joined with `name`.
pub fn join(dir: &str, name: &str) -> (r: String)
    ensures
        r@ == join_path(dir@, name@),
{
    let n = dir.unicode_len();
    let mut r = String::from_str(dir);
    if n > 0 && dir.get_char(n - 1) != '/' {
        push_char(&mut r, '/');
    }
    r.append(name);
    r
}

/// The parent directory, as `parent_dir` defines it; it is always shorter.
pub fn parent(p: &str) -> (r: Option<String>)
    ensures
        r matches Some(q) ==> q@.len() < p@.len(),
        opt_view(r) == parent_dir(p@),
{
    let n = p.unicode_len();
    if n == 0 || (n == 1 && p.get_char(0) == '/') {
        proof {
            if n == 1 {
                assert(p@ =~= seq!['/']);
            }
        }
        return None;
    }
    proof {
        assert(p@ != seq!['/']);
    }
    let mut i: usize = n;
    while i > 0
        invariant
            i <= n == p@.len(),
            n > 0,
            !(n == 1 && p@[0] == '/'),
            forall|j: int| i <= j < n ==> p@[j] != '/',
        decreases i,
    {
        if p.get_char(i - 1) == '/' {
            proof {
                lemma_last_index_at(p@, '/', i - 1);
            }
            if i - 1 == 0 {
                assert(p@ != seq!['/']);
                let mut r = String::new();
                push_char(&mut r, '/');
                assert(r@ =~= seq!['/']);
                return Some(r);
            }
            let q = p.substring_char(0, i - 1);
            return Some(String::from_str(q));
        }
        i = i - 1;
    }
    proof {
        lemma_last_index_none(p@, '/');
    }
    Some(String::new())
}

/// The view of an optional string.
pub open spec fn opt_view(o: Option<String>) -> Option<Seq<char>> {
    match o {
        Some(s) => Some(s@),
        None => None,
    }
}

/// The directories from `start` upwards: `start`, its parent, and so on up
/// to the last one that has no parent.
pub fn ancestors(start: &str) -> (r: Vec<String>)
    ensures
        r@.len() >= 1,
        r@[0]@ == start@,
        forall|i: int| 0 <= i < r@.len() - 1 ==> parent_dir(#[trigger] r@[i]@) == Some(r@[i + 1]@),
        parent_dir(r@.last()@) is None,
{
    let mut r: Vec<String> = Vec::new();
    let mut cur = String::from_str(start);
    loop
        invariant
            r@.len() == 0 ==> cur@ == start@,
            r@.len() > 0 ==> r@[0]@ == start@,
            r@.len() > 0 ==> parent_dir(r@.last()@) == Some(cur@),
            forall|i: int| 0 <= i < r@.len() - 1 ==> parent_dir(#[trigger] r@[i]@) == Some(
                r@[i + 1]@,
            ),
        decreases cur@.len(),
    {
        let next = parent(cur.as_str());
        let ghost prev = r@;
        let ghost c = cur@;
        r.push(cur);
        match next {
            Some(q) => {
                cur = q;
            },
            None => {
                assert(r@.last()@ == c);
                return r;
            },
        }
        assert(r@.last()@ == c);
        assert forall|i: int| 0 <= i < r@.len() - 1 implies parent_dir(#[trigger] r@[i]@) == Some(
            r@[i + 1]@,
        ) by {
            if i < prev.len() - 1 {
                assert(r@[i] == prev[i] && r@[i + 1] == prev[i + 1]);
            } else {
                assert(r@[i] == prev.last());
            }
        }
    }
}

/// Relies on `dirs::home_dir`: the user's home directory when the platform
/// reports one, read as text (lossily where it is not UTF-8).
#[verifier::external_body]
pub(crate) fn home_dir() -> (r: Option<String>) {
    match dirs::home_dir() {
        Some(p) => Some(p.to_string_lossy().into_owned()),
        None => None,
    }
}

impl TaskLocation {
    /// The triple of root, tasks directory and global flag.
    pub open spec fn parts(&self) -> (Seq<char>, Seq<char>, bool) {
        (self.root@, self.tasks_dir@, self.is_global)
    }

    /// The project location rooted at `root`.
    pub fn project_at(root: &str) -> (r: TaskLocation)
        ensures
            r.parts() == project_location(root@),
    {
        proof {
            reveal_strlit(".tasks");
        }
        let tasks_dir = join(root, ".tasks");
        TaskLocation { root: String::from_str(root), tasks_dir, is_global: false }
    }

    /// The project location of the first directory, going up from a start
    /// directory, that holds the version-control marker. `chain` is that
    /// start and its ancestors in order (see `ancestors`) and `marked[i]`
    /// says whether `chain[i]` holds the marker.
    pub fn find_project_from(chain: &Vec<String>, marked: &Vec<bool>) -> (r: Result<
        TaskLocation,
        TaskLocationError,
    >)
        requires
            chain@.len() == marked@.len(),
        ensures
            r matches Ok(loc) ==> exists|i: int|
                0 <= i < chain@.len() && marked@[i] && (forall|j: int|
                    0 <= j < i ==> !marked@[j]) && loc.parts() == project_location(
                    #[trigger] chain@[i]@,
                ),
            r is Err <==> (forall|j: int| 0 <= j < marked@.len() ==> !marked@[j]),
            r matches Err(e) ==> e is NotInGitRepo,
    {
        let mut i: usize = 0;
        while i < chain.len()
            invariant
                i <= chain@.len() == marked@.len(),
                forall|j: int| 0 <= j < i ==> !marked@[j],
            decreases chain.len() - i,
        {
            if marked[i] {
                let loc = TaskLocation::project_at(chain[i].as_str());
                assert(loc.parts() == project_location(chain@[i as int]@));
                return Ok(loc);
            }
            i = i + 1;
        }
        Err(TaskLocationError::NotInGitRepo)
    }

    /// The global location for a home directory, if one is known.
    pub fn global_at(home: Option<String>) -> (r: Result<TaskLocation, TaskLocationError>)
        ensures
            home is None <==> r is Err,
            r matches Err(e) ==> e is NoHomeDirectory,
            r matches Ok(loc) ==> home matches Some(h) && loc.parts() == global_location(h@),
    {
        match home {
            None => Err(TaskLocationError::NoHomeDirectory),
            Some(h) => {
                proof {
                    reveal_strlit(".tasks");
                }
                let tasks_dir = join(h.as_str(), ".tasks");
                Ok(TaskLocation { root: h, tasks_dir, is_global: true })
            },
        }
    }

    /// The global location `~/.tasks`; fails when no home directory is known.
    pub fn global() -> (r: Result<TaskLocation, TaskLocationError>)
        ensures
            r matches Ok(loc) ==> loc.is_global && loc.tasks_dir@ == join_path(
                loc.root@,
                tasks_dir_name(),
            ),
            r matches Err(e) ==> e is NoHomeDirectory,
    {
        TaskLocation::global_at(home_dir())
    }

    /// A copy of this location.
    pub fn duplicate(&self) -> (r: TaskLocation)
        ensures
            r.parts() == self.parts(),
    {
        TaskLocation {
            root: self.root.clone(),
            tasks_dir: self.tasks_dir.clone(),
            is_global: self.is_global,
        }
    }
}

impl Clone for TaskLocation {
    fn clone(&self) -> (r: TaskLocation)
        ensures
            r.parts() == self.parts(),
    {
        self.duplicate()
    }
}

} // verus!
