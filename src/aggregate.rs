//! Listings across registered projects and identifiers qualified by a
//! project name.
use vstd::prelude::*;
use crate::file_store::{listed, DirListing, FileStore, TaskFilter};
use crate::id_generator::{dec, parse_u64_text, parse_u64, render_u64};
use crate::location::TaskLocation;
use crate::registry::{project_name, project_name_of, ProjectRegistry};
use crate::sort::{sort_by_key_order, KeyOrder};
use crate::task::{Task, TaskView};
use crate::text::{
    find_first, first_index, lemma_text_le_antisym, lemma_text_le_total, lemma_text_le_trans,
    push_char, text_le, text_le_exec,
};

verus! {

/// A task with the project it belongs to.
#[derive(Debug)]
pub struct AggregatedTask {
    pub task: Task,
    /// The project's directory name.
    pub project: String,
    /// The project's root directory.
    pub project_path: String,
}

/// The value of an aggregated task.
pub struct AggregatedView {
    pub task: TaskView,
    pub project: Seq<char>,
    pub project_path: Seq<char>,
}

impl View for AggregatedTask {
    type V = AggregatedView;

    open spec fn view(&self) -> AggregatedView {
        AggregatedView { task: self.task@, project: self.project@, project_path: self.project_path@ }
    }
}

impl AggregatedTask {
    /// `project:id`.
    pub fn qualified_id(&self) -> (r: String)
        ensures
            r@ == self.project@ + seq![':'] + dec(self.task.id as nat),
    {
        let mut r = self.project.clone();
        push_char(&mut r, ':');
        let digits = render_u64(self.task.id);
        r.append(digits.as_str());
        r
    }
}

/// What the caller found for one registered project that exists: its
/// registered path, its resolved location, and its task directory.
#[derive(Debug)]
pub struct ProjectListing {
    pub path: String,
    pub location: TaskLocation,
    pub listing: DirListing,
}

/// The listed tasks of a listing; none for an absent directory.
pub open spec fn present_listed(listing: DirListing, f: TaskFilter) -> Seq<Task> {
    if listing.exists {
        listed(listing.entries@, f)
    } else {
        Seq::empty()
    }
}

/// Tasks tagged with a project name and root.
pub open spec fn tagged(tasks: Seq<Task>, name: Seq<char>, root: Seq<char>) -> Seq<AggregatedView> {
    tasks.map_values(tag_with(name, root))
}

/// Tags one task with a project name and root.
pub open spec fn tag_with(name: Seq<char>, root: Seq<char>) -> spec_fn(Task) -> AggregatedView {
    |t: Task| AggregatedView { task: t@, project: name, project_path: root }
}

/// Every project's listed tasks, tagged with its name and root.
pub open spec fn aggregated(ls: Seq<ProjectListing>, f: TaskFilter) -> Seq<AggregatedView>
    decreases ls.len(),
{
    if ls.len() == 0 {
        Seq::empty()
    } else {
        let p = ls.last();
        aggregated(ls.drop_last(), f) + tagged(
            present_listed(p.listing, f),
            project_name(p.path@),
            p.location.root@,
        )
    }
}

pub open spec fn agg_views(s: Seq<AggregatedTask>) -> Seq<AggregatedView> {
    s.map_values(agg_view_fn())
}

pub open spec fn agg_view_fn() -> spec_fn(AggregatedTask) -> AggregatedView {
    |a: AggregatedTask| a@
}

/// Order by project name, then by identifier.
pub open spec fn agg_le(a: AggregatedView, b: AggregatedView) -> bool {
    (text_le(a.project, b.project) && a.project != b.project) || (a.project == b.project
        && a.task.id <= b.task.id)
}

impl KeyOrder for AggregatedTask {
    open spec fn key_le(&self, other: &AggregatedTask) -> bool {
        agg_le(self@, other@)
    }

    proof fn lemma_key_le_total(a: &AggregatedTask, b: &AggregatedTask) {
        lemma_text_le_total(a.project@, b.project@);
    }

    proof fn lemma_key_le_trans(a: &AggregatedTask, b: &AggregatedTask, c: &AggregatedTask) {
        let (x, y, z) = (a.project@, b.project@, c.project@);
        if x != y && y != z {
            lemma_text_le_trans(x, y, z);
            if x == z {
                lemma_text_le_antisym(x, y);
            }
        }
    }

    fn le(&self, other: &AggregatedTask) -> (r: bool) {
        if self.project == other.project {
            self.task.id <= other.task.id
        } else {
            text_le_exec(self.project.as_str(), other.project.as_str())
        }
    }
}

/// Sequences with equal multisets keep equal multisets under a map.
proof fn lemma_map_multiset<A, B>(s1: Seq<A>, s2: Seq<A>, f: spec_fn(A) -> B)
    requires
        s1.to_multiset() == s2.to_multiset(),
    ensures
        s1.map_values(f).to_multiset() == s2.map_values(f).to_multiset(),
    decreases s1.len(),
{
    broadcast use vstd::seq_lib::group_to_multiset_ensures;

    vstd::seq_lib::to_multiset_len(s1);
    vstd::seq_lib::to_multiset_len(s2);
    if s1.len() == 0 {
        assert(s2.len() == 0);
        assert(s1.map_values(f) =~= s2.map_values(f));
    } else {
        let x = s1.last();
        assert(s1 =~= s1.drop_last().push(x));
        vstd::seq_lib::to_multiset_build(s1.drop_last(), x);
        assert(s2.to_multiset().count(x) > 0);
        assert(s2.contains(x));
        let j = choose|j: int| 0 <= j < s2.len() && s2[j] == x;
        vstd::seq_lib::to_multiset_remove(s2, j);
        assert(s1.drop_last().to_multiset() =~= s2.remove(j).to_multiset());
        lemma_map_multiset(s1.drop_last(), s2.remove(j), f);
        assert(s1.map_values(f) =~= s1.drop_last().map_values(f).push(f(x)));
        vstd::seq_lib::to_multiset_build(s1.drop_last().map_values(f), f(x));
        let m2 = s2.map_values(f);
        assert(m2.remove(j) =~= s2.remove(j).map_values(f));
        vstd::seq_lib::to_multiset_remove(m2, j);
        assert(m2.to_multiset().count(f(x)) > 0) by {
            assert(m2[j] == f(x));
        }
        assert(m2.to_multiset() =~= m2.remove(j).to_multiset().insert(f(x)));
    }
}

/// The tasks of every listed project that the filter admits, each tagged with
/// its project's directory name and root, ordered by project name and then
/// by identifier. The caller leaves out registered paths that do not exist
/// or are not in a project.
pub fn list_aggregated(listings: Vec<ProjectListing>, filter: &TaskFilter) -> (r: Vec<
    AggregatedTask,
>)
    ensures
        agg_views(r@).to_multiset() == aggregated(listings@, *filter).to_multiset(),
        forall|i: int, j: int|
            0 <= i < j < r@.len() ==> agg_le(#[trigger] r@[i]@, #[trigger] r@[j]@),
{
    broadcast use vstd::seq_lib::group_to_multiset_ensures;

    let ghost orig = listings@;
    let mut rest = listings;
    let mut out: Vec<AggregatedTask> = Vec::new();
    assert(agg_views(out@) =~= Seq::<AggregatedView>::empty());
    while rest.len() > 0
        invariant
            agg_views(out@).to_multiset().add(aggregated(rest@, *filter).to_multiset())
                == aggregated(orig, *filter).to_multiset(),
        decreases rest.len(),
    {
        let ghost before = rest@;
        let p = rest.pop().unwrap();
        assert(before.drop_last() =~= rest@);
        assert(before.last() == p);
        let ghost name_v = project_name(p.path@);
        let ghost root_v = p.location.root@;
        let ghost present = present_listed(p.listing, *filter);
        let ProjectListing { path, location, listing } = p;
        let name = project_name_of(path.as_str());
        let store = FileStore::new(location);
        let root = store.location().root.clone();
        let ghost exists = listing.exists;
        let mut tasks = store.list(listing, filter);
        proof {
            if !exists {
                assert(tasks@ =~= present);
            }
            lemma_map_multiset(tasks@, present, tag_with(name_v, root_v));
            vstd::seq_lib::lemma_multiset_commutative(
                aggregated(rest@, *filter),
                tagged(present, name_v, root_v),
            );
        }
        let ghost out0 = agg_views(out@);
        let ghost tasks0 = tasks@;
        while tasks.len() > 0
            invariant
                name@ == name_v,
                root@ == root_v,
                agg_views(out@).to_multiset().add(tagged(tasks@, name_v, root_v).to_multiset())
                    == out0.to_multiset().add(tagged(tasks0, name_v, root_v).to_multiset()),
            decreases tasks.len(),
        {
            let ghost tb = tasks@;
            let ghost ob = out@;
            let t = tasks.pop().unwrap();
            assert(tb =~= tasks@.push(t));
            let ghost v = AggregatedView { task: t@, project: name_v, project_path: root_v };
            assert(tagged(tb, name_v, root_v) =~= tagged(tasks@, name_v, root_v).push(v));
            out.push(AggregatedTask { task: t, project: name.clone(), project_path: root.clone() });
            assert(agg_views(out@) =~= agg_views(ob).push(v));
            proof {
                vstd::seq_lib::to_multiset_build(tagged(tasks@, name_v, root_v), v);
                vstd::seq_lib::to_multiset_build(agg_views(ob), v);
                assert(agg_views(out@).to_multiset().add(
                    tagged(tasks@, name_v, root_v).to_multiset(),
                ) =~= agg_views(ob).to_multiset().add(tagged(tb, name_v, root_v).to_multiset()));
            }
        }
        proof {
            let e = tagged(tasks@, name_v, root_v);
            vstd::seq_lib::to_multiset_len(e);
            vstd::multiset::lemma_multiset_empty_len(e.to_multiset());
        }
        assert(agg_views(out@).to_multiset() =~= out0.to_multiset().add(
            tagged(tasks0, name_v, root_v).to_multiset(),
        ));
        assert(tagged(tasks0, name_v, root_v).to_multiset() == tagged(
            present,
            name_v,
            root_v,
        ).to_multiset());
        assert(aggregated(before, *filter) == aggregated(rest@, *filter) + tagged(
            present,
            name_v,
            root_v,
        ));
        assert(agg_views(out@).to_multiset().add(aggregated(rest@, *filter).to_multiset())
            =~= out0.to_multiset().add(aggregated(before, *filter).to_multiset()));
    }
    assert(aggregated(rest@, *filter) =~= Seq::<AggregatedView>::empty());
    assert(agg_views(out@).to_multiset().add(Seq::<AggregatedView>::empty().to_multiset())
        =~= agg_views(out@).to_multiset());
    let ghost unsorted = out@;
    let sorted = sort_by_key_order(out);
    proof {
        lemma_map_multiset(sorted@, unsorted, agg_view_fn());
    }
    assert forall|i: int, j: int| 0 <= i < j < sorted@.len() implies agg_le(
        #[trigger] sorted@[i]@,
        #[trigger] sorted@[j]@,
    ) by {
        assert(sorted@[i].key_le(&sorted@[j]));
    }
    sorted
}

/// Errors of resolving a task identifier.
#[derive(Debug)]
pub enum ResolveError {
    /// The identifier part is not an unsigned integer.
    InvalidId(String),
    /// No registered project answers to the name.
    ProjectNotFound(String),
    /// A bare identifier was given and there is no default location.
    NoDefaultLocation,
}

impl ResolveError {
    /// A one-line description.
    pub fn message(&self) -> (r: String)
        ensures
            r@ == match self {
                ResolveError::InvalidId(s) => "Invalid task ID: "@ + s@,
                ResolveError::ProjectNotFound(s) => "Project not found: "@ + s@,
                ResolveError::NoDefaultLocation => "No default location available"@,
            },
    {
        match self {
            ResolveError::InvalidId(s) => {
                let mut r = String::from_str("Invalid task ID: ");
                r.append(s.as_str());
                r
            },
            ResolveError::ProjectNotFound(s) => {
                let mut r = String::from_str("Project not found: ");
                r.append(s.as_str());
                r
            },
            ResolveError::NoDefaultLocation => String::from_str("No default location available"),
        }
    }
}

/// Where a resolved identifier lives.
#[derive(Debug)]
pub enum QualifiedTarget {
    /// In the registered project at this path; its location is found by
    /// walking up from the path to the version-control root.
    Project(String),
    /// In the default location.
    Local(TaskLocation),
}

/// Resolves `project:id` through the registry, or a bare `id` against the
/// default location.
pub fn resolve_qualified_id(
    id_str: &str,
    registry: &ProjectRegistry,
    default_location: Option<&TaskLocation>,
) -> (r: Result<(QualifiedTarget, u64), ResolveError>)
    ensures
        ({
            let s = id_str@;
            let k = first_index(s, ':');
            if k >= 0 {
                let proj = s.subrange(0, k);
                let idp = s.subrange(k + 1, s.len() as int);
                match parse_u64(idp) {
                    None => r matches Err(ResolveError::InvalidId(x)) && x@ == idp,
                    Some(id) => match registry.lookup(proj) {
                        None => r matches Err(ResolveError::ProjectNotFound(x)) && x@ == proj,
                        Some(p) => r matches Ok((QualifiedTarget::Project(q), n)) && q@ == p && n
                            == id,
                    },
                }
            } else {
                match parse_u64(s) {
                    None => r matches Err(ResolveError::InvalidId(x)) && x@ == s,
                    Some(id) => match default_location {
                        None => r matches Err(ResolveError::NoDefaultLocation),
                        Some(loc) => r matches Ok((QualifiedTarget::Local(l), n)) && l.parts()
                            == loc.parts() && n == id,
                    },
                }
            }
        }),
{
    match find_first(id_str, ':') {
        Some(k) => {
            let n = id_str.unicode_len();
            let proj = id_str.substring_char(0, k);
            let idp = id_str.substring_char(k + 1, n);
            match parse_u64_text(idp) {
                None => Err(ResolveError::InvalidId(String::from_str(idp))),
                Some(id) => match registry.find_project(proj) {
                    None => Err(ResolveError::ProjectNotFound(String::from_str(proj))),
                    Some(p) => Ok((QualifiedTarget::Project(p), id)),
                },
            }
        },
        None => match parse_u64_text(id_str) {
            None => Err(ResolveError::InvalidId(String::from_str(id_str))),
            Some(id) => match default_location {
                None => Err(ResolveError::NoDefaultLocation),
                Some(loc) => Ok((QualifiedTarget::Local(loc.duplicate()), id)),
            },
        },
    }
}

} // verus!
