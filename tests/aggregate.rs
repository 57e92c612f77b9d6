use gittask::aggregate::{
    list_aggregated, resolve_qualified_id, AggregatedTask, ProjectListing, QualifiedTarget,
    ResolveError,
};
use gittask::file_store::{DirEntry, DirListing, TaskFilter};
use gittask::location::TaskLocation;
use gittask::registry::ProjectRegistry;
use gittask::task::{Task, TaskKind, TaskStatus};

fn record(id: u64, title: &str) -> DirEntry {
    let mut t = Task::new(id, TaskKind::Task, title.to_string());
    t.id = id;
    DirEntry { name: t.filename(), task: Some(t) }
}

fn project(path: &str, entries: Vec<DirEntry>) -> ProjectListing {
    ProjectListing {
        path: path.to_string(),
        location: TaskLocation::project_at(path),
        listing: DirListing { exists: true, entries },
    }
}

#[test]
fn aggregated_listing_is_ordered_by_project_then_id() {
    let mut archived = record(3, "old");
    if let Some(t) = archived.task.as_mut() {
        t.status = TaskStatus::Archived;
    }
    let listings = vec![
        project("/w/zeta", vec![record(2, "z2"), record(1, "z1")]),
        project("/w/alpha", vec![record(5, "a5"), archived, record(4, "a4")]),
    ];
    let r: Vec<AggregatedTask> = list_aggregated(listings, &TaskFilter::default());
    let ids: Vec<String> = r.iter().map(|a| a.qualified_id()).collect();
    assert_eq!(ids, vec!["alpha:4", "alpha:5", "zeta:1", "zeta:2"]);
    assert_eq!(r[0].project_path, "/w/alpha");
}

#[test]
fn aggregated_listing_of_nothing() {
    assert!(list_aggregated(Vec::new(), &TaskFilter::default()).is_empty());
}

fn registry() -> ProjectRegistry {
    let mut r = ProjectRegistry::new("/home/u/.tasks/.projects".to_string());
    r.link("/src/gittask".to_string());
    r.link("/src/other".to_string());
    r
}

#[test]
fn qualified_id_resolves_through_the_registry() {
    let default = TaskLocation::project_at("/here");
    let (target, id) = resolve_qualified_id("gittask:7", &registry(), Some(&default)).unwrap();
    assert_eq!(id, 7);
    assert!(matches!(target, QualifiedTarget::Project(p) if p == "/src/gittask"));
}

#[test]
fn bare_id_uses_the_default_location() {
    let default = TaskLocation::project_at("/here");
    let (target, id) = resolve_qualified_id("7", &registry(), Some(&default)).unwrap();
    assert_eq!(id, 7);
    assert!(matches!(target, QualifiedTarget::Local(l) if l.root == "/here"));
}

#[test]
fn unknown_project_is_reported() {
    let default = TaskLocation::project_at("/here");
    let r = resolve_qualified_id("nope:7", &registry(), Some(&default));
    assert!(matches!(&r, Err(ResolveError::ProjectNotFound(p)) if p == "nope"));
    assert_eq!(r.unwrap_err().message(), "Project not found: nope");
}

#[test]
fn invalid_ids_and_missing_default() {
    let r = resolve_qualified_id("gittask:x", &registry(), None);
    assert!(matches!(r, Err(ResolveError::InvalidId(s)) if s == "x"));
    let r = resolve_qualified_id("seven", &registry(), None);
    assert!(matches!(r, Err(ResolveError::InvalidId(s)) if s == "seven"));
    let r = resolve_qualified_id("7", &registry(), None);
    assert!(matches!(r, Err(ResolveError::NoDefaultLocation)));
    let r = resolve_qualified_id("o:1:2", &registry(), None);
    assert!(matches!(r, Err(ResolveError::InvalidId(s)) if s == "1:2"));
}
