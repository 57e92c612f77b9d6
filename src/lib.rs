//! Task records kept as Markdown files with a metadata block, stored per
//! project (at a version-control root) or in a user-global directory, with a
//! registry of projects for listings across all of them.

pub mod aggregate;
pub mod file_store;
pub mod frontmatter;
pub mod id_generator;
pub mod location;
pub mod registry;
pub mod sort;
pub mod task;
pub mod text;

pub use aggregate::{list_aggregated, resolve_qualified_id, AggregatedTask, QualifiedTarget};
pub use file_store::{FileStore, TaskFilter, TaskStats};
pub use location::TaskLocation;
pub use registry::{ProjectRegistry, ProjectStatus};
pub use task::{Priority, Task, TaskKind, TaskStatus};
