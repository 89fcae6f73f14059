//! Builds a release changelog from the pull requests merged between two
//! points of a repository's history: per-entry metadata extraction, stable
//! ordering by category, and rendering of the final markdown document.

pub mod entry;
pub mod order;
pub mod render;
pub mod scan;
pub mod text;

pub use entry::{
    entry_from_pull_request, get_changelog_info, ChangelogError, ChangelogInfo, PullRequest,
};
pub use order::{get_changelogs, sort_by_category};
pub use render::generate_changelog;
pub use text::capitalize;
