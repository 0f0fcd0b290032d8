//! Parsing and decision logic for auditing dependency upgrades: a lockfile
//! parser, a unified-diff patch parser, and the rule that picks which two
//! release commits of a package to compare.
pub mod diff;
pub mod error;
pub mod github;
pub mod lockfile;
pub mod orchestrator;
pub mod text;

pub use diff::{DiffLine, DiffParser, FileDiff, Hunk, LineKind, LineRange, parse_hunks};
pub use error::{Field, ParseError};
pub use github::{compare_url, owner_repo, pick_repository_url, GITHUB_API_REPOS};
pub use lockfile::{parse_lockfile, Package};
pub use orchestrator::{Decision, SkipReason, Tag, UpdateOrchestrator, WhichTag};
