//! Repository statistics: commit, churn, contributor, file-type and
//! line-count analysis over plain records extracted from git history.

pub mod analysis;
pub mod browser;
pub mod calendar;
pub mod commands;
pub mod error;
pub mod format;
pub mod git;
pub mod model;
pub mod path;
pub mod state;
pub mod text;

pub use error::{CoreError, CoreResult};
pub use model::{ChangeRecord, CommitRecord, RepoStats, SnapshotRecord};
