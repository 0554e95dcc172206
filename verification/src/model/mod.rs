//! The records that a repository scan produces.

pub mod change_record;
pub mod commit_record;
pub mod repo_raw_data;
pub mod repo_stats;
pub mod snapshot_record;

pub use change_record::ChangeRecord;
pub use commit_record::CommitRecord;
pub use repo_raw_data::RepoRawData;
pub use repo_stats::RepoStats;
pub use snapshot_record::SnapshotRecord;
