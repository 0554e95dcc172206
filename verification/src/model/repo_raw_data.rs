use vstd::prelude::*;
use super::{ChangeRecord, CommitRecord, SnapshotRecord};

verus! {

/// Everything one scan of a repository collects.
#[derive(Debug)]
pub struct RepoRawData {
    pub repo_name: String,
    pub commits: Vec<CommitRecord>,
    pub changes: Vec<ChangeRecord>,
    pub snapshots: Vec<SnapshotRecord>,
}


impl Clone for RepoRawData {
    /// A copy holding the same records.
    fn clone(&self) -> (r: Self)
        ensures
            r.repo_name == self.repo_name,
            r.commits@ == self.commits@,
            r.changes@ == self.changes@,
            r.snapshots@ == self.snapshots@,
    {
        let commits = self.commits.clone();
        assert(commits@ =~= self.commits@);
        let changes = self.changes.clone();
        assert(changes@ =~= self.changes@);
        let snapshots = self.snapshots.clone();
        assert(snapshots@ =~= self.snapshots@);
        RepoRawData {
            repo_name: self.repo_name.clone(),
            commits,
            changes,
            snapshots,
        }
    }
}

} // verus!
