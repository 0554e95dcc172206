use vstd::prelude::*;
use super::{ChangeRecord, CommitRecord, SnapshotRecord};

verus! {

/// The scan result of one repository, kept with its path.
#[derive(Debug)]
pub struct RepoStats {
    pub repo_path: String,
    pub repo_name: String,
    pub commits: Vec<CommitRecord>,
    pub changes: Vec<ChangeRecord>,
    pub snapshots: Vec<SnapshotRecord>,
}


impl Clone for RepoStats {
    /// A copy holding the same records.
    fn clone(&self) -> (r: Self)
        ensures
            r.repo_path == self.repo_path,
            r.repo_name == self.repo_name,
            r.commits@ == self.commits@,
            r.changes@ == self.changes@,
            r.snapshots@ == self.snapshots@,
    {
        let commits = self.commits.clone();
        assert(commits@ =~= self.commits@);
        let changes = self.changes.clone();
        assert(changes@ =~= self.changes@);
        let snapshots = self.snapshots.clone();
        assert(snapshots@ =~= self.snapshots@);
        RepoStats {
            repo_path: self.repo_path.clone(),
            repo_name: self.repo_name.clone(),
            commits,
            changes,
            snapshots,
        }
    }
}

} // verus!
