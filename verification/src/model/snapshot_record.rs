use vstd::prelude::*;

verus! {

/// Line counts of one file of the HEAD tree.
#[derive(Debug)]
pub struct SnapshotRecord {
    pub commit_hash: String,
    pub file_path: String,
    pub code_lines: u32,
    pub comment_lines: u32,
    pub blank_lines: u32,
}


impl Clone for SnapshotRecord {
    /// A copy equal to `self`.
    fn clone(&self) -> (r: Self)
        ensures
            r == *self,
    {

        SnapshotRecord {
            commit_hash: self.commit_hash.clone(),
            file_path: self.file_path.clone(),
            code_lines: self.code_lines,
            comment_lines: self.comment_lines,
            blank_lines: self.blank_lines,
        }
    }
}

} // verus!
