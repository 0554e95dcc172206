use vstd::prelude::*;

verus! {

/// The lines one commit added to and removed from one file.
#[derive(Debug)]
pub struct ChangeRecord {
    pub commit_hash: String,
    pub file_path: String,
    pub ext: String,
    pub insertions: u32,
    pub deletions: u32,
    /// The commit time as a UNIX timestamp in seconds (UTC).
    pub datetime: i64,
}


impl Clone for ChangeRecord {
    /// A copy equal to `self`.
    fn clone(&self) -> (r: Self)
        ensures
            r == *self,
    {

        ChangeRecord {
            commit_hash: self.commit_hash.clone(),
            file_path: self.file_path.clone(),
            ext: self.ext.clone(),
            insertions: self.insertions,
            deletions: self.deletions,
            datetime: self.datetime,
        }
    }
}

} // verus!
