use vstd::prelude::*;

verus! {

/// One commit of a scanned repository.
#[derive(Debug)]
pub struct CommitRecord {
    pub repo_name: String,
    pub hash: String,
    pub author_name: String,
    pub author_email: String,
    /// The commit time as a UNIX timestamp in seconds (UTC).
    pub datetime: i64,
    pub message: String,
}


impl Clone for CommitRecord {
    /// A copy equal to `self`.
    fn clone(&self) -> (r: Self)
        ensures
            r == *self,
    {

        CommitRecord {
            repo_name: self.repo_name.clone(),
            hash: self.hash.clone(),
            author_name: self.author_name.clone(),
            author_email: self.author_email.clone(),
            datetime: self.datetime,
            message: self.message.clone(),
        }
    }
}

} // verus!
