//! Commit records of a repository's history.

use vstd::prelude::*;
use crate::calendar::{utc_timestamp_exists, valid_timestamp};
use crate::model::CommitRecord;
use crate::text::{chars_of, path_file_name, trim};
use crate::path::{file_name_of, portable_path};

verus! {

broadcast use vstd::string::group_string_axioms;

/// A commit as read from a repository walk: its id, the author's name and
/// e-mail (`None` where they are not UTF-8), its message (`None` where it is
/// not UTF-8), and its time (seconds since the epoch and the author's UTC
/// offset in minutes).
#[derive(Debug)]
pub struct RawCommit {
    pub hash: String,
    pub author_name: Option<String>,
    pub author_email: Option<String>,
    pub message: Option<String>,
    pub time_seconds: i64,
    pub offset_minutes: i32,
}

/// The text of an optional field, `"unknown"` when absent.
pub open spec fn or_unknown(s: Option<String>) -> Seq<char> {
    match s {
        Some(t) => t@,
        None => "unknown"@,
    }
}

/// The text of an optional field, `""` when absent.
pub open spec fn or_empty(s: Option<String>) -> Seq<char> {
    match s {
        Some(t) => t@,
        None => Seq::empty(),
    }
}

/// The UTC time of a commit: its own time where chrono can hold it, else `now`.
pub open spec fn commit_time(seconds: i64, now: i64) -> i64 {
    if valid_timestamp(seconds as int) {
        seconds
    } else {
        now
    }
}

/// The name a repository is known by: the last component of its path,
/// `"unknown"` when it has none.
pub open spec fn repo_name(path: Seq<char>) -> Seq<char> {
    match file_name_of(path) {
        Some(n) => n,
        None => "unknown"@,
    }
}

/// The name a repository is known by (see `repo_name`; stated for a path
/// every platform reads alike).
pub fn repo_name_of(repo_path: &str) -> (r: String)
    ensures
        portable_path(repo_path@) ==> r@ == repo_name(repo_path@),
{
    match path_file_name(repo_path) {
        Some(n) => String::from_str(n),
        None => String::from_str("unknown"),
    }
}

/// The text of an optional field, `"unknown"` when absent.
pub fn text_or_unknown(s: &Option<String>) -> (r: String)
    ensures
        r@ == or_unknown(*s),
{
    match s {
        Some(t) => t.clone(),
        None => String::from_str("unknown"),
    }
}

/// The text of an optional field with leading and trailing white space removed,
/// `""` when absent.
pub fn trimmed_or_empty(s: &Option<String>) -> (r: String)
    ensures
        r@ == trim(or_empty(*s)),
{
    match s {
        Some(t) => {
            let v = chars_of(t.as_str());
            let (lo, hi) = crate::text::trim_bounds(&v);
            String::from_str(t.as_str().substring_char(lo, hi))
        },
        None => {
            let e = String::new();
            proof {
                assert(trim(Seq::<char>::empty()) =~= Seq::<char>::empty());
            }
            e
        },
    }
}

/// The UTC time of a commit (see `commit_time`).
pub fn commit_time_of(seconds: i64, now: i64) -> (r: i64)
    ensures
        r == commit_time(seconds, now),
{
    if utc_timestamp_exists(seconds) {
        seconds
    } else {
        now
    }
}

/// The record of one commit of the repository named `repo_name`; an author
/// field that is absent reads `"unknown"`, the message is trimmed, and a time
/// chrono cannot hold is replaced by `now`.
pub fn commit_record(repo_name: &str, raw: &RawCommit, now: i64) -> (r: CommitRecord)
    ensures
        r.repo_name@ == repo_name@,
        r.hash@ == raw.hash@,
        r.author_name@ == or_unknown(raw.author_name),
        r.author_email@ == or_unknown(raw.author_email),
        r.datetime == commit_time(raw.time_seconds, now),
        r.message@ == trim(or_empty(raw.message)),
{
    CommitRecord {
        repo_name: String::from_str(repo_name),
        hash: raw.hash.clone(),
        author_name: text_or_unknown(&raw.author_name),
        author_email: text_or_unknown(&raw.author_email),
        datetime: commit_time_of(raw.time_seconds, now),
        message: trimmed_or_empty(&raw.message),
    }
}

/// Whether `r` is the record of `raw` in the repository named `name`.
pub open spec fn is_commit_record(name: Seq<char>, raw: RawCommit, now: i64, r: CommitRecord) -> bool {
    &&& r.repo_name@ == name
    &&& r.hash@ == raw.hash@
    &&& r.author_name@ == or_unknown(raw.author_name)
    &&& r.author_email@ == or_unknown(raw.author_email)
    &&& r.datetime == commit_time(raw.time_seconds, now)
    &&& r.message@ == trim(or_empty(raw.message))
}

/// The commit records of a repository from the commits its history walk read
/// (newest first), one record per commit, in walk order, all carrying the
/// repository's name (`repo_name` of its path, stated for a path every
/// platform reads alike).
pub fn scan_commits(repo_path: &str, walk: &Vec<RawCommit>, now: i64) -> (r: Vec<CommitRecord>)
    ensures
        r@.len() == walk@.len(),
        forall|i: int| 0 <= i < r@.len() ==> is_commit_record(r@[0].repo_name@, walk@[i], now, #[trigger] r@[i]),
        portable_path(repo_path@) ==> forall|i: int| 0 <= i < r@.len() ==> (#[trigger] r@[i]).repo_name@ == repo_name(repo_path@),
{
    let name = repo_name_of(repo_path);
    let mut out: Vec<CommitRecord> = Vec::new();
    let mut i: usize = 0;
    while i < walk.len()
        invariant
            i <= walk@.len(),
            portable_path(repo_path@) ==> name@ == repo_name(repo_path@),
            out@.len() == i,
            forall|k: int| 0 <= k < i ==> is_commit_record(name@, walk@[k], now, #[trigger] out@[k]),
        decreases walk.len() - i,
    {
        out.push(commit_record(name.as_str(), &walk[i], now));
        i += 1;
    }
    out
}

} // verus!
