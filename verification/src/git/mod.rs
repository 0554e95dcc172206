//! What the analyses take from git: commit, change and snapshot records built
//! from the values that a repository walk reads, and the summaries of commits
//! and branches shown for an opened repository.

pub mod change;
pub mod commit;
pub mod scanner;
pub mod snapshot;

use vstd::prelude::*;
use crate::calendar::{rfc3339_at, valid_timestamp};
use crate::format::rfc3339_text;
use crate::git::commit::{
    or_empty, or_unknown, text_or_unknown, trimmed_or_empty, RawCommit,
};
use crate::text::trim;

verus! {

broadcast use vstd::string::group_string_axioms;

/// A commit as shown for an opened repository.
#[derive(Debug)]
pub struct CommitInfo {
    pub hash: String,
    pub author_name: String,
    pub author_email: String,
    /// The commit time in RFC 3339, at the author's UTC offset.
    pub datetime: String,
    pub message: String,
}

/// A branch of an opened repository.
#[derive(Debug)]
pub struct BranchInfo {
    pub name: String,
    pub is_head: bool,
    pub is_remote: bool,
}

/// A UTC offset in minutes whose value in seconds an `i32` holds.
pub open spec fn offset_fits(offset_minutes: i32) -> bool {
    -35791394 <= offset_minutes <= 35791394
}

/// The RFC 3339 text of a commit time at its offset; `now` where chrono
/// cannot hold the time or the offset is a day or more.
pub open spec fn commit_datetime_text(seconds: i64, offset_minutes: i32, now: Seq<char>) -> Seq<char> {
    let offset = offset_minutes * 60;
    if valid_timestamp(seconds as int) && -86400 < offset < 86400 {
        rfc3339_text(seconds as int, offset)
    } else {
        now
    }
}

/// The RFC 3339 text of a commit time (see `commit_datetime_text`).
pub fn commit_datetime(seconds: i64, offset_minutes: i32, now: &str) -> (r: String)
    requires
        offset_fits(offset_minutes),
    ensures
        r@ == commit_datetime_text(seconds, offset_minutes, now@),
{
    match rfc3339_at(seconds, offset_minutes * 60) {
        Some(text) => text,
        None => String::from_str(now),
    }
}

/// The summary of a commit: absent author fields read `"unknown"`, the
/// message is trimmed (`""` when absent), and the time is written in RFC 3339
/// at the author's offset, `now` standing in where it cannot be.
pub fn commit_info(raw: &RawCommit, now: &str) -> (r: CommitInfo)
    requires
        offset_fits(raw.offset_minutes),
    ensures
        r.hash@ == raw.hash@,
        r.author_name@ == or_unknown(raw.author_name),
        r.author_email@ == or_unknown(raw.author_email),
        r.datetime@ == commit_datetime_text(raw.time_seconds, raw.offset_minutes, now@),
        r.message@ == trim(or_empty(raw.message)),
{
    CommitInfo {
        hash: raw.hash.clone(),
        author_name: text_or_unknown(&raw.author_name),
        author_email: text_or_unknown(&raw.author_email),
        datetime: commit_datetime(raw.time_seconds, raw.offset_minutes, now),
        message: trimmed_or_empty(&raw.message),
    }
}

/// The summary of a branch; a name that is not UTF-8 (`None`) reads `"unknown"`.
pub fn branch_info(name: &Option<String>, is_head: bool, is_remote: bool) -> (r: BranchInfo)
    ensures
        r.name@ == or_unknown(*name),
        r.is_head == is_head,
        r.is_remote == is_remote,
{
    BranchInfo { name: text_or_unknown(name), is_head, is_remote }
}

/// Whether a history walk limited to `max_count` commits (no limit when
/// `None`) goes on to the commit at position `index`.
pub fn walk_continues(max_count: Option<usize>, index: usize) -> (r: bool)
    ensures
        r == match max_count {
            Some(max) => index < max,
            None => true,
        },
{
    match max_count {
        Some(max) => index < max,
        None => true,
    }
}

} // verus!
