//! Change records: lines added and removed per file per commit.

use vstd::prelude::*;
use crate::git::commit::{commit_time, commit_time_of};
use crate::model::ChangeRecord;
use crate::text::{count_char, lemma_count_char_push, path_extension};
use crate::path::{extension_of, portable_path};

verus! {

broadcast use vstd::string::group_string_axioms;

/// One file of a commit's diff against its first parent, as read from the
/// repository: whether git considers it binary, its new path (`None` where it
/// has none), and the origin character of every line of its patch (`'+'` for
/// an added line, `'-'` for a removed one, others for context and headers).
#[derive(Debug)]
pub struct RawDelta {
    pub is_binary: bool,
    pub path: Option<String>,
    pub line_origins: Vec<char>,
}

/// The path of a delta, `""` when it has none.
pub open spec fn delta_path(d: RawDelta) -> Seq<char> {
    match d.path {
        Some(p) => p@,
        None => Seq::empty(),
    }
}

/// The extension of a path as std gives it, `""` when it has none.
pub open spec fn path_ext(path: Seq<char>) -> Seq<char> {
    match extension_of(path) {
        Some(e) => e,
        None => Seq::empty(),
    }
}

/// The deltas that are not binary.
pub open spec fn text_deltas(deltas: Seq<RawDelta>) -> Seq<RawDelta>
    decreases deltas.len(),
{
    if deltas.len() == 0 {
        Seq::empty()
    } else if deltas.last().is_binary {
        text_deltas(deltas.drop_last())
    } else {
        text_deltas(deltas.drop_last()).push(deltas.last())
    }
}

/// No delta has more added or removed lines than a `u32` counts.
pub open spec fn line_counts_fit(deltas: Seq<RawDelta>) -> bool {
    forall|i: int|
        0 <= i < deltas.len() ==> count_char((#[trigger] deltas[i]).line_origins@, '+') <= u32::MAX
            && count_char(deltas[i].line_origins@, '-') <= u32::MAX
}

/// Whether `r` is the change record of delta `d` of the commit `hash` made at
/// `time` (its extension stated for a path every platform reads alike).
pub open spec fn is_change_record(hash: Seq<char>, time: i64, d: RawDelta, r: ChangeRecord) -> bool {
    &&& r.commit_hash@ == hash
    &&& r.file_path@ == delta_path(d)
    &&& portable_path(delta_path(d)) ==> r.ext@ == path_ext(delta_path(d))
    &&& r.insertions == count_char(d.line_origins@, '+')
    &&& r.deletions == count_char(d.line_origins@, '-')
    &&& r.datetime == time
}

/// The numbers of added and removed lines among a patch's line origins.
pub fn count_line_origins(origins: &Vec<char>) -> (r: (u32, u32))
    requires
        count_char(origins@, '+') <= u32::MAX,
        count_char(origins@, '-') <= u32::MAX,
    ensures
        r.0 == count_char(origins@, '+'),
        r.1 == count_char(origins@, '-'),
{
    let mut ins: u32 = 0;
    let mut del: u32 = 0;
    let mut k: usize = 0;
    while k < origins.len()
        invariant
            k <= origins@.len(),
            count_char(origins@, '+') <= u32::MAX,
            count_char(origins@, '-') <= u32::MAX,
            ins == count_char(origins@.take(k as int), '+'),
            del == count_char(origins@.take(k as int), '-'),
        decreases origins.len() - k,
    {
        proof {
            assert(origins@.take(k + 1) =~= origins@.take(k as int).push(origins@[k as int]));
            lemma_count_char_push(origins@.take(k as int), origins@[k as int], '+');
            lemma_count_char_push(origins@.take(k as int), origins@[k as int], '-');
            lemma_count_prefix(origins@, k + 1, '+');
            lemma_count_prefix(origins@, k + 1, '-');
        }
        let c = origins[k];
        if c == '+' {
            ins += 1;
        } else if c == '-' {
            del += 1;
        }
        k += 1;
    }
    proof {
        assert(origins@.take(origins@.len() as int) =~= origins@);
    }
    (ins, del)
}

proof fn lemma_count_prefix(s: Seq<char>, j: int, c: char)
    requires
        0 <= j <= s.len(),
    ensures
        count_char(s.take(j), c) <= count_char(s, c),
    decreases s.len(),
{
    if j < s.len() {
        lemma_count_prefix(s.drop_last(), j, c);
        assert(s.drop_last().take(j) =~= s.take(j));
    } else {
        assert(s.take(j) =~= s);
    }
}

/// The change records of one commit (id `commit_hash`, time `commit_seconds`,
/// replaced by `now` where chrono cannot hold it) from the deltas of its diff
/// against its first parent (or against nothing for a root commit): one record
/// per non-binary delta, in diff order.
pub fn scan_changes(commit_hash: &str, commit_seconds: i64, now: i64, deltas: &Vec<RawDelta>) -> (r:
    Vec<ChangeRecord>)
    requires
        line_counts_fit(deltas@),
    ensures
        r@.len() == text_deltas(deltas@).len(),
        forall|i: int|
            0 <= i < r@.len() ==> is_change_record(
                commit_hash@,
                commit_time(commit_seconds, now),
                text_deltas(deltas@)[i],
                #[trigger] r@[i],
            ),
{
    let time = commit_time_of(commit_seconds, now);
    let mut out: Vec<ChangeRecord> = Vec::new();
    let mut i: usize = 0;
    while i < deltas.len()
        invariant
            i <= deltas@.len(),
            line_counts_fit(deltas@),
            time == commit_time(commit_seconds, now),
            out@.len() == text_deltas(deltas@.take(i as int)).len(),
            forall|k: int|
                0 <= k < out@.len() ==> is_change_record(
                    commit_hash@,
                    time,
                    text_deltas(deltas@.take(i as int))[k],
                    #[trigger] out@[k],
                ),
        decreases deltas.len() - i,
    {
        let d = &deltas[i];
        proof {
            assert(deltas@.take(i + 1).drop_last() =~= deltas@.take(i as int));
            assert(deltas@.take(i + 1).last() == deltas@[i as int]);
        }
        if !d.is_binary {
            let file_path = match &d.path {
                Some(p) => p.clone(),
                None => String::new(),
            };
            let ext = match path_extension(file_path.as_str()) {
                Some(e) => String::from_str(e),
                None => String::new(),
            };
            assert(count_char(deltas@[i as int].line_origins@, '+') <= u32::MAX);
            let (ins, del) = count_line_origins(&d.line_origins);
            out.push(
                ChangeRecord {
                    commit_hash: String::from_str(commit_hash),
                    file_path,
                    ext,
                    insertions: ins,
                    deletions: del,
                    datetime: time,
                },
            );
        }
        i += 1;
    }
    proof {
        assert(deltas@.take(deltas@.len() as int) =~= deltas@);
    }
    out
}

} // verus!
