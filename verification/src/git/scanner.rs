//! Everything one scan of a repository collects.

use vstd::prelude::*;
use crate::git::commit::{repo_name, repo_name_of};
use crate::path::portable_path;
use crate::model::{ChangeRecord, CommitRecord, RepoRawData, SnapshotRecord};

verus! {

/// How many of `n` walked commits a scan limited to `max_count` commits keeps.
pub open spec fn kept_count(n: int, max_count: Option<usize>) -> int {
    match max_count {
        Some(m) => if m < n {
            m as int
        } else {
            n
        },
        None => n,
    }
}

/// The records of each commit's changes, one after the other.
pub open spec fn all_changes(per_commit: Seq<Vec<ChangeRecord>>) -> Seq<ChangeRecord> {
    per_commit.map_values(|v: Vec<ChangeRecord>| v@).flatten()
}

/// The scan of the repository at `repo_path` from what its walks read, kept
/// to the first `max_count` commits of the walk when a limit is given: its
/// commits, the change records of each kept commit in walk order (concatenated),
/// and the HEAD snapshot, empty where it could not be taken.
pub fn scan_repository(
    repo_path: &str,
    max_count: Option<usize>,
    commits: Vec<CommitRecord>,
    changes_per_commit: Vec<Vec<ChangeRecord>>,
    snapshots: Option<Vec<SnapshotRecord>>,
) -> (r: RepoRawData)
    ensures
        portable_path(repo_path@) ==> r.repo_name@ == repo_name(repo_path@),
        r.commits@ == commits@.take(kept_count(commits@.len() as int, max_count)),
        r.changes@ == all_changes(changes_per_commit@.take(kept_count(changes_per_commit@.len() as int, max_count))),
        r.snapshots@ == match snapshots {
            Some(s) => s@,
            None => Seq::empty(),
        },
{
    let ghost c0 = commits@;
    let ghost p0 = changes_per_commit@;
    let mut commits = commits;
    let mut changes_per_commit = changes_per_commit;
    if let Some(m) = max_count {
        commits.truncate(m);
        changes_per_commit.truncate(m);
    }
    assert(commits@ =~= c0.take(kept_count(c0.len() as int, max_count)));
    assert(changes_per_commit@ =~= p0.take(kept_count(p0.len() as int, max_count)));
    let ghost per = changes_per_commit@;
    let mut all: Vec<ChangeRecord> = Vec::new();
    proof {
        assert(Seq::<Vec<ChangeRecord>>::empty().map_values(|v: Vec<ChangeRecord>| v@) =~= Seq::<Seq<ChangeRecord>>::empty());
    }
    let mut rest = changes_per_commit;
    let ghost mut k: int = 0;
    assert(per.take(0) =~= Seq::<Vec<ChangeRecord>>::empty());
    assert(rest@ =~= per.skip(0));
    while rest.len() > 0
        invariant
            0 <= k <= per.len(),
            rest@ == per.skip(k),
            all@ == all_changes(per.take(k)),
        decreases rest@.len(),
    {
        let mut b = rest.remove(0);
        let ghost bv = b@;
        let ghost before = per.take(k);
        all.append(&mut b);
        proof {
            assert(per[k] == per.skip(k)[0]);
            let hs = per.take(k + 1);
            assert(hs =~= before.push(per[k]));
            assert(all_changes(hs) =~= all_changes(before) + bv) by {
                assert(hs.map_values(|v: Vec<ChangeRecord>| v@) =~= before.map_values(|v: Vec<ChangeRecord>| v@).push(bv));
                before.map_values(|v: Vec<ChangeRecord>| v@).lemma_flatten_push(bv);
            }
            assert(rest@ =~= per.skip(k + 1));
            k = k + 1;
        }
    }
    assert(per.take(k) =~= per);
    let snapshots = match snapshots {
        Some(s) => s,
        None => Vec::new(),
    };
    RepoRawData { repo_name: repo_name_of(repo_path), commits, changes: all, snapshots }
}

} // verus!
