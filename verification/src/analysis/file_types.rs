//! File-type distribution of a snapshot.

use vstd::prelude::*;
use crate::analysis::grouping::total_count;
use crate::analysis::ranking::{is_ranking, rank_keys, ranking, string_views};
use crate::model::SnapshotRecord;
use crate::path::portable_path;
use crate::text::{lower_extension, lower_extension_of};

verus! {

/// The lower-case extension of each snapshot's path (`""` for none).
pub open spec fn snapshot_extensions(snapshots: Seq<SnapshotRecord>) -> Seq<Seq<char>> {
    snapshots.map_values(|s: SnapshotRecord| lower_extension(s.file_path@))
}

/// `keys` gives each snapshot its extension key: the lower-case extension of
/// its path, stated for a path every platform reads alike (for other paths
/// `Path::extension` depends on the platform).
pub open spec fn extension_keys(snapshots: Seq<SnapshotRecord>, keys: Seq<Seq<char>>) -> bool {
    &&& keys.len() == snapshots.len()
    &&& forall|i: int|
        0 <= i < keys.len() && portable_path(snapshots[i].file_path@) ==> #[trigger] keys[i] == lower_extension(
            snapshots[i].file_path@,
        )
}

/// `r` is the ranking of `keys`, with counts as `u64`.
pub open spec fn ranks_keys(keys: Seq<Seq<char>>, r: Seq<(String, u64)>) -> bool {
    &&& is_ranking(keys, ranking(keys))
    &&& r.len() == ranking(keys).len()
    &&& forall|i: int| 0 <= i < r.len() ==> (#[trigger] r[i]).0@ == ranking(keys)[i].0 && r[i].1 == ranking(keys)[i].1
}

/// The sum of the counts of `r`.
pub open spec fn type_count_total(r: Seq<(String, u64)>) -> int
    decreases r.len(),
{
    if r.len() == 0 {
        0
    } else {
        type_count_total(r.drop_last()) + r.last().1
    }
}

proof fn lemma_type_total_matches(out: Seq<(String, u64)>, ranked: Seq<(String, usize)>)
    requires
        out.len() == ranked.len(),
        forall|t: int| 0 <= t < out.len() ==> (#[trigger] out[t]).1 == ranked[t].1,
    ensures
        type_count_total(out) == total_count(ranked),
    decreases out.len(),
{
    if out.len() > 0 {
        let o = out.drop_last();
        let k = ranked.drop_last();
        assert forall|t: int| 0 <= t < o.len() implies (#[trigger] o[t]).1 == k[t].1 by {
            assert(o[t] == out[t]);
            assert(k[t] == ranked[t]);
        }
        lemma_type_total_matches(o, k);
    }
}

/// Count snapshots by lower-case file extension, returning `(extension,
/// count)` sorted by descending count (equal counts by ascending extension).
/// Files without an extension use `""` as the key. Where every path is one
/// that every platform reads alike, the keys are `snapshot_extensions`.
pub fn file_type_distribution(snapshots: &[SnapshotRecord]) -> (r: Vec<(String, u64)>)
    ensures
        exists|keys: Seq<Seq<char>>| #[trigger] extension_keys(snapshots@, keys) && ranks_keys(keys, r@),
        (forall|i: int| 0 <= i < snapshots@.len() ==> portable_path(#[trigger] snapshots@[i].file_path@))
            ==> ranks_keys(snapshot_extensions(snapshots@), r@),
        type_count_total(r@) == snapshots@.len(),
{
    let mut keys: Vec<String> = Vec::new();
    let mut i: usize = 0;
    while i < snapshots.len()
        invariant
            i <= snapshots@.len(),
            keys@.len() == i,
            forall|t: int|
                0 <= t < i && portable_path(snapshots@[t].file_path@) ==> (#[trigger] keys@[t])@ == lower_extension(
                    snapshots@[t].file_path@,
                ),
        decreases snapshots.len() - i,
    {
        let ghost old_keys = keys@;
        let k = lower_extension_of(snapshots[i].file_path.as_str());
        keys.push(k);
        proof {
            assert forall|t: int|
                0 <= t < i + 1 && portable_path(snapshots@[t].file_path@) implies (#[trigger] keys@[t])@ == lower_extension(
                snapshots@[t].file_path@,
            ) by {
                if t < i {
                    assert(keys@[t] == old_keys[t]);
                }
            }
        }
        i += 1;
    }
    let ghost kv = string_views(keys@);
    proof {
        assert(extension_keys(snapshots@, kv));
        if forall|t: int| 0 <= t < snapshots@.len() ==> portable_path(#[trigger] snapshots@[t].file_path@) {
            assert(kv =~= snapshot_extensions(snapshots@));
        }
    }
    let ranked = rank_keys(&keys);
    let ghost rv = crate::analysis::ranking::ranking_view(ranked@);
    let mut out: Vec<(String, u64)> = Vec::new();
    let mut j: usize = 0;
    while j < ranked.len()
        invariant
            j <= ranked@.len(),
            rv == crate::analysis::ranking::ranking_view(ranked@),
            out@.len() == j,
            forall|t: int| 0 <= t < j ==> (#[trigger] out@[t]).0@ == rv[t].0 && out@[t].1 == rv[t].1,
            forall|t: int| 0 <= t < j ==> (#[trigger] out@[t]).1 == ranked@[t].1,
        decreases ranked.len() - j,
    {
        let (k, c) = (ranked[j].0.clone(), ranked[j].1);
        out.push((k, c as u64));
        j += 1;
    }
    proof {
        lemma_type_total_matches(out@, ranked@);
        assert(ranks_keys(kv, out@));
    }
    out
}

} // verus!
