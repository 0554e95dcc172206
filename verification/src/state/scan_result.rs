//! The scan state of each repository.

use vstd::prelude::*;
use crate::model::RepoStats;
use crate::text::str_eq;

verus! {

broadcast use vstd::string::group_string_axioms;

/// The state of a scan for a particular repository.
#[derive(Debug)]
pub enum ScanState {
    NotScanned,
    Scanning,
    Completed(RepoStats),
    Failed(String),
}

/// `b` is a copy of `a`: the same variant holding the same records and text.
pub open spec fn same_state(a: ScanState, b: ScanState) -> bool {
    match (a, b) {
        (ScanState::NotScanned, ScanState::NotScanned) => true,
        (ScanState::Scanning, ScanState::Scanning) => true,
        (ScanState::Completed(x), ScanState::Completed(y)) => {
            &&& x.repo_path == y.repo_path
            &&& x.repo_name == y.repo_name
            &&& x.commits@ == y.commits@
            &&& x.changes@ == y.changes@
            &&& x.snapshots@ == y.snapshots@
        },
        (ScanState::Failed(x), ScanState::Failed(y)) => x == y,
        _ => false,
    }
}

impl Clone for ScanState {
    /// A copy of the state (see `same_state`).
    fn clone(&self) -> (r: Self)
        ensures
            same_state(*self, r),
    {
        match self {
            ScanState::NotScanned => ScanState::NotScanned,
            ScanState::Scanning => ScanState::Scanning,
            ScanState::Completed(stats) => ScanState::Completed(stats.clone()),
            ScanState::Failed(msg) => ScanState::Failed(msg.clone()),
        }
    }
}

/// The map from path text to state that the entries hold.
pub open spec fn entries_map(e: Seq<(String, ScanState)>) -> Map<Seq<char>, ScanState>
    decreases e.len(),
{
    if e.len() == 0 {
        Map::empty()
    } else {
        entries_map(e.drop_last()).insert(e.last().0@, e.last().1)
    }
}

/// No two entries have the same path text.
pub open spec fn distinct_keys(e: Seq<(String, ScanState)>) -> bool {
    forall|i: int, j: int| 0 <= i < j < e.len() ==> (#[trigger] e[i]).0@ != (#[trigger] e[j]).0@
}

proof fn lemma_entries_map_lookup(e: Seq<(String, ScanState)>, i: int)
    requires
        distinct_keys(e),
        0 <= i < e.len(),
    ensures
        entries_map(e).contains_key(e[i].0@),
        entries_map(e)[e[i].0@] == e[i].1,
    decreases e.len(),
{
    if i < e.len() - 1 {
        let init = e.drop_last();
        assert(init[i] == e[i]);
        lemma_entries_map_lookup(init, i);
        assert(e[i].0@ != e[e.len() - 1].0@);
    }
}

proof fn lemma_entries_map_absent(e: Seq<(String, ScanState)>, k: Seq<char>)
    requires
        forall|i: int| 0 <= i < e.len() ==> (#[trigger] e[i]).0@ != k,
    ensures
        !entries_map(e).contains_key(k),
    decreases e.len(),
{
    if e.len() > 0 {
        let init = e.drop_last();
        assert forall|i: int| 0 <= i < init.len() implies (#[trigger] init[i]).0@ != k by {
            assert(init[i] == e[i]);
        }
        lemma_entries_map_absent(init, k);
    }
}

proof fn lemma_entries_map_update(e: Seq<(String, ScanState)>, i: int, x: (String, ScanState))
    requires
        distinct_keys(e),
        0 <= i < e.len(),
        x.0@ == e[i].0@,
    ensures
        entries_map(e.update(i, x)) == entries_map(e).insert(x.0@, x.1),
    decreases e.len(),
{
    let u = e.update(i, x);
    if i == e.len() - 1 {
        assert(u.drop_last() =~= e.drop_last());
        assert(entries_map(u) =~= entries_map(e).insert(x.0@, x.1));
    } else {
        let init = e.drop_last();
        assert(u.drop_last() =~= init.update(i, x));
        lemma_entries_map_update(init, i, x);
        assert(e[i].0@ != e.last().0@);
        assert(entries_map(u) =~= entries_map(e).insert(x.0@, x.1));
    }
}

proof fn lemma_entries_map_remove(e: Seq<(String, ScanState)>, i: int)
    requires
        distinct_keys(e),
        0 <= i < e.len(),
    ensures
        entries_map(e.remove(i)) == entries_map(e).remove(e[i].0@),
    decreases e.len(),
{
    let k = e[i].0@;
    let r = e.remove(i);
    if i == e.len() - 1 {
        assert(r =~= e.drop_last());
        assert forall|t: int| 0 <= t < r.len() implies (#[trigger] r[t]).0@ != k by {
            assert(r[t] == e[t]);
        }
        lemma_entries_map_absent(r, k);
        assert(entries_map(r) =~= entries_map(e).remove(k));
    } else {
        let init = e.drop_last();
        assert(r.drop_last() =~= init.remove(i));
        assert(r.last() == e.last());
        lemma_entries_map_remove(init, i);
        assert(e.last().0@ != k);
        assert(entries_map(r) =~= entries_map(e).remove(k));
    }
}

/// The scan state of each repository path (paths compared as text); a path
/// that was never set is `NotScanned`.
#[derive(Debug)]
pub struct ScanResultStore {
    results: Vec<(String, ScanState)>,
}

impl View for ScanResultStore {
    type V = Map<Seq<char>, ScanState>;

    closed spec fn view(&self) -> Map<Seq<char>, ScanState> {
        entries_map(self.results@)
    }
}

/// The state the store reports for a path.
pub open spec fn state_of(m: Map<Seq<char>, ScanState>, path: Seq<char>) -> ScanState {
    if m.contains_key(path) {
        m[path]
    } else {
        ScanState::NotScanned
    }
}

/// A state that was set is what the store reports for that path; setting or
/// removing one path leaves what it reports for every other path as it was;
/// a removed path reports `NotScanned`.
pub proof fn lemma_set_then_get(m: Map<Seq<char>, ScanState>, p: Seq<char>, q: Seq<char>, st: ScanState)
    ensures
        state_of(m.insert(p, st), p) == st,
        state_of(m.remove(p), p) == ScanState::NotScanned,
        q != p ==> state_of(m.insert(p, st), q) == state_of(m, q),
        q != p ==> state_of(m.remove(p), q) == state_of(m, q),
{
}

impl ScanResultStore {
    #[verifier::type_invariant]
    spec fn keys_distinct(self) -> bool {
        distinct_keys(self.results@)
    }

    /// The index of the entry for `path`, if any.
    fn find(&self, path: &str) -> (r: Option<usize>)
        ensures
            r matches Some(i) ==> i < self.results@.len() && self.results@[i as int].0@ == path@,
            r is None ==> forall|i: int| 0 <= i < self.results@.len() ==> (#[trigger] self.results@[i]).0@ != path@,
    {
        let n = self.results.len();
        let mut i: usize = 0;
        while i < n
            invariant
                n == self.results@.len(),
                i <= n,
                forall|k: int| 0 <= k < i ==> (#[trigger] self.results@[k]).0@ != path@,
            decreases n - i,
        {
            if str_eq(self.results[i].0.as_str(), path) {
                return Some(i);
            }
            i += 1;
        }
        None
    }

    /// An empty store.
    pub fn new() -> (r: Self)
        ensures
            r@ == Map::<Seq<char>, ScanState>::empty(),
    {
        ScanResultStore { results: Vec::new() }
    }

    /// The current scan state for a repo path (`NotScanned` if never set).
    pub fn get(&self, path: &str) -> (r: &ScanState)
        ensures
            *r == state_of(self@, path@),
    {
        proof {
            use_type_invariant(self);
        }
        match self.find(path) {
            Some(i) => {
                proof {
                    lemma_entries_map_lookup(self.results@, i as int);
                }
                &self.results[i].1
            },
            None => {
                proof {
                    lemma_entries_map_absent(self.results@, path@);
                }
                &ScanState::NotScanned
            },
        }
    }

    /// Set the scan state for a repo path.
    pub fn set_state(&mut self, path: &str, state: ScanState)
        ensures
            final(self)@ == old(self)@.insert(path@, state),
    {
        proof {
            use_type_invariant(&*self);
        }
        let found = self.find(path);
        let mut results: Vec<(String, ScanState)> = Vec::new();
        std::mem::swap(&mut results, &mut self.results);
        let ghost e = results@;
        let key = String::from_str(path);
        match found {
            Some(i) => {
                results.set(i, (key, state));
                proof {
                    lemma_entries_map_update(e, i as int, (key, state));
                    assert forall|a: int, b: int| 0 <= a < b < results@.len() implies (#[trigger] results@[a]).0@
                        != (#[trigger] results@[b]).0@ by {
                        assert(e[a].0@ != e[b].0@);
                    }
                }
            },
            None => {
                results.push((key, state));
                proof {
                    assert(results@.drop_last() =~= e);
                    assert forall|a: int, b: int| 0 <= a < b < results@.len() implies (#[trigger] results@[a]).0@
                        != (#[trigger] results@[b]).0@ by {
                        if b < e.len() {
                            assert(e[a].0@ != e[b].0@);
                        } else {
                            assert(results@[a] == e[a]);
                        }
                    }
                }
            },
        }
        self.results = results;
    }

    /// Remove a repo and its scan result.
    pub fn remove(&mut self, path: &str)
        ensures
            final(self)@ == old(self)@.remove(path@),
    {
        proof {
            use_type_invariant(&*self);
        }
        match self.find(path) {
            Some(i) => {
                let mut results: Vec<(String, ScanState)> = Vec::new();
                std::mem::swap(&mut results, &mut self.results);
                let ghost e = results@;
                results.remove(i);
                proof {
                    lemma_entries_map_remove(e, i as int);
                    assert forall|a: int, b: int| 0 <= a < b < results@.len() implies (#[trigger] results@[a]).0@
                        != (#[trigger] results@[b]).0@ by {
                        if a < i && b < i {
                            assert(e[a].0@ != e[b].0@);
                        } else if a < i {
                            assert(e[a].0@ != e[b + 1].0@);
                        } else {
                            assert(e[a + 1].0@ != e[b + 1].0@);
                        }
                    }
                }
                self.results = results;
            },
            None => {
                proof {
                    lemma_entries_map_absent(self.results@, path@);
                    assert(self@.remove(path@) =~= self@);
                }
            },
        }
    }

    /// All `(path, state)` entries, each path once, the states copied.
    pub fn all(&self) -> (r: Vec<(String, ScanState)>)
        ensures
            distinct_keys(r@),
            forall|i: int| 0 <= i < r@.len() ==> self@.contains_key((#[trigger] r@[i]).0@) && same_state(self@[r@[i].0@], r@[i].1),
            forall|k: Seq<char>| self@.contains_key(k) ==> exists|i: int| 0 <= i < r@.len() && (#[trigger] r@[i]).0@ == k,
    {
        proof {
            use_type_invariant(self);
        }
        let mut out: Vec<(String, ScanState)> = Vec::new();
        let n = self.results.len();
        let mut i: usize = 0;
        while i < n
            invariant
                n == self.results@.len(),
                distinct_keys(self.results@),
                i <= n,
                out@.len() == i,
                forall|k: int| 0 <= k < i ==> (#[trigger] out@[k]).0@ == self.results@[k].0@ && same_state(self.results@[k].1, out@[k].1),
            decreases n - i,
        {
            let entry = (self.results[i].0.clone(), self.results[i].1.clone());
            out.push(entry);
            i += 1;
        }
        proof {
            assert forall|a: int, b: int| 0 <= a < b < out@.len() implies (#[trigger] out@[a]).0@ != (#[trigger] out@[b]).0@ by {
                assert(self.results@[a].0@ != self.results@[b].0@);
            }
            assert forall|t: int| 0 <= t < out@.len() implies self@.contains_key((#[trigger] out@[t]).0@) && same_state(self@[out@[t].0@], out@[t].1) by {
                lemma_entries_map_lookup(self.results@, t);
            }
            assert forall|k: Seq<char>| self@.contains_key(k) implies exists|t: int| 0 <= t < out@.len() && (#[trigger] out@[t]).0@ == k by {
                if forall|t: int| 0 <= t < self.results@.len() ==> (#[trigger] self.results@[t]).0@ != k {
                    lemma_entries_map_absent(self.results@, k);
                } else {
                    let t = choose|t: int| 0 <= t < self.results@.len() && (#[trigger] self.results@[t]).0@ == k;
                    assert(out@[t].0@ == k);
                }
            }
        }
        out
    }

    /// Whether no repo has a scan state.
    pub fn is_empty(&self) -> (r: bool)
        ensures
            r == (self@ == Map::<Seq<char>, ScanState>::empty()),
    {
        if self.results.len() == 0 {
            assert(self@ =~= Map::<Seq<char>, ScanState>::empty());
            true
        } else {
            assert(entries_map(self.results@).contains_key(self.results@.last().0@));
            false
        }
    }
}

impl Default for ScanResultStore {
    fn default() -> (r: Self)
        ensures
            r@ == Map::<Seq<char>, ScanState>::empty(),
    {
        Self::new()
    }
}

} // verus!
