//! The repositories the user selected.

use vstd::prelude::*;
use crate::path::{paths_equal, same_path};

verus! {

/// Some entry of `s` is the same path as `p`.
pub open spec fn holds_path(s: Seq<Seq<char>>, p: Seq<char>) -> bool {
    exists|i: int| 0 <= i < s.len() && paths_equal(#[trigger] s[i], p)
}

/// `s` without the entries that are the same path as `p`.
pub open spec fn drop_path(s: Seq<Seq<char>>, p: Seq<char>) -> Seq<Seq<char>>
    decreases s.len(),
{
    if s.len() == 0 {
        Seq::empty()
    } else if paths_equal(s.last(), p) {
        drop_path(s.drop_last(), p)
    } else {
        drop_path(s.drop_last(), p).push(s.last())
    }
}

/// `s` after adding `p`: unchanged when it already holds the same path, else
/// with `p` at the end.
pub open spec fn with_path(s: Seq<Seq<char>>, p: Seq<char>) -> Seq<Seq<char>> {
    if holds_path(s, p) {
        s
    } else {
        s.push(p)
    }
}

proof fn lemma_drop_path_members(s: Seq<Seq<char>>, p: Seq<char>)
    ensures
        forall|i: int| 0 <= i < drop_path(s, p).len() ==> !paths_equal(#[trigger] drop_path(s, p)[i], p),
        forall|i: int| 0 <= i < drop_path(s, p).len() ==> exists|j: int| 0 <= j < s.len() && #[trigger] drop_path(s, p)[i] == s[j],
        forall|j: int| 0 <= j < s.len() && !paths_equal(s[j], p) ==> exists|i: int|
            0 <= i < drop_path(s, p).len() && #[trigger] drop_path(s, p)[i] == #[trigger] s[j],
    decreases s.len(),
{
    if s.len() > 0 {
        let init = s.drop_last();
        lemma_drop_path_members(init, p);
        let d = drop_path(s, p);
        let di = drop_path(init, p);
        assert forall|i: int| 0 <= i < d.len() implies exists|j: int| 0 <= j < s.len() && #[trigger] d[i] == s[j] by {
            if i < di.len() {
                let j = choose|j: int| 0 <= j < init.len() && di[i] == init[j];
                assert(d[i] == di[i]);
                assert(s[j] == init[j]);
            } else {
                assert(d[i] == s[s.len() - 1]);
            }
        }
        assert forall|j: int| 0 <= j < s.len() && !paths_equal(s[j], p) implies exists|i: int|
            0 <= i < d.len() && #[trigger] d[i] == #[trigger] s[j] by {
            if j < init.len() {
                assert(s[j] == init[j]);
                let i = choose|i: int| 0 <= i < di.len() && #[trigger] di[i] == #[trigger] init[j];
                assert(d[i] == di[i]);
            } else {
                assert(d[di.len() as int] == s[j]);
            }
        }
    }
}

/// Adding a path makes the collection hold it; adding it again changes
/// nothing; the collection grows by at most one entry and keeps every entry
/// it had.
pub proof fn lemma_add_then_contains(s: Seq<Seq<char>>, p: Seq<char>)
    ensures
        holds_path(with_path(s, p), p),
        with_path(with_path(s, p), p) == with_path(s, p),
        with_path(s, p).len() <= s.len() + 1,
        forall|q: Seq<char>| holds_path(s, q) ==> holds_path(with_path(s, p), q),
{
    if !holds_path(s, p) {
        let t = s.push(p);
        assert(paths_equal(t[s.len() as int], p));
        assert forall|q: Seq<char>| holds_path(s, q) implies holds_path(t, q) by {
            let i = choose|i: int| 0 <= i < s.len() && paths_equal(#[trigger] s[i], q);
            assert(t[i] == s[i]);
        }
    }
}

/// Removing a path leaves no entry that is the same path, and keeps exactly
/// the paths that are not the same path as it.
pub proof fn lemma_remove_then_absent(s: Seq<Seq<char>>, p: Seq<char>, q: Seq<char>)
    ensures
        !holds_path(drop_path(s, p), p),
        !paths_equal(q, p) ==> (holds_path(drop_path(s, p), q) <==> holds_path(s, q)),
{
    lemma_drop_path_members(s, p);
    let d = drop_path(s, p);
    if !paths_equal(q, p) {
        if holds_path(d, q) {
            let i = choose|i: int| 0 <= i < d.len() && paths_equal(#[trigger] d[i], q);
            let j = choose|j: int| 0 <= j < s.len() && #[trigger] d[i] == s[j];
            assert(paths_equal(s[j], q));
        }
        if holds_path(s, q) {
            let j = choose|j: int| 0 <= j < s.len() && paths_equal(#[trigger] s[j], q);
            assert(!paths_equal(s[j], p));
            let i = choose|i: int| 0 <= i < d.len() && #[trigger] d[i] == #[trigger] s[j];
            assert(paths_equal(d[i], q));
        }
    }
}

/// The indices of the entries of `s` that `drop_path(s, p)` keeps, ascending.
pub open spec fn kept_indices(s: Seq<Seq<char>>, p: Seq<char>) -> Seq<int>
    decreases s.len(),
{
    if s.len() == 0 {
        Seq::empty()
    } else if paths_equal(s.last(), p) {
        kept_indices(s.drop_last(), p)
    } else {
        kept_indices(s.drop_last(), p).push(s.len() - 1)
    }
}

proof fn lemma_kept_indices(s: Seq<Seq<char>>, p: Seq<char>)
    ensures
        kept_indices(s, p).len() == drop_path(s, p).len(),
        forall|i: int|
            0 <= i < kept_indices(s, p).len() ==> 0 <= #[trigger] kept_indices(s, p)[i] < s.len()
                && drop_path(s, p)[i] == s[kept_indices(s, p)[i]],
        forall|i: int, j: int|
            0 <= i < j < kept_indices(s, p).len() ==> #[trigger] kept_indices(s, p)[i]
                < #[trigger] kept_indices(s, p)[j],
    decreases s.len(),
{
    if s.len() > 0 {
        let init = s.drop_last();
        lemma_kept_indices(init, p);
        let k = kept_indices(s, p);
        let ki = kept_indices(init, p);
        let d = drop_path(s, p);
        let di = drop_path(init, p);
        assert forall|i: int| 0 <= i < k.len() implies 0 <= #[trigger] k[i] < s.len() && d[i] == s[k[i]] by {
            if i < ki.len() {
                assert(k[i] == ki[i] && d[i] == di[i]);
                assert(s[ki[i]] == init[ki[i]]);
            }
        }
        assert forall|i: int, j: int| 0 <= i < j < k.len() implies #[trigger] k[i] < #[trigger] k[j] by {
            if j < ki.len() {
                assert(k[i] == ki[i] && k[j] == ki[j]);
            } else {
                assert(k[i] == ki[i]);
            }
        }
    }
}

proof fn lemma_with_path_holds(s: Seq<Seq<char>>, p: Seq<char>, q: Seq<char>)
    ensures
        holds_path(with_path(s, p), q) <==> (holds_path(s, q) || paths_equal(p, q)),
{
    lemma_add_then_contains(s, p);
    if holds_path(s, p) && paths_equal(p, q) {
        let i = choose|i: int| 0 <= i < s.len() && paths_equal(#[trigger] s[i], p);
        assert(paths_equal(s[i], q));
    }
    if !holds_path(s, p) && holds_path(with_path(s, p), q) && !paths_equal(p, q) {
        let t = s.push(p);
        let i = choose|i: int| 0 <= i < t.len() && paths_equal(#[trigger] t[i], q);
        assert(i < s.len());
        assert(t[i] == s[i]);
    }
}

proof fn lemma_drop_path_holds(s: Seq<Seq<char>>, p: Seq<char>, q: Seq<char>)
    ensures
        holds_path(drop_path(s, p), q) <==> (holds_path(s, q) && !paths_equal(p, q)),
{
    lemma_remove_then_absent(s, p, q);
    if paths_equal(p, q) && holds_path(drop_path(s, p), q) {
        let d = drop_path(s, p);
        let i = choose|i: int| 0 <= i < d.len() && paths_equal(#[trigger] d[i], q);
        assert(paths_equal(d[i], p));
    }
}

/// The view after `new()` and then, in order, `add(p)` for each `(true, p)`
/// and `remove(p)` for each `(false, p)` of `ops`.
pub open spec fn replay(ops: Seq<(bool, Seq<char>)>) -> Seq<Seq<char>>
    decreases ops.len(),
{
    if ops.len() == 0 {
        Seq::empty()
    } else if ops.last().0 {
        with_path(replay(ops.drop_last()), ops.last().1)
    } else {
        drop_path(replay(ops.drop_last()), ops.last().1)
    }
}

/// Some call of `ops` adds a path that is the same path as `q`, and no later
/// call removes one.
pub open spec fn added_not_removed(ops: Seq<(bool, Seq<char>)>, q: Seq<char>) -> bool {
    exists|i: int|
        0 <= i < ops.len() && (#[trigger] ops[i]).0 && paths_equal(ops[i].1, q) && forall|j: int|
            i < j < ops.len() ==> (#[trigger] ops[j]).0 || !paths_equal(ops[j].1, q)
}

proof fn lemma_added_step(ops: Seq<(bool, Seq<char>)>, x: (bool, Seq<char>), q: Seq<char>)
    ensures
        added_not_removed(ops.push(x), q) <==> if x.0 {
            added_not_removed(ops, q) || paths_equal(x.1, q)
        } else {
            added_not_removed(ops, q) && !paths_equal(x.1, q)
        },
{
    let o = ops.push(x);
    let n = ops.len() as int;
    if added_not_removed(ops, q) && (x.0 || !paths_equal(x.1, q)) {
        let i = choose|i: int|
            0 <= i < ops.len() && (#[trigger] ops[i]).0 && paths_equal(ops[i].1, q) && forall|j: int|
                i < j < ops.len() ==> (#[trigger] ops[j]).0 || !paths_equal(ops[j].1, q);
        assert(o[i] == ops[i]);
        assert forall|j: int| i < j < o.len() implies (#[trigger] o[j]).0 || !paths_equal(o[j].1, q) by {
            if j < n {
                assert(o[j] == ops[j]);
            }
        }
    }
    if x.0 && paths_equal(x.1, q) {
        assert(o[n] == x);
    }
    if added_not_removed(o, q) {
        let i = choose|i: int|
            0 <= i < o.len() && (#[trigger] o[i]).0 && paths_equal(o[i].1, q) && forall|j: int|
                i < j < o.len() ==> (#[trigger] o[j]).0 || !paths_equal(o[j].1, q);
        if i < n {
            assert(o[i] == ops[i]);
            assert forall|j: int| i < j < ops.len() implies (#[trigger] ops[j]).0 || !paths_equal(ops[j].1, q) by {
                assert(o[j] == ops[j]);
            }
            assert(o[n] == x);
        } else {
            assert(o[i] == x);
        }
    }
}

/// For each entry of `replay(ops)`, the index of the call that added it.
pub open spec fn insertion_calls(ops: Seq<(bool, Seq<char>)>) -> Seq<int>
    decreases ops.len(),
{
    if ops.len() == 0 {
        Seq::empty()
    } else {
        let prev = ops.drop_last();
        let o = insertion_calls(prev);
        if ops.last().0 {
            if holds_path(replay(prev), ops.last().1) {
                o
            } else {
                o.push(ops.len() - 1)
            }
        } else {
            kept_indices(replay(prev), ops.last().1).map_values(|k: int| o[k])
        }
    }
}

/// What any sequence of `add` and `remove` calls on a new collection leaves:
/// no two entries are the same path; a path is held exactly when a call added
/// the same path and no later call removed it; and each entry is the text of
/// a call that added it, the entries standing in the order of those calls
/// (`insertion_calls`).
pub proof fn lemma_add_remove_history(ops: Seq<(bool, Seq<char>)>)
    ensures
        distinct_paths(replay(ops)),
        forall|q: Seq<char>| holds_path(replay(ops), q) <==> added_not_removed(ops, q),
        insertion_calls(ops).len() == replay(ops).len(),
        forall|i: int|
            0 <= i < insertion_calls(ops).len() ==> 0 <= #[trigger] insertion_calls(ops)[i] < ops.len()
                && ops[insertion_calls(ops)[i]] == (true, replay(ops)[i]),
        forall|i: int, j: int|
            0 <= i < j < insertion_calls(ops).len() ==> #[trigger] insertion_calls(ops)[i]
                < #[trigger] insertion_calls(ops)[j],
    decreases ops.len(),
{
    let r = replay(ops);
    if ops.len() == 0 {
        assert(r =~= Seq::<Seq<char>>::empty());
    } else {
        let prev = ops.drop_last();
        let x = ops.last();
        let s = replay(prev);
        let po = insertion_calls(prev);
        let o = insertion_calls(ops);
        lemma_add_remove_history(prev);
        assert(ops =~= prev.push(x));
        assert forall|q: Seq<char>| holds_path(r, q) <==> added_not_removed(ops, q) by {
            lemma_added_step(prev, x, q);
            if x.0 {
                lemma_with_path_holds(s, x.1, q);
            } else {
                lemma_drop_path_holds(s, x.1, q);
            }
        }
        if x.0 {
            if holds_path(s, x.1) {
                assert(r == s && o == po);
                assert forall|i: int| 0 <= i < o.len() implies 0 <= #[trigger] o[i] < ops.len() && ops[o[i]] == (true, r[i]) by {
                    assert(ops[po[i]] == prev[po[i]]);
                }
            } else {
                let n = prev.len() as int;
                assert(r == s.push(x.1));
                assert(o == po.push(n));
                assert forall|i: int, j: int| 0 <= i < j < r.len() implies !paths_equal(#[trigger] r[i], #[trigger] r[j]) by {
                    assert(r[i] == s[i]);
                    if j < s.len() {
                        assert(r[j] == s[j]);
                    } else {
                        assert(r[j] == x.1);
                        if paths_equal(s[i], x.1) {
                            assert(holds_path(s, x.1));
                        }
                    }
                }
                assert forall|i: int| 0 <= i < o.len() implies 0 <= #[trigger] o[i] < ops.len() && ops[o[i]] == (true, r[i]) by {
                    if i < po.len() {
                        assert(o[i] == po[i] && r[i] == s[i]);
                        assert(ops[po[i]] == prev[po[i]]);
                    } else {
                        assert(o[i] == n && r[i] == x.1);
                    }
                }
                assert forall|i: int, j: int| 0 <= i < j < o.len() implies #[trigger] o[i] < #[trigger] o[j] by {
                    assert(o[i] == po[i]);
                    if j < po.len() {
                        assert(o[j] == po[j]);
                    }
                }
            }
        } else {
            let k = kept_indices(s, x.1);
            lemma_kept_indices(s, x.1);
            assert(r == drop_path(s, x.1));
            assert(o == k.map_values(|t: int| po[t]));
            assert forall|i: int, j: int| 0 <= i < j < r.len() implies !paths_equal(#[trigger] r[i], #[trigger] r[j]) by {
                assert(k[i] < k[j]);
                assert(r[i] == s[k[i]] && r[j] == s[k[j]]);
            }
            assert forall|i: int| 0 <= i < o.len() implies 0 <= #[trigger] o[i] < ops.len() && ops[o[i]] == (true, r[i]) by {
                assert(o[i] == po[k[i]]);
                assert(0 <= k[i] < s.len() && r[i] == s[k[i]]);
                assert(ops[po[k[i]]] == prev[po[k[i]]]);
            }
            assert forall|i: int, j: int| 0 <= i < j < o.len() implies #[trigger] o[i] < #[trigger] o[j] by {
                assert(k[i] < k[j]);
                assert(o[i] == po[k[i]] && o[j] == po[k[j]]);
            }
        }
    }
}

/// No two entries of `s` are the same path.
pub open spec fn distinct_paths(s: Seq<Seq<char>>) -> bool {
    forall|i: int, j: int| 0 <= i < j < s.len() ==> !paths_equal(#[trigger] s[i], #[trigger] s[j])
}

/// A managed collection of user-selected repository paths, no two of which
/// are the same path.
#[derive(Debug)]
pub struct SelectedRepos {
    repos: Vec<String>,
}

impl View for SelectedRepos {
    type V = Seq<Seq<char>>;

    closed spec fn view(&self) -> Seq<Seq<char>> {
        self.repos@.map_values(|s: String| s@)
    }
}

impl SelectedRepos {
    #[verifier::type_invariant]
    spec fn no_duplicates(self) -> bool {
        distinct_paths(self@)
    }

    /// An empty collection.
    pub fn new() -> (r: Self)
        ensures
            r@ == Seq::<Seq<char>>::empty(),
    {
        let r = SelectedRepos { repos: Vec::new() };
        assert(r@ =~= Seq::<Seq<char>>::empty());
        r
    }

    /// Add a path (ignored if the same path is already present).
    pub fn add(&mut self, path: String)
        ensures
            final(self)@ == with_path(old(self)@, path@),
    {
        proof {
            use_type_invariant(&*self);
        }
        if !self.contains(path.as_str()) {
            let ghost old_view = self@;
            let ghost pv = path@;
            let mut repos: Vec<String> = Vec::new();
            std::mem::swap(&mut repos, &mut self.repos);
            proof {
                assert(repos@.map_values(|s: String| s@) == old_view);
            }
            repos.push(path);
            proof {
                assert(repos@.map_values(|s: String| s@) =~= old_view.push(pv));
                assert forall|i: int, j: int| 0 <= i < j < old_view.len() + 1 implies !paths_equal(
                    #[trigger] old_view.push(pv)[i],
                    #[trigger] old_view.push(pv)[j],
                ) by {
                    if j == old_view.len() {
                        assert(old_view.push(pv)[i] == old_view[i]);
                    }
                }
            }
            self.repos = repos;
        }
    }

    /// Remove every entry that is the same path as `path`.
    pub fn remove(&mut self, path: &str)
        ensures
            final(self)@ == drop_path(old(self)@, path@),
    {
        proof {
            use_type_invariant(&*self);
        }
        let ghost old_view = self@;
        let mut kept: Vec<String> = Vec::new();
        let n = self.repos.len();
        let mut i: usize = 0;
        while i < n
            invariant
                n == self.repos@.len() == old_view.len(),
                old_view == self@,
                distinct_paths(old_view),
                i <= n,
                kept@.map_values(|s: String| s@) == drop_path(old_view.take(i as int), path@),
                forall|k: int| 0 <= k < kept@.len() ==> exists|t: int| 0 <= t < i && (#[trigger] kept@[k])@ == old_view[t],
                forall|k1: int, k2: int| 0 <= k1 < k2 < kept@.len() ==> exists|t1: int, t2: int|
                    0 <= t1 < t2 < i && (#[trigger] kept@[k1])@ == old_view[t1] && (#[trigger] kept@[k2])@ == old_view[t2],
            decreases n - i,
        {
            proof {
                assert(old_view.take(i + 1).drop_last() =~= old_view.take(i as int));
                assert(old_view.take(i + 1).last() == old_view[i as int]);
                assert(self.repos@[i as int]@ == old_view[i as int]);
            }
            if !same_path(self.repos[i].as_str(), path) {
                let ghost before = kept@;
                kept.push(self.repos[i].clone());
                proof {
                    assert(kept@.map_values(|s: String| s@) =~= before.map_values(|s: String| s@).push(old_view[i as int]));
                    assert forall|k: int| 0 <= k < kept@.len() implies exists|t: int| 0 <= t < i + 1 && (#[trigger] kept@[k])@ == old_view[t] by {
                        if k < before.len() {
                            assert(kept@[k] == before[k]);
                        } else {
                            assert(kept@[k]@ == old_view[i as int]);
                        }
                    }
                    assert forall|k1: int, k2: int| 0 <= k1 < k2 < kept@.len() implies exists|t1: int, t2: int|
                        0 <= t1 < t2 < i + 1 && (#[trigger] kept@[k1])@ == old_view[t1] && (#[trigger] kept@[k2])@ == old_view[t2] by {
                        if k2 < before.len() {
                            assert(kept@[k1] == before[k1]);
                            assert(kept@[k2] == before[k2]);
                            let (t1, t2) = choose|t1: int, t2: int|
                                0 <= t1 < t2 < i && (#[trigger] before[k1])@ == old_view[t1] && (#[trigger] before[k2])@ == old_view[t2];
                            assert(0 <= t1 < t2 < i + 1);
                        } else {
                            assert(kept@[k1] == before[k1]);
                            let t1 = choose|t1: int| 0 <= t1 < i && (#[trigger] before[k1])@ == old_view[t1];
                            assert(kept@[k2]@ == old_view[i as int]);
                        }
                    }
                }
            }
            i += 1;
        }
        proof {
            assert(old_view.take(n as int) =~= old_view);
            let kv = kept@.map_values(|s: String| s@);
            assert forall|k1: int, k2: int| 0 <= k1 < k2 < kv.len() implies !paths_equal(#[trigger] kv[k1], #[trigger] kv[k2]) by {
                let (t1, t2) = choose|t1: int, t2: int|
                    0 <= t1 < t2 < n && (#[trigger] kept@[k1])@ == old_view[t1] && (#[trigger] kept@[k2])@ == old_view[t2];
                assert(!paths_equal(old_view[t1], old_view[t2]));
            }
        }
        self.repos = kept;
    }

    /// Whether an entry is the same path as `path`.
    pub fn contains(&self, path: &str) -> (r: bool)
        ensures
            r == holds_path(self@, path@),
    {
        let n = self.repos.len();
        let mut i: usize = 0;
        while i < n
            invariant
                n == self.repos@.len(),
                i <= n,
                forall|k: int| 0 <= k < i ==> !paths_equal(#[trigger] self@[k], path@),
            decreases n - i,
        {
            if same_path(self.repos[i].as_str(), path) {
                assert(paths_equal(self@[i as int], path@));
                return true;
            }
            i += 1;
        }
        false
    }

    /// All selected paths.
    pub fn all(&self) -> (r: &[String])
        ensures
            r@.map_values(|s: String| s@) == self@,
    {
        self.repos.as_slice()
    }

    /// Whether the collection is empty.
    pub fn is_empty(&self) -> (r: bool)
        ensures
            r == (self@.len() == 0),
    {
        self.repos.len() == 0
    }

    /// The number of selected paths.
    pub fn len(&self) -> (r: usize)
        ensures
            r == self@.len(),
    {
        self.repos.len()
    }
}

impl Default for SelectedRepos {
    fn default() -> (r: Self)
        ensures
            r@ == Seq::<Seq<char>>::empty(),
    {
        Self::new()
    }
}

} // verus!
