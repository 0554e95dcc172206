//! Ranking text keys (author names, e-mail domains, file extensions) by how
//! often they occur: most frequent first, equally frequent keys in ascending
//! order of their text (the order of `String`, i.e. of the UTF-8 bytes, which
//! is the order of the code points).

use vstd::prelude::*;
use crate::analysis::grouping::{
    lemma_occurrences_le_len, lemma_occurrences_push, lemma_total_count_insert, lemma_total_count_update,
    occurrences, total_count,
};

verus! {

/// `a` comes before `b` in the lexicographic order of code points.
pub open spec fn lex_lt(a: Seq<char>, b: Seq<char>) -> bool
    decreases a.len(),
{
    if a.len() == 0 {
        b.len() > 0
    } else if b.len() == 0 {
        false
    } else if a[0] != b[0] {
        (a[0] as u32) < (b[0] as u32)
    } else {
        lex_lt(a.drop_first(), b.drop_first())
    }
}

/// Entry `a` is ranked before entry `b`: a higher count, or the same count
/// and a smaller key.
pub open spec fn ranks_before(a: (Seq<char>, nat), b: (Seq<char>, nat)) -> bool {
    a.1 > b.1 || (a.1 == b.1 && lex_lt(a.0, b.0))
}

/// `r` lists each key occurring in `keys` once, with the number of its
/// occurrences, most frequent first and ties by ascending key.
pub open spec fn is_ranking(keys: Seq<Seq<char>>, r: Seq<(Seq<char>, nat)>) -> bool {
    &&& forall|i: int, j: int| 0 <= i < j < r.len() ==> ranks_before(r[i], r[j])
    &&& forall|i: int| 0 <= i < r.len() ==> #[trigger] r[i].1 == occurrences(keys, r[i].0) && r[i].1 > 0
    &&& forall|x: Seq<char>| occurrences(keys, x) > 0 ==> exists|i: int| 0 <= i < r.len() && #[trigger] r[i].0 == x
}

/// The ranking of `keys` (there is exactly one: `lemma_ranking_unique`).
pub open spec fn ranking(keys: Seq<Seq<char>>) -> Seq<(Seq<char>, nat)> {
    choose|r: Seq<(Seq<char>, nat)>| is_ranking(keys, r)
}

/// The views of the texts of `v`.
pub open spec fn string_views(v: Seq<String>) -> Seq<Seq<char>> {
    v.map_values(|s: String| s@)
}

/// A ranking as texts and counts.
pub open spec fn ranking_view(r: Seq<(String, usize)>) -> Seq<(Seq<char>, nat)> {
    r.map_values(|e: (String, usize)| (e.0@, e.1 as nat))
}

pub proof fn lemma_lex_irreflexive(a: Seq<char>)
    ensures
        !lex_lt(a, a),
    decreases a.len(),
{
    if a.len() > 0 {
        lemma_lex_irreflexive(a.drop_first());
    }
}

pub proof fn lemma_lex_asymmetric(a: Seq<char>, b: Seq<char>)
    ensures
        lex_lt(a, b) ==> !lex_lt(b, a),
    decreases a.len(),
{
    if a.len() > 0 && b.len() > 0 && a[0] == b[0] {
        lemma_lex_asymmetric(a.drop_first(), b.drop_first());
    }
}

pub proof fn lemma_lex_transitive(a: Seq<char>, b: Seq<char>, c: Seq<char>)
    ensures
        lex_lt(a, b) && lex_lt(b, c) ==> lex_lt(a, c),
    decreases a.len(),
{
    if a.len() > 0 && b.len() > 0 && c.len() > 0 && a[0] == b[0] && b[0] == c[0] {
        lemma_lex_transitive(a.drop_first(), b.drop_first(), c.drop_first());
    }
}

proof fn lemma_char_code(a: char, b: char)
    ensures
        a != b ==> (a as u32) != (b as u32),
{
    assert((a as u32) as int == a as int);
    assert((b as u32) as int == b as int);
}

pub proof fn lemma_lex_total(a: Seq<char>, b: Seq<char>)
    ensures
        a != b ==> lex_lt(a, b) || lex_lt(b, a),
    decreases a.len(),
{
    if a.len() > 0 && b.len() > 0 {
        if a[0] == b[0] {
            lemma_lex_total(a.drop_first(), b.drop_first());
            if a.drop_first() == b.drop_first() {
                assert(a.drop_first().len() == b.drop_first().len());
                assert(a.len() == b.len());
                assert forall|i: int| 0 <= i < a.len() implies a[i] == b[i] by {
                    if i > 0 {
                        assert(a[i] == a.drop_first()[i - 1]);
                        assert(b[i] == b.drop_first()[i - 1]);
                    }
                }
                assert(a =~= b);
            }
        } else {
            lemma_char_code(a[0], b[0]);
        }
    } else if a.len() == 0 && b.len() == 0 {
        assert(a =~= b);
    }
}

/// `ranks_before` is a strict total order on entries with different keys.
pub proof fn lemma_ranks_before_order(a: (Seq<char>, nat), b: (Seq<char>, nat), c: (Seq<char>, nat))
    ensures
        !ranks_before(a, a),
        ranks_before(a, b) ==> !ranks_before(b, a),
        ranks_before(a, b) && ranks_before(b, c) ==> ranks_before(a, c),
        a.0 != b.0 ==> ranks_before(a, b) || ranks_before(b, a),
{
    lemma_lex_irreflexive(a.0);
    lemma_lex_asymmetric(a.0, b.0);
    lemma_lex_transitive(a.0, b.0, c.0);
    lemma_lex_total(a.0, b.0);
}

/// Whether `a` comes before `b` in the lexicographic order of code points.
pub fn lex_less(a: &Vec<char>, b: &Vec<char>) -> (r: bool)
    ensures
        r == lex_lt(a@, b@),
{
    let mut i: usize = 0;
    assert(a@.skip(0) =~= a@);
    assert(b@.skip(0) =~= b@);
    while i < a.len() && i < b.len() && a[i] == b[i]
        invariant
            i <= a.len(),
            i <= b.len(),
            lex_lt(a@, b@) == lex_lt(a@.skip(i as int), b@.skip(i as int)),
        decreases a.len() - i,
    {
        proof {
            assert(a@.skip(i as int).drop_first() =~= a@.skip(i + 1));
            assert(b@.skip(i as int).drop_first() =~= b@.skip(i + 1));
        }
        i += 1;
    }
    if i == a.len() {
        i < b.len()
    } else if i == b.len() {
        false
    } else {
        (a[i] as u32) < (b[i] as u32)
    }
}

/// Each distinct key of `keys` once (in order of first appearance) with the
/// number of its occurrences.
fn tally(keys: &Vec<String>) -> (r: Vec<(String, usize)>)
    ensures
        forall|i: int, j: int| 0 <= i < j < r@.len() ==> r@[i].0@ != r@[j].0@,
        forall|i: int|
            0 <= i < r@.len() ==> #[trigger] r@[i].1 == occurrences(string_views(keys@), r@[i].0@)
                && r@[i].1 > 0,
        forall|x: Seq<char>|
            occurrences(string_views(keys@), x) > 0 ==> exists|i: int|
                0 <= i < r@.len() && #[trigger] r@[i].0@ == x,
        total_count(r@) == keys@.len(),
{
    let mut r: Vec<(String, usize)> = Vec::new();
    let n = keys.len();
    let ghost all = string_views(keys@);
    let mut j: usize = 0;
    while j < n
        invariant
            n == keys@.len(),
            all == string_views(keys@),
            j <= n,
            forall|i: int, i2: int| 0 <= i < i2 < r@.len() ==> r@[i].0@ != r@[i2].0@,
            forall|i: int|
                0 <= i < r@.len() ==> #[trigger] r@[i].1 == occurrences(all.take(j as int), r@[i].0@)
                    && r@[i].1 > 0,
            forall|x: Seq<char>|
                occurrences(all.take(j as int), x) > 0 ==> exists|i: int|
                    0 <= i < r@.len() && #[trigger] r@[i].0@ == x,
            total_count(r@) == j,
        decreases n - j,
    {
        let k = &keys[j];
        let ghost before = all.take(j as int);
        let ghost after = all.take(j + 1);
        proof {
            assert(after =~= before.push(k@));
            assert forall|x: Seq<char>| occurrences(after, x) == occurrences(before, x) + if k@ == x {
                1nat
            } else {
                0nat
            } by {
                lemma_occurrences_push(before, k@, x);
            }
            lemma_occurrences_le_len(before, k@);
        }
        let mut p: usize = 0;
        while p < r.len() && !(r[p].0 == *k)
            invariant
                p <= r@.len(),
                forall|q: int| 0 <= q < p ==> r@[q].0@ != k@,
            decreases r.len() - p,
        {
            p += 1;
        }
        let ghost old_r = r@;
        if p < r.len() {
            let c = r[p].1;
            let key = r[p].0.clone();
            r.set(p, (key, c + 1));
            proof {
                lemma_total_count_update(old_r, p as int, (key, (c + 1) as usize));
                assert forall|x: Seq<char>| occurrences(after, x) > 0 implies exists|i: int|
                    0 <= i < r@.len() && #[trigger] r@[i].0@ == x by {
                    if x != k@ {
                        let i = choose|i: int| 0 <= i < old_r.len() && old_r[i].0@ == x;
                        assert(r@[i].0@ == x);
                    } else {
                        assert(r@[p as int].0@ == x);
                    }
                }
            }
        } else {
            proof {
                if occurrences(before, k@) > 0 {
                    let i = choose|i: int| 0 <= i < old_r.len() && old_r[i].0@ == k@;
                }
            }
            let kc = k.clone();
            r.push((kc, 1));
            proof {
                assert(r@ =~= old_r.insert(old_r.len() as int, (kc, 1usize)));
                lemma_total_count_insert(old_r, old_r.len() as int, (kc, 1usize));
                assert forall|x: Seq<char>| occurrences(after, x) > 0 implies exists|i: int|
                    0 <= i < r@.len() && #[trigger] r@[i].0@ == x by {
                    if x != k@ {
                        let i = choose|i: int| 0 <= i < old_r.len() && old_r[i].0@ == x;
                        assert(r@[i].0@ == x);
                    } else {
                        assert(r@[p as int].0@ == x);
                    }
                }
            }
        }
        j += 1;
    }
    proof {
        assert(all.take(n as int) =~= all);
    }
    r
}

/// `r` is ordered by `ranks_before`.
pub open spec fn sorted_ranking(r: Seq<(Seq<char>, nat)>) -> bool {
    forall|i: int, j: int| 0 <= i < j < r.len() ==> ranks_before(r[i], r[j])
}

/// Insert an entry whose key is not yet in `r` at its place in the order,
/// returning the place.
fn insert_ranked(r: &mut Vec<(String, usize)>, rk: &mut Vec<Vec<char>>, e_key: String, e_count: usize) -> (p: usize)
    requires
        old(rk)@.len() == old(r)@.len(),
        forall|i: int| 0 <= i < old(r)@.len() ==> (#[trigger] old(rk)@[i])@ == old(r)@[i].0@,
        forall|i: int| 0 <= i < old(r)@.len() ==> (#[trigger] old(r)@[i]).0@ != e_key@,
        sorted_ranking(ranking_view(old(r)@)),
    ensures
        p <= old(r)@.len(),
        final(r)@ == old(r)@.insert(p as int, (e_key, e_count)),
        final(rk)@.len() == final(r)@.len(),
        forall|i: int| 0 <= i < final(r)@.len() ==> (#[trigger] final(rk)@[i])@ == final(r)@[i].0@,
        sorted_ranking(ranking_view(final(r)@)),
{
    let e_chars = crate::text::chars_of(e_key.as_str());
    let ghost ev = (e_key@, e_count as nat);
    let mut p: usize = 0;
    while p < r.len() && (r[p].1 > e_count || (r[p].1 == e_count && lex_less(&rk[p], &e_chars)))
        invariant
            p <= r@.len(),
            rk@.len() == r@.len(),
            forall|i: int| 0 <= i < r@.len() ==> (#[trigger] rk@[i])@ == r@[i].0@,
            e_chars@ == e_key@,
            ev == (e_key@, e_count as nat),
            forall|q: int| 0 <= q < p ==> ranks_before(#[trigger] ranking_view(r@)[q], ev),
        decreases r.len() - p,
    {
        p += 1;
    }
    let ghost old_r = r@;
    let ghost ov = ranking_view(old_r);
    proof {
        if p < old_r.len() {
            lemma_ranks_before_order(ov[p as int], ev, ev);
            assert(ranks_before(ev, ov[p as int]));
            assert forall|q: int| p <= q < old_r.len() implies ranks_before(ev, #[trigger] ov[q]) by {
                if q > p {
                    lemma_ranks_before_order(ev, ov[p as int], ov[q]);
                }
            }
        }
    }
    r.insert(p, (e_key, e_count));
    rk.insert(p, e_chars);
    proof {
        assert(ranking_view(r@) =~= ov.insert(p as int, ev));
        assert forall|i: int, i2: int|
            0 <= i < i2 < r@.len() implies ranks_before(
            ranking_view(r@)[i],
            ranking_view(r@)[i2],
        ) by {
            if i < p && i2 > p {
                lemma_ranks_before_order(ov[i], ev, ov[i2 - 1]);
            }
        }
    }
    p
}

/// `r` holds exactly the entries `t[..j]`, in some order.
#[verifier::opaque]
pub open spec fn arranges(r: Seq<(String, usize)>, t: Seq<(String, usize)>, j: int) -> bool {
    &&& forall|i: int| 0 <= i < r.len() ==> exists|t2: int| 0 <= t2 < j && #[trigger] r[i] == t[t2]
    &&& forall|t2: int| 0 <= t2 < j ==> exists|i: int| 0 <= i < r.len() && r[i] == #[trigger] t[t2]
}

proof fn lemma_arranges_empty(t: Seq<(String, usize)>)
    ensures
        arranges(Seq::empty(), t, 0),
{
    reveal(arranges);
}

/// Inserting `t[j]` into an arrangement of `t[..j]` gives one of `t[..j + 1]`.
proof fn lemma_insert_keeps_members(
    old_r: Seq<(String, usize)>,
    r: Seq<(String, usize)>,
    t: Seq<(String, usize)>,
    j: int,
    p: int,
)
    requires
        0 <= j < t.len(),
        0 <= p <= old_r.len(),
        r == old_r.insert(p, t[j]),
        arranges(old_r, t, j),
    ensures
        arranges(r, t, j + 1),
{
    reveal(arranges);
    assert forall|i: int| 0 <= i < r.len() implies exists|t2: int| 0 <= t2 < j + 1 && #[trigger] r[i] == t[t2] by {
        if i < p {
            let t2 = choose|t2: int| 0 <= t2 < j && #[trigger] old_r[i] == t[t2];
            assert(r[i] == t[t2]);
        } else if i == p {
            assert(r[i] == t[j]);
        } else {
            let t2 = choose|t2: int| 0 <= t2 < j && #[trigger] old_r[i - 1] == t[t2];
            assert(r[i] == t[t2]);
        }
    }
    assert forall|t2: int| 0 <= t2 < j + 1 implies exists|i: int| 0 <= i < r.len() && r[i] == #[trigger] t[t2] by {
        if t2 == j {
            assert(r[p] == t[t2]);
        } else {
            let i = choose|i: int| 0 <= i < old_r.len() && old_r[i] == #[trigger] t[t2];
            if i < p {
                assert(r[i] == t[t2]);
            } else {
                assert(r[i + 1] == t[t2]);
            }
        }
    }
}

proof fn lemma_new_key_absent(old_r: Seq<(String, usize)>, t: Seq<(String, usize)>, j: int)
    requires
        0 <= j < t.len(),
        forall|i: int, i2: int| 0 <= i < i2 < t.len() ==> t[i].0@ != t[i2].0@,
        arranges(old_r, t, j),
    ensures
        forall|i: int| 0 <= i < old_r.len() ==> (#[trigger] old_r[i]).0@ != t[j].0@,
{
    reveal(arranges);
    assert forall|i: int| 0 <= i < old_r.len() implies (#[trigger] old_r[i]).0@ != t[j].0@ by {
        let t2 = choose|t2: int| 0 <= t2 < j && #[trigger] old_r[i] == t[t2];
        assert(t[t2].0@ != t[j].0@);
    }
}

proof fn lemma_total_take_step<K>(t: Seq<(K, usize)>, j: int)
    requires
        0 <= j < t.len(),
    ensures
        total_count(t.take(j + 1)) == total_count(t.take(j)) + t[j].1,
{
    assert(t.take(j + 1).drop_last() =~= t.take(j));
}

/// An arrangement sorted by `ranks_before` of a tally of `all` is its ranking.
proof fn lemma_arrangement_is_ranking(all: Seq<Seq<char>>, t: Seq<(String, usize)>, r: Seq<(String, usize)>)
    requires
        forall|i: int| 0 <= i < t.len() ==> #[trigger] t[i].1 == occurrences(all, t[i].0@) && t[i].1 > 0,
        forall|x: Seq<char>| occurrences(all, x) > 0 ==> exists|i: int| 0 <= i < t.len() && #[trigger] t[i].0@ == x,
        sorted_ranking(ranking_view(r)),
        arranges(r, t, t.len() as int),
    ensures
        is_ranking(all, ranking_view(r)),
        ranking_view(r) == ranking(all),
{
    reveal(arranges);
    let rv = ranking_view(r);
    assert forall|i: int| 0 <= i < rv.len() implies #[trigger] rv[i].1 == occurrences(all, rv[i].0) && rv[i].1 > 0 by {
        let t2 = choose|t2: int| 0 <= t2 < t.len() && #[trigger] r[i] == t[t2];
        assert(t[t2].1 == occurrences(all, t[t2].0@));
    }
    assert forall|x: Seq<char>| occurrences(all, x) > 0 implies exists|i: int| 0 <= i < rv.len() && #[trigger] rv[i].0 == x by {
        let t2 = choose|t2: int| 0 <= t2 < t.len() && #[trigger] t[t2].0@ == x;
        let i = choose|i: int| 0 <= i < r.len() && r[i] == #[trigger] t[t2];
        assert(rv[i].0 == x);
    }
    assert(is_ranking(all, rv));
    lemma_ranking_unique(all, rv, ranking(all));
}

/// Rank the keys of `keys` by number of occurrences, most frequent first,
/// equally frequent keys in ascending order.
pub fn rank_keys(keys: &Vec<String>) -> (r: Vec<(String, usize)>)
    ensures
        is_ranking(string_views(keys@), ranking_view(r@)),
        ranking_view(r@) == ranking(string_views(keys@)),
        total_count(r@) == keys@.len(),
{
    let t = tally(keys);
    let ghost all = string_views(keys@);
    let mut r: Vec<(String, usize)> = Vec::new();
    let mut rk: Vec<Vec<char>> = Vec::new();
    let n = t.len();
    let mut j: usize = 0;
    proof {
        lemma_arranges_empty(t@);
    }
    while j < n
        invariant
            n == t@.len(),
            j <= n,
            rk@.len() == r@.len(),
            forall|i: int| 0 <= i < r@.len() ==> (#[trigger] rk@[i])@ == r@[i].0@,
            forall|i: int, i2: int| 0 <= i < i2 < t@.len() ==> t@[i].0@ != t@[i2].0@,
            sorted_ranking(ranking_view(r@)),
            arranges(r@, t@, j as int),
            total_count(r@) == total_count(t@.take(j as int)),
        decreases n - j,
    {
        let e_key = t[j].0.clone();
        let e_count = t[j].1;
        let ghost old_r = r@;
        proof {
            lemma_new_key_absent(old_r, t@, j as int);
        }
        let p = insert_ranked(&mut r, &mut rk, e_key, e_count);
        proof {
            assert(r@ == old_r.insert(p as int, t@[j as int]));
            lemma_total_count_insert(old_r, p as int, t@[j as int]);
            lemma_total_take_step(t@, j as int);
            lemma_insert_keeps_members(old_r, r@, t@, j as int, p as int);
        }
        j += 1;
    }
    proof {
        assert(t@.take(n as int) =~= t@);
        lemma_arrangement_is_ranking(all, t@, r@);
    }
    r
}

/// Two sequences sorted by `ranks_before` with the same members are equal.
proof fn lemma_sorted_same_members(a: Seq<(Seq<char>, nat)>, b: Seq<(Seq<char>, nat)>)
    requires
        forall|i: int, j: int| 0 <= i < j < a.len() ==> ranks_before(a[i], a[j]),
        forall|i: int, j: int| 0 <= i < j < b.len() ==> ranks_before(b[i], b[j]),
        forall|x: (Seq<char>, nat)| a.contains(x) <==> b.contains(x),
    ensures
        a == b,
    decreases a.len() + b.len(),
{
    if a.len() == 0 || b.len() == 0 {
        if a.len() > 0 {
            assert(a.contains(a[0]));
        }
        if b.len() > 0 {
            assert(b.contains(b[0]));
        }
        assert(a =~= b);
    } else {
        assert(a.contains(a[0]));
        assert(b.contains(b[0]));
        let ia = choose|i: int| 0 <= i < a.len() && a[i] == b[0];
        let ib = choose|i: int| 0 <= i < b.len() && b[i] == a[0];
        if a[0] != b[0] {
            lemma_ranks_before_order(a[0], a[ia], a[0]);
            lemma_ranks_before_order(b[0], b[ib], b[0]);
            assert(ia != 0 && ib != 0);
            assert(ranks_before(a[0], b[0]));
            assert(ranks_before(b[0], a[0]));
            lemma_ranks_before_order(a[0], b[0], a[0]);
        }
        let a1 = a.drop_first();
        let b1 = b.drop_first();
        assert forall|x: (Seq<char>, nat)| a1.contains(x) <==> b1.contains(x) by {
            if a1.contains(x) {
                let i = choose|i: int| 0 <= i < a1.len() && a1[i] == x;
                assert(a[i + 1] == x);
                assert(a.contains(x));
                let k = choose|k: int| 0 <= k < b.len() && b[k] == x;
                lemma_ranks_before_order(a[0], x, a[0]);
                assert(ranks_before(a[0], a[i + 1]));
                assert(k != 0);
                assert(b1[k - 1] == x);
            }
            if b1.contains(x) {
                let i = choose|i: int| 0 <= i < b1.len() && b1[i] == x;
                assert(b[i + 1] == x);
                assert(b.contains(x));
                let k = choose|k: int| 0 <= k < a.len() && a[k] == x;
                lemma_ranks_before_order(b[0], x, b[0]);
                assert(ranks_before(b[0], b[i + 1]));
                assert(k != 0);
                assert(a1[k - 1] == x);
            }
        }
        lemma_sorted_same_members(a1, b1);
        assert forall|i: int| 0 <= i < a.len() implies a[i] == b[i] by {
            if i > 0 {
                assert(a[i] == a1[i - 1]);
                assert(b[i] == b1[i - 1]);
            }
        }
        assert(a =~= b);
    }
}

/// A ranking is determined by its keys.
pub proof fn lemma_ranking_unique(keys: Seq<Seq<char>>, r: Seq<(Seq<char>, nat)>, s: Seq<(Seq<char>, nat)>)
    requires
        is_ranking(keys, r),
        is_ranking(keys, s),
    ensures
        r == s,
{
    assert forall|x: (Seq<char>, nat)| r.contains(x) <==> s.contains(x) by {
        if r.contains(x) {
            let i = choose|i: int| 0 <= i < r.len() && r[i] == x;
            assert(r[i].1 == occurrences(keys, r[i].0) && r[i].1 > 0);
            let j = choose|j: int| 0 <= j < s.len() && #[trigger] s[j].0 == x.0;
            assert(s[j].1 == occurrences(keys, s[j].0));
            assert(s[j] == x);
        }
        if s.contains(x) {
            let i = choose|i: int| 0 <= i < s.len() && s[i] == x;
            assert(s[i].1 == occurrences(keys, s[i].0) && s[i].1 > 0);
            let j = choose|j: int| 0 <= j < r.len() && #[trigger] r[j].0 == x.0;
            assert(r[j].1 == occurrences(keys, r[j].0));
            assert(r[j] == x);
        }
    }
    lemma_sorted_same_members(r, s);
}

} // verus!
