//! Grouping by integer keys (day numbers, week starts, month indices): the
//! keys in ascending order, each with how often it occurs or with the sums of
//! the values that come with it.

use vstd::prelude::*;

verus! {

/// How many times `k` occurs in `s`.
pub open spec fn occurrences<K>(s: Seq<K>, k: K) -> nat
    decreases s.len(),
{
    if s.len() == 0 {
        0
    } else {
        occurrences(s.drop_last(), k) + if s.last() == k {
            1nat
        } else {
            0nat
        }
    }
}

/// The keys of `r` are strictly ascending.
pub open spec fn ascending_keys<V>(r: Seq<(i32, V)>) -> bool {
    forall|i: int, j: int| 0 <= i < j < r.len() ==> r[i].0 < r[j].0
}

/// `r` lists each key occurring in `keys` once, in ascending order, with the
/// number of its occurrences.
pub open spec fn is_histogram(keys: Seq<i32>, r: Seq<(i32, usize)>) -> bool {
    &&& ascending_keys(r)
    &&& forall|i: int| 0 <= i < r.len() ==> #[trigger] r[i].1 == occurrences(keys, r[i].0) && r[i].1 > 0
    &&& forall|x: i32| occurrences(keys, x) > 0 ==> exists|i: int| 0 <= i < r.len() && #[trigger] r[i].0 == x
}

/// The histogram of `keys` (there is exactly one: `lemma_histogram_unique`).
pub open spec fn histogram(keys: Seq<i32>) -> Seq<(i32, usize)> {
    choose|r: Seq<(i32, usize)>| is_histogram(keys, r)
}

/// Sum of the insertions (`.1`) of the entries with day `k`.
pub open spec fn insertions_on(entries: Seq<(i32, u32, u32)>, k: i32) -> nat
    decreases entries.len(),
{
    if entries.len() == 0 {
        0
    } else {
        insertions_on(entries.drop_last(), k) + if entries.last().0 == k {
            entries.last().1 as nat
        } else {
            0nat
        }
    }
}

/// Sum of the deletions (`.2`) of the entries with day `k`.
pub open spec fn deletions_on(entries: Seq<(i32, u32, u32)>, k: i32) -> nat
    decreases entries.len(),
{
    if entries.len() == 0 {
        0
    } else {
        deletions_on(entries.drop_last(), k) + if entries.last().0 == k {
            entries.last().2 as nat
        } else {
            0nat
        }
    }
}

/// The day keys of `entries`.
pub open spec fn entry_days(entries: Seq<(i32, u32, u32)>) -> Seq<i32> {
    entries.map_values(|e: (i32, u32, u32)| e.0)
}

/// `r` lists each day occurring in `entries` once, in ascending order, with the
/// sums of insertions and deletions of that day.
pub open spec fn is_daily_sum(entries: Seq<(i32, u32, u32)>, r: Seq<(i32, i32, i32)>) -> bool {
    &&& forall|i: int, j: int| 0 <= i < j < r.len() ==> r[i].0 < r[j].0
    &&& forall|i: int|
        0 <= i < r.len() ==> {
            &&& occurrences(entry_days(entries), #[trigger] r[i].0) > 0
            &&& r[i].1 == insertions_on(entries, r[i].0)
            &&& r[i].2 == deletions_on(entries, r[i].0)
        }
    &&& forall|x: i32|
        occurrences(entry_days(entries), x) > 0 ==> exists|i: int| 0 <= i < r.len() && #[trigger] r[i].0 == x
}

/// The per-day sums of `entries` (there is exactly one: `lemma_daily_sum_unique`).
pub open spec fn daily_sum(entries: Seq<(i32, u32, u32)>) -> Seq<(i32, i32, i32)> {
    choose|r: Seq<(i32, i32, i32)>| is_daily_sum(entries, r)
}

/// No day's insertions or deletions exceed what an `i32` holds.
pub open spec fn daily_sums_fit(entries: Seq<(i32, u32, u32)>) -> bool {
    forall|x: i32| insertions_on(entries, x) <= i32::MAX && deletions_on(entries, x) <= i32::MAX
}

/// The sum of the counts of `r`.
pub open spec fn total_count<K>(r: Seq<(K, usize)>) -> int
    decreases r.len(),
{
    if r.len() == 0 {
        0
    } else {
        total_count(r.drop_last()) + r.last().1
    }
}

/// Replacing an entry changes the total by the difference of the counts.
pub proof fn lemma_total_count_update<K>(r: Seq<(K, usize)>, p: int, x: (K, usize))
    requires
        0 <= p < r.len(),
    ensures
        total_count(r.update(p, x)) == total_count(r) - r[p].1 + x.1,
    decreases r.len(),
{
    let u = r.update(p, x);
    if p == r.len() - 1 {
        assert(u.drop_last() =~= r.drop_last());
    } else {
        assert(u.drop_last() =~= r.drop_last().update(p, x));
        lemma_total_count_update(r.drop_last(), p, x);
    }
}

/// Inserting an entry adds its count to the total.
pub proof fn lemma_total_count_insert<K>(r: Seq<(K, usize)>, p: int, x: (K, usize))
    requires
        0 <= p <= r.len(),
    ensures
        total_count(r.insert(p, x)) == total_count(r) + x.1,
    decreases r.len(),
{
    let u = r.insert(p, x);
    if p == r.len() {
        assert(u.drop_last() =~= r);
    } else {
        assert(u.drop_last() =~= r.drop_last().insert(p, x));
        lemma_total_count_insert(r.drop_last(), p, x);
    }
}

/// The insertions of all entries.
pub open spec fn inserted_total(entries: Seq<(i32, u32, u32)>) -> int
    decreases entries.len(),
{
    if entries.len() == 0 {
        0
    } else {
        inserted_total(entries.drop_last()) + entries.last().1
    }
}

/// The deletions of all entries.
pub open spec fn deleted_total(entries: Seq<(i32, u32, u32)>) -> int
    decreases entries.len(),
{
    if entries.len() == 0 {
        0
    } else {
        deleted_total(entries.drop_last()) + entries.last().2
    }
}

/// The insertions (`.1`) summed over the days of `r`.
pub open spec fn daily_inserted_total(r: Seq<(i32, i32, i32)>) -> int
    decreases r.len(),
{
    if r.len() == 0 {
        0
    } else {
        daily_inserted_total(r.drop_last()) + r.last().1
    }
}

/// The deletions (`.2`) summed over the days of `r`.
pub open spec fn daily_deleted_total(r: Seq<(i32, i32, i32)>) -> int
    decreases r.len(),
{
    if r.len() == 0 {
        0
    } else {
        daily_deleted_total(r.drop_last()) + r.last().2
    }
}

proof fn lemma_daily_totals_update(r: Seq<(i32, i32, i32)>, p: int, x: (i32, i32, i32))
    requires
        0 <= p < r.len(),
    ensures
        daily_inserted_total(r.update(p, x)) == daily_inserted_total(r) - r[p].1 + x.1,
        daily_deleted_total(r.update(p, x)) == daily_deleted_total(r) - r[p].2 + x.2,
    decreases r.len(),
{
    let u = r.update(p, x);
    if p == r.len() - 1 {
        assert(u.drop_last() =~= r.drop_last());
    } else {
        assert(u.drop_last() =~= r.drop_last().update(p, x));
        lemma_daily_totals_update(r.drop_last(), p, x);
    }
}

proof fn lemma_daily_totals_insert(r: Seq<(i32, i32, i32)>, p: int, x: (i32, i32, i32))
    requires
        0 <= p <= r.len(),
    ensures
        daily_inserted_total(r.insert(p, x)) == daily_inserted_total(r) + x.1,
        daily_deleted_total(r.insert(p, x)) == daily_deleted_total(r) + x.2,
    decreases r.len(),
{
    let u = r.insert(p, x);
    if p == r.len() {
        assert(u.drop_last() =~= r);
    } else {
        assert(u.drop_last() =~= r.drop_last().insert(p, x));
        lemma_daily_totals_insert(r.drop_last(), p, x);
    }
}

/// Entries with the same counts, position by position, have the same total.
pub proof fn lemma_total_count_same_counts<K, L>(a: Seq<(K, usize)>, b: Seq<(L, usize)>)
    requires
        a.len() == b.len(),
        forall|i: int| 0 <= i < a.len() ==> (#[trigger] a[i]).1 == b[i].1,
    ensures
        total_count(a) == total_count(b),
    decreases a.len(),
{
    if a.len() > 0 {
        let a1 = a.drop_last();
        let b1 = b.drop_last();
        assert forall|i: int| 0 <= i < a1.len() implies (#[trigger] a1[i]).1 == b1[i].1 by {
            assert(a1[i] == a[i]);
            assert(b1[i] == b[i]);
        }
        lemma_total_count_same_counts(a1, b1);
    }
}

pub proof fn lemma_occurrences_push<K>(s: Seq<K>, x: K, k: K)
    ensures
        occurrences(s.push(x), k) == occurrences(s, k) + if x == k {
            1nat
        } else {
            0nat
        },
{
    assert(s.push(x).drop_last() =~= s);
}

/// A key that occurs stands at some index.
pub proof fn lemma_occurrences_positive<K>(s: Seq<K>, k: K)
    requires
        occurrences(s, k) > 0,
    ensures
        exists|t: int| 0 <= t < s.len() && s[t] == k,
    decreases s.len(),
{
    if s.last() != k {
        lemma_occurrences_positive(s.drop_last(), k);
        let t = choose|t: int| 0 <= t < s.len() - 1 && s.drop_last()[t] == k;
        assert(s[t] == k);
    } else {
        assert(s[s.len() - 1] == k);
    }
}

pub proof fn lemma_occurrences_le_len<K>(s: Seq<K>, k: K)
    ensures
        occurrences(s, k) <= s.len(),
    decreases s.len(),
{
    if s.len() > 0 {
        lemma_occurrences_le_len(s.drop_last(), k);
    }
}

proof fn lemma_sums_prefix(entries: Seq<(i32, u32, u32)>, j: int, k: i32)
    requires
        0 <= j <= entries.len(),
    ensures
        insertions_on(entries.take(j), k) <= insertions_on(entries, k),
        deletions_on(entries.take(j), k) <= deletions_on(entries, k),
    decreases entries.len(),
{
    if j < entries.len() {
        lemma_sums_prefix(entries.drop_last(), j, k);
        assert(entries.drop_last().take(j) =~= entries.take(j));
    } else {
        assert(entries.take(j) =~= entries);
    }
}

proof fn lemma_entry_days_take(entries: Seq<(i32, u32, u32)>, j: int)
    requires
        0 <= j < entries.len(),
    ensures
        entry_days(entries.take(j + 1)) == entry_days(entries.take(j)).push(entries[j].0),
{
    assert(entry_days(entries.take(j + 1)) =~= entry_days(entries.take(j)).push(entries[j].0));
}

/// Two strictly ascending key lists with the same members are equal.
proof fn lemma_ascending_same_members(a: Seq<i32>, b: Seq<i32>)
    requires
        forall|i: int, j: int| 0 <= i < j < a.len() ==> a[i] < a[j],
        forall|i: int, j: int| 0 <= i < j < b.len() ==> b[i] < b[j],
        forall|x: i32| a.contains(x) <==> b.contains(x),
    ensures
        a == b,
    decreases a.len() + b.len(),
{
    if a.len() == 0 || b.len() == 0 {
        if a.len() > 0 {
            assert(a.contains(a[0]));
        }
        if b.len() > 0 {
            assert(b.contains(b[0]));
        }
        assert(a =~= b);
    } else {
        // The smallest members agree.
        assert(a.contains(a[0]));
        assert(b.contains(b[0]));
        let ia = choose|i: int| 0 <= i < a.len() && a[i] == b[0];
        let ib = choose|i: int| 0 <= i < b.len() && b[i] == a[0];
        assert(a[0] <= a[ia]);
        assert(b[0] <= b[ib]);
        assert(a[0] == b[0]);
        let a1 = a.drop_first();
        let b1 = b.drop_first();
        assert forall|x: i32| a1.contains(x) <==> b1.contains(x) by {
            if a1.contains(x) {
                let i = choose|i: int| 0 <= i < a1.len() && a1[i] == x;
                assert(a[i + 1] == x);
                assert(a.contains(x));
                let k = choose|k: int| 0 <= k < b.len() && b[k] == x;
                assert(k != 0);
                assert(b1[k - 1] == x);
            }
            if b1.contains(x) {
                let i = choose|i: int| 0 <= i < b1.len() && b1[i] == x;
                assert(b[i + 1] == x);
                assert(b.contains(x));
                let k = choose|k: int| 0 <= k < a.len() && a[k] == x;
                assert(k != 0);
                assert(a1[k - 1] == x);
            }
        }
        lemma_ascending_same_members(a1, b1);
        assert forall|i: int| 0 <= i < a.len() implies a[i] == b[i] by {
            if i > 0 {
                assert(a[i] == a1[i - 1]);
                assert(b[i] == b1[i - 1]);
            }
        }
        assert(a =~= b);
    }
}

/// A histogram is determined by its keys.
pub proof fn lemma_histogram_unique(keys: Seq<i32>, r: Seq<(i32, usize)>, s: Seq<(i32, usize)>)
    requires
        is_histogram(keys, r),
        is_histogram(keys, s),
    ensures
        r == s,
{
    let a = r.map_values(|e: (i32, usize)| e.0);
    let b = s.map_values(|e: (i32, usize)| e.0);
    assert forall|x: i32| a.contains(x) <==> b.contains(x) by {
        if a.contains(x) {
            let i = choose|i: int| 0 <= i < a.len() && a[i] == x;
            assert(r[i].0 == x && r[i].1 > 0);
            let j = choose|j: int| 0 <= j < s.len() && #[trigger] s[j].0 == x;
            assert(b[j] == x);
        }
        if b.contains(x) {
            let i = choose|i: int| 0 <= i < b.len() && b[i] == x;
            assert(s[i].0 == x && s[i].1 > 0);
            let j = choose|j: int| 0 <= j < r.len() && #[trigger] r[j].0 == x;
            assert(a[j] == x);
        }
    }
    lemma_ascending_same_members(a, b);
    assert(r.len() == a.len() && s.len() == b.len());
    assert forall|i: int| 0 <= i < r.len() implies r[i] == s[i] by {
        assert(a[i] == b[i]);
        assert(r[i].0 == s[i].0);
        assert(r[i].1 == occurrences(keys, r[i].0));
        assert(s[i].1 == occurrences(keys, s[i].0));
    }
    assert(r =~= s);
}

/// The per-day sums are determined by the entries.
pub proof fn lemma_daily_sum_unique(entries: Seq<(i32, u32, u32)>, r: Seq<(i32, i32, i32)>, s: Seq<(i32, i32, i32)>)
    requires
        is_daily_sum(entries, r),
        is_daily_sum(entries, s),
    ensures
        r == s,
{
    let a = r.map_values(|e: (i32, i32, i32)| e.0);
    let b = s.map_values(|e: (i32, i32, i32)| e.0);
    assert forall|x: i32| a.contains(x) <==> b.contains(x) by {
        if a.contains(x) {
            let i = choose|i: int| 0 <= i < a.len() && a[i] == x;
            assert(r[i].0 == x);
            let j = choose|j: int| 0 <= j < s.len() && #[trigger] s[j].0 == x;
            assert(b[j] == x);
        }
        if b.contains(x) {
            let i = choose|i: int| 0 <= i < b.len() && b[i] == x;
            assert(s[i].0 == x);
            let j = choose|j: int| 0 <= j < r.len() && #[trigger] r[j].0 == x;
            assert(a[j] == x);
        }
    }
    lemma_ascending_same_members(a, b);
    assert(r.len() == a.len() && s.len() == b.len());
    assert forall|i: int| 0 <= i < r.len() implies r[i] == s[i] by {
        assert(a[i] == b[i]);
        assert(r[i].0 == s[i].0);
        assert(r[i].1 == insertions_on(entries, r[i].0) && r[i].2 == deletions_on(entries, r[i].0));
        assert(s[i].1 == insertions_on(entries, s[i].0) && s[i].2 == deletions_on(entries, s[i].0));
    }
    assert(r =~= s);
}

/// Each key of `keys` once, ascending, with the number of its occurrences.
pub fn count_by_key(keys: &Vec<i32>) -> (r: Vec<(i32, usize)>)
    ensures
        is_histogram(keys@, r@),
        r@ == histogram(keys@),
        total_count(r@) == keys@.len(),
{
    let mut r: Vec<(i32, usize)> = Vec::new();
    let n = keys.len();
    let mut j: usize = 0;
    while j < n
        invariant
            n == keys@.len(),
            j <= n,
            is_histogram(keys@.take(j as int), r@),
            total_count(r@) == j,
        decreases n - j,
    {
        let k = keys[j];
        let ghost before = keys@.take(j as int);
        let ghost after = keys@.take(j + 1);
        proof {
            assert(after =~= before.push(k));
            assert forall|x: i32| occurrences(after, x) == occurrences(before, x) + if k == x {
                1nat
            } else {
                0nat
            } by {
                lemma_occurrences_push(before, k, x);
            }
            lemma_occurrences_le_len(before, k);
        }
        let mut p: usize = 0;
        while p < r.len() && r[p].0 < k
            invariant
                p <= r@.len(),
                forall|q: int| 0 <= q < p ==> r@[q].0 < k,
            decreases r.len() - p,
        {
            p += 1;
        }
        let ghost old_r = r@;
        if p < r.len() && r[p].0 == k {
            let c = r[p].1;
            r.set(p, (k, c + 1));
            proof {
                lemma_total_count_update(old_r, p as int, (k, (c + 1) as usize));
                assert forall|x: i32| occurrences(after, x) > 0 implies exists|i: int|
                    0 <= i < r@.len() && #[trigger] r@[i].0 == x by {
                    if x != k {
                        let i = choose|i: int| 0 <= i < old_r.len() && old_r[i].0 == x;
                        assert(r@[i].0 == x);
                    } else {
                        assert(r@[p as int].0 == x);
                    }
                }
            }
        } else {
            proof {
                if occurrences(before, k) > 0 {
                    let i = choose|i: int| 0 <= i < old_r.len() && old_r[i].0 == k;
                    if i < p {
                    } else {
                        assert(old_r[p as int].0 <= old_r[i].0);
                    }
                }
            }
            r.insert(p, (k, 1));
            proof {
                lemma_total_count_insert(old_r, p as int, (k, 1usize));
                assert forall|i: int, i2: int| 0 <= i < i2 < r@.len() implies r@[i].0 < r@[i2].0 by {
                    if i < p && i2 == p {
                    } else if i == p && i2 > p {
                        assert(old_r[p as int].0 <= old_r[i2 - 1].0);
                    }
                }
                assert forall|x: i32| occurrences(after, x) > 0 implies exists|i: int|
                    0 <= i < r@.len() && #[trigger] r@[i].0 == x by {
                    if x != k {
                        let i = choose|i: int| 0 <= i < old_r.len() && old_r[i].0 == x;
                        if i < p {
                            assert(r@[i].0 == x);
                        } else {
                            assert(r@[i + 1].0 == x);
                        }
                    } else {
                        assert(r@[p as int].0 == x);
                    }
                }
            }
        }
        j += 1;
    }
    proof {
        assert(keys@.take(n as int) =~= keys@);
        lemma_histogram_unique(keys@, r@, histogram(keys@));
    }
    r
}

/// Each day of `entries` once, ascending, with its sums of insertions and
/// deletions.
pub fn sum_by_day(entries: &Vec<(i32, u32, u32)>) -> (r: Vec<(i32, i32, i32)>)
    requires
        daily_sums_fit(entries@),
    ensures
        is_daily_sum(entries@, r@),
        r@ == daily_sum(entries@),
        daily_inserted_total(r@) == inserted_total(entries@),
        daily_deleted_total(r@) == deleted_total(entries@),
{
    let mut r: Vec<(i32, i32, i32)> = Vec::new();
    let n = entries.len();
    let mut j: usize = 0;
    while j < n
        invariant
            n == entries@.len(),
            j <= n,
            daily_sums_fit(entries@),
            is_daily_sum(entries@.take(j as int), r@),
            daily_inserted_total(r@) == inserted_total(entries@.take(j as int)),
            daily_deleted_total(r@) == deleted_total(entries@.take(j as int)),
        decreases n - j,
    {
        let e = entries[j];
        let k = e.0;
        let ghost before = entries@.take(j as int);
        let ghost after = entries@.take(j + 1);
        proof {
            assert(after.drop_last() =~= before);
            lemma_entry_days_take(entries@, j as int);
            assert forall|x: i32| occurrences(entry_days(after), x) == occurrences(entry_days(before), x) + if k == x {
                1nat
            } else {
                0nat
            } by {
                lemma_occurrences_push(entry_days(before), k, x);
            }
            lemma_sums_prefix(entries@, j + 1, k);
        }
        let mut p: usize = 0;
        while p < r.len() && r[p].0 < k
            invariant
                p <= r@.len(),
                forall|q: int| 0 <= q < p ==> r@[q].0 < k,
            decreases r.len() - p,
        {
            p += 1;
        }
        let ghost old_r = r@;
        if p < r.len() && r[p].0 == k {
            let cur = r[p];
            r.set(p, (k, cur.1 + e.1 as i32, cur.2 + e.2 as i32));
            proof {
                lemma_daily_totals_update(old_r, p as int, (k, (cur.1 + e.1 as i32) as i32, (cur.2 + e.2 as i32) as i32));
                assert forall|x: i32| occurrences(entry_days(after), x) > 0 implies exists|i: int|
                    0 <= i < r@.len() && #[trigger] r@[i].0 == x by {
                    if x != k {
                        let i = choose|i: int| 0 <= i < old_r.len() && old_r[i].0 == x;
                        assert(r@[i].0 == x);
                    } else {
                        assert(r@[p as int].0 == x);
                    }
                }
            }
        } else {
            proof {
                if occurrences(entry_days(before), k) > 0 {
                    let i = choose|i: int| 0 <= i < old_r.len() && old_r[i].0 == k;
                    if i >= p {
                        assert(old_r[p as int].0 <= old_r[i].0);
                    }
                }
                assert(insertions_on(before, k) == 0 && deletions_on(before, k) == 0) by {
                    lemma_no_day_no_sums(before, k);
                }
            }
            r.insert(p, (k, e.1 as i32, e.2 as i32));
            proof {
                lemma_daily_totals_insert(old_r, p as int, (k, e.1 as i32, e.2 as i32));
                assert forall|i: int, i2: int| 0 <= i < i2 < r@.len() implies r@[i].0 < r@[i2].0 by {
                    if i == p && i2 > p {
                        assert(old_r[p as int].0 <= old_r[i2 - 1].0);
                    }
                }
                assert forall|x: i32| occurrences(entry_days(after), x) > 0 implies exists|i: int|
                    0 <= i < r@.len() && #[trigger] r@[i].0 == x by {
                    if x != k {
                        let i = choose|i: int| 0 <= i < old_r.len() && old_r[i].0 == x;
                        if i < p {
                            assert(r@[i].0 == x);
                        } else {
                            assert(r@[i + 1].0 == x);
                        }
                    } else {
                        assert(r@[p as int].0 == x);
                    }
                }
            }
        }
        j += 1;
    }
    proof {
        assert(entries@.take(n as int) =~= entries@);
        lemma_daily_sum_unique(entries@, r@, daily_sum(entries@));
    }
    r
}

proof fn lemma_no_day_no_sums(entries: Seq<(i32, u32, u32)>, k: i32)
    requires
        occurrences(entry_days(entries), k) == 0,
    ensures
        insertions_on(entries, k) == 0,
        deletions_on(entries, k) == 0,
    decreases entries.len(),
{
    if entries.len() > 0 {
        let init = entries.drop_last();
        assert(entry_days(entries).drop_last() =~= entry_days(init));
        lemma_no_day_no_sums(init, k);
    }
}

} // verus!
