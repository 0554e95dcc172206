//! Application-wide settings.

use vstd::prelude::*;
use crate::path::{path_components, paths_equal, same_path};

verus! {

/// Application-wide settings (persisted by the application as JSON).
#[derive(Debug)]
pub struct AppSettings {
    /// Recently opened repository paths (most recent first).
    pub recent_repos: Vec<String>,
    /// Maximum number of recent repos to keep.
    pub max_recent: usize,
    /// Maximum number of commits to scan per repository (0 = unlimited).
    pub max_commits: usize,
}

impl Default for AppSettings {
    fn default() -> (r: Self)
        ensures
            r.recent_repos@.len() == 0,
            r.max_recent == 10,
            r.max_commits == 5000,
    {
        AppSettings { recent_repos: Vec::new(), max_recent: 10, max_commits: 5000 }
    }
}

/// `list` without the entries that are the same path as `path`.
pub open spec fn without_path(list: Seq<String>, path: Seq<char>) -> Seq<String>
    decreases list.len(),
{
    if list.len() == 0 {
        Seq::empty()
    } else if paths_equal(list.last()@, path) {
        without_path(list.drop_last(), path)
    } else {
        without_path(list.drop_last(), path).push(list.last())
    }
}

/// The recent list after `path` was opened: `path` in front, the other
/// entries after it in their order, cut to `max` entries.
pub open spec fn recent_after_add(list: Seq<String>, path: String, max: usize) -> Seq<String> {
    let l = seq![path] + without_path(list, path@);
    if max < l.len() {
        l.take(max as int)
    } else {
        l
    }
}

proof fn lemma_without_path_excludes(list: Seq<String>, path: Seq<char>)
    ensures
        forall|i: int| 0 <= i < without_path(list, path).len() ==> !paths_equal((#[trigger] without_path(list, path)[i])@, path),
        without_path(list, path).len() <= list.len(),
    decreases list.len(),
{
    if list.len() > 0 {
        lemma_without_path_excludes(list.drop_last(), path);
    }
}

/// No two entries of `list` are the same path.
pub open spec fn distinct_paths(list: Seq<String>) -> bool {
    forall|a: int, b: int| 0 <= a < b < list.len() ==> !paths_equal((#[trigger] list[a])@, (#[trigger] list[b])@)
}

proof fn lemma_without_path_distinct(list: Seq<String>, path: Seq<char>)
    requires
        distinct_paths(list),
    ensures
        distinct_paths(without_path(list, path)),
    decreases list.len(),
{
    if list.len() > 0 {
        let init = list.drop_last();
        assert forall|a: int, b: int| 0 <= a < b < init.len() implies !paths_equal((#[trigger] init[a])@, (#[trigger] init[b])@) by {
            assert(init[a] == list[a] && init[b] == list[b]);
        }
        lemma_without_path_distinct(init, path);
        let w = without_path(list, path);
        let w0 = without_path(init, path);
        if !paths_equal(list.last()@, path) {
            assert forall|a: int, b: int| 0 <= a < b < w.len() implies !paths_equal((#[trigger] w[a])@, (#[trigger] w[b])@) by {
                if b == w0.len() {
                    lemma_without_path_member(init, path, a);
                    let x = choose|x: int| 0 <= x < init.len() && w0[a] == init[x];
                    assert(w[a] == list[x]);
                    assert(w[b] == list[list.len() - 1]);
                } else {
                    assert(w[a] == w0[a] && w[b] == w0[b]);
                }
            }
        }
    }
}

proof fn lemma_without_path_member(list: Seq<String>, path: Seq<char>, i: int)
    requires
        0 <= i < without_path(list, path).len(),
    ensures
        exists|a: int| 0 <= a < list.len() && without_path(list, path)[i] == list[a],
    decreases list.len(),
{
    let init = list.drop_last();
    let w0 = without_path(init, path);
    if i < w0.len() {
        lemma_without_path_member(init, path, i);
        let a = choose|a: int| 0 <= a < init.len() && w0[i] == init[a];
        assert(list[a] == init[a]);
    } else {
        assert(without_path(list, path)[i] == list[list.len() - 1]);
    }
}

/// What `add_recent` promises: the list never holds more than `max_recent`
/// entries; when it may hold one, the added path is first and no later entry
/// is the same path; and a list without two entries for the same path keeps
/// that property.
pub proof fn lemma_add_recent(list: Seq<String>, path: String, max: usize)
    ensures
        recent_after_add(list, path, max).len() <= max,
        max >= 1 ==> recent_after_add(list, path, max)[0] == path,
        forall|i: int|
            1 <= i < recent_after_add(list, path, max).len() ==> !paths_equal(
                (#[trigger] recent_after_add(list, path, max)[i])@,
                path@,
            ),
        distinct_paths(list) ==> distinct_paths(recent_after_add(list, path, max)),
{
    let w = without_path(list, path@);
    let l = seq![path] + w;
    lemma_without_path_excludes(list, path@);
    let r = recent_after_add(list, path, max);
    assert(r.len() <= l.len());
    assert forall|i: int| 0 <= i < r.len() implies #[trigger] r[i] == l[i] by {}
    assert forall|i: int| 1 <= i < r.len() implies !paths_equal((#[trigger] r[i])@, path@) by {
        assert(l[i] == w[i - 1]);
    }
    if distinct_paths(list) {
        lemma_without_path_distinct(list, path@);
        assert forall|a: int, b: int| 0 <= a < b < r.len() implies !paths_equal((#[trigger] r[a])@, (#[trigger] r[b])@) by {
            if a == 0 {
                assert(!paths_equal(r[b]@, path@));
                assert(r[a] == path);
                assert(path_components(r[a]@) != path_components(r[b]@));
            } else {
                assert(r[a] == w[a - 1] && r[b] == w[b - 1]);
            }
        }
    }
}

/// The entries that are not the same path as `path`.
pub open spec fn other_path(path: Seq<char>) -> spec_fn(String) -> bool {
    |e: String| !paths_equal(e@, path)
}

proof fn lemma_without_path_is_filter(list: Seq<String>, path: Seq<char>)
    ensures
        without_path(list, path) == list.filter(other_path(path)),
    decreases list.len(),
{
    reveal_with_fuel(Seq::<String>::filter, 1);
    if list.len() > 0 {
        lemma_without_path_is_filter(list.drop_last(), path);
    }
}

proof fn lemma_without_path_keeps(list: Seq<String>, path: Seq<char>, i: int)
    requires
        0 <= i < list.len(),
        !paths_equal(list[i]@, path),
    ensures
        without_path(list, path).contains(list[i]),
    decreases list.len(),
{
    let w = without_path(list, path);
    if i == list.len() - 1 {
        assert(w[w.len() - 1] == list[i]);
    } else {
        let init = list.drop_last();
        assert(init[i] == list[i]);
        lemma_without_path_keeps(init, path, i);
        let w0 = without_path(init, path);
        let k = choose|k: int| 0 <= k < w0.len() && w0[k] == list[i];
        assert(w[k] == w0[k]);
    }
}

/// Opening a path never loses an entry below the limit: the new list is the
/// path followed by the earlier entries that are other paths, in their order,
/// cut to `max` entries, so its length is `min(max, 1 + their number)`, and
/// while they all fit every one of them stays in the list.
pub proof fn lemma_add_recent_keeps_others(list: Seq<String>, path: String, max: usize)
    ensures
        ({
            let others = list.filter(other_path(path@));
            let n = if max < 1 + others.len() {
                max as int
            } else {
                1 + others.len() as int
            };
            &&& recent_after_add(list, path, max) == (seq![path] + others).take(n)
            &&& recent_after_add(list, path, max).len() == n
            &&& 1 + others.len() <= max ==> forall|i: int|
                0 <= i < list.len() && !paths_equal(list[i]@, path@) ==> recent_after_add(
                    list,
                    path,
                    max,
                ).contains(#[trigger] list[i])
        }),
{
    lemma_without_path_is_filter(list, path@);
    let others = list.filter(other_path(path@));
    let l = seq![path] + others;
    assert(l.take(l.len() as int) =~= l);
    if 1 + others.len() <= max {
        assert forall|i: int| 0 <= i < list.len() && !paths_equal(list[i]@, path@) implies recent_after_add(
            list,
            path,
            max,
        ).contains(#[trigger] list[i]) by {
            lemma_without_path_keeps(list, path@, i);
            let k = choose|k: int| 0 <= k < others.len() && others[k] == list[i];
            assert(l[k + 1] == list[i]);
        }
    }
}

impl AppSettings {
    /// The number of commits a scan keeps: `max_commits`, with 0 for no limit.
    pub fn commit_limit(&self) -> (r: Option<usize>)
        ensures
            r == if self.max_commits == 0 {
                None
            } else {
                Some(self.max_commits)
            },
    {
        if self.max_commits == 0 {
            None
        } else {
            Some(self.max_commits)
        }
    }

    /// Add a repo path to the front of the recent list: other entries that are
    /// the same path are dropped, and the list is cut to `max_recent` entries.
    pub fn add_recent(&mut self, path: String)
        ensures
            final(self).recent_repos@ == recent_after_add(old(self).recent_repos@, path, old(self).max_recent),
            final(self).max_recent == old(self).max_recent,
            final(self).max_commits == old(self).max_commits,
    {
        let ghost old_list = self.recent_repos@;
        let mut kept: Vec<String> = Vec::new();
        let mut i: usize = 0;
        let n = self.recent_repos.len();
        while i < n
            invariant
                n == self.recent_repos@.len(),
                self.recent_repos@ == old_list,
                i <= n,
                kept@ == without_path(old_list.take(i as int), path@),
            decreases n - i,
        {
            proof {
                assert(old_list.take(i + 1).drop_last() =~= old_list.take(i as int));
                assert(old_list.take(i + 1).last() == old_list[i as int]);
            }
            if !same_path(self.recent_repos[i].as_str(), path.as_str()) {
                kept.push(self.recent_repos[i].clone());
            }
            i += 1;
        }
        proof {
            assert(old_list.take(n as int) =~= old_list);
        }
        let ghost rest = kept@;
        kept.insert(0, path);
        assert(kept@ =~= seq![path] + rest);
        kept.truncate(self.max_recent);
        self.recent_repos = kept;
    }
}

} // verus!
