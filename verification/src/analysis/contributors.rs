//! Commits per contributor: by author name and by e-mail domain.

use vstd::prelude::*;
use crate::analysis::grouping::total_count;
use crate::analysis::ranking::{is_ranking, rank_keys, ranking, ranking_view, string_views};
use crate::model::CommitRecord;
use crate::text::{chars_of, find, find_chars, find_from, lemma_find_matches, matches_at, slice_chars};

verus! {

broadcast use vstd::string::group_string_axioms;

/// The author name of each commit.
pub open spec fn author_names(commits: Seq<CommitRecord>) -> Seq<Seq<char>> {
    commits.map_values(|c: CommitRecord| c.author_name@)
}

/// The domain of an e-mail address: the text between its first `@` and the
/// next `@` (or the end), `"unknown"` when it has no `@`
/// (what `email.split('@').nth(1).unwrap_or("unknown")` gives).
pub open spec fn email_domain(email: Seq<char>) -> Seq<char> {
    match find(email, seq!['@']) {
        None => "unknown"@,
        Some(i) => {
            let rest = email.subrange(i + 1, email.len() as int);
            match find(rest, seq!['@']) {
                None => rest,
                Some(j) => rest.subrange(0, j),
            }
        },
    }
}

/// `c` does not occur in `s`.
pub open spec fn lacks_char(s: Seq<char>, c: char) -> bool {
    forall|j: int| 0 <= j < s.len() ==> s[j] != c
}

proof fn lemma_find_char_from(s: Seq<char>, c: char, k: int, i: int)
    requires
        0 <= k <= i < s.len(),
        s[i] == c,
        forall|j: int| k <= j < i ==> s[j] != c,
    ensures
        find_from(s, seq![c], k) == Some(i),
    decreases i - k,
{
    if k == i {
        assert(s.subrange(k, k + 1) =~= seq![c]);
    } else {
        assert(s.subrange(k, k + 1)[0] != seq![c][0]);
        lemma_find_char_from(s, c, k + 1, i);
    }
}

proof fn lemma_find_char_absent(s: Seq<char>, c: char, k: int)
    requires
        0 <= k,
        forall|j: int| k <= j < s.len() ==> s[j] != c,
    ensures
        find_from(s, seq![c], k) is None,
    decreases s.len() - k,
{
    if k + 1 <= s.len() {
        assert(s.subrange(k, k + 1)[0] != seq![c][0]);
        lemma_find_char_absent(s, c, k + 1);
    }
}

/// The domain is the text after the `@`, unaltered: for a local part and a
/// domain without `@`, the domain of `local@domain` is `domain`, also when
/// more `@`-separated text follows it; an address without `@` has the domain
/// `"unknown"`.
pub proof fn lemma_email_domain_after_at(local: Seq<char>, domain: Seq<char>, more: Seq<char>)
    requires
        lacks_char(local, '@'),
        lacks_char(domain, '@'),
    ensures
        email_domain(local + seq!['@'] + domain) == domain,
        email_domain(local + seq!['@'] + domain + seq!['@'] + more) == domain,
        email_domain(local) == "unknown"@,
{
    let n = local.len() as int;
    let e1 = local + seq!['@'] + domain;
    assert(e1[n] == '@');
    assert forall|j: int| 0 <= j < n implies e1[j] != '@' by {
        assert(e1[j] == local[j]);
    }
    lemma_find_char_from(e1, '@', 0, n);
    let r1 = e1.subrange(n + 1, e1.len() as int);
    assert(r1 =~= domain);
    lemma_find_char_absent(domain, '@', 0);

    let e2 = local + seq!['@'] + domain + seq!['@'] + more;
    assert(e2[n] == '@');
    assert forall|j: int| 0 <= j < n implies e2[j] != '@' by {
        assert(e2[j] == local[j]);
    }
    lemma_find_char_from(e2, '@', 0, n);
    let r2 = e2.subrange(n + 1, e2.len() as int);
    assert(r2 =~= domain + seq!['@'] + more);
    let dn = domain.len() as int;
    assert(r2[dn] == '@');
    assert forall|j: int| 0 <= j < dn implies r2[j] != '@' by {
        assert(r2[j] == domain[j]);
    }
    lemma_find_char_from(r2, '@', 0, dn);
    assert(r2.subrange(0, dn) =~= domain);

    lemma_find_char_absent(local, '@', 0);
}

/// The e-mail domain of each commit's author.
pub open spec fn author_domains(commits: Seq<CommitRecord>) -> Seq<Seq<char>> {
    commits.map_values(|c: CommitRecord| email_domain(c.author_email@))
}

/// The domain of an e-mail address (see `email_domain`).
pub fn email_domain_of(email: &str) -> (r: String)
    ensures
        r@ == email_domain(email@),
{
    let v = chars_of(email);
    let mut at: Vec<char> = Vec::new();
    at.push('@');
    assert(at@ =~= seq!['@']);
    assert(at@.len() == 1);
    proof {
        lemma_find_matches(v@, at@);
    }
    match find_chars(&v, &at) {
        None => String::from_str("unknown"),
        Some(i) => {
            assert(matches_at(v@, at@, i as int));
            let n = v.len();
            assert(i + 1 <= n);
            let rest = slice_chars(&v, i + 1, n);
            proof {
                lemma_find_matches(rest@, at@);
            }
            match find_chars(&rest, &at) {
                None => String::from_str(email.substring_char(i + 1, v.len())),
                Some(j) => {
                    assert(rest@.subrange(0, j as int) =~= email@.subrange(i + 1, i + 1 + j));
                    String::from_str(email.substring_char(i + 1, i + 1 + j))
                },
            }
        },
    }
}

/// Group commits by author name, returning `(name, count)` sorted by
/// descending count (equal counts by ascending name).
pub fn contributor_commits(commits: &[CommitRecord]) -> (r: Vec<(String, usize)>)
    ensures
        is_ranking(author_names(commits@), ranking_view(r@)),
        ranking_view(r@) == ranking(author_names(commits@)),
        total_count(r@) == commits@.len(),
{
    let mut keys: Vec<String> = Vec::new();
    let mut i: usize = 0;
    while i < commits.len()
        invariant
            i <= commits@.len(),
            keys@.len() == i,
            string_views(keys@) == author_names(commits@).take(i as int),
        decreases commits.len() - i,
    {
        let ghost old_keys = keys@;
        let k = commits[i].author_name.clone();
        keys.push(k);
        proof {
            assert forall|t: int| 0 <= t < i + 1 implies string_views(keys@)[t] == author_names(commits@).take(i + 1)[t] by {
                if t < i {
                    assert(keys@[t] == old_keys[t]);
                    assert(string_views(old_keys)[t] == author_names(commits@).take(i as int)[t]);
                }
            }
        }
        i += 1;
        assert(string_views(keys@) =~= author_names(commits@).take(i as int));
    }
    assert(string_views(keys@) =~= author_names(commits@));
    rank_keys(&keys)
}

/// Group commits by the domain of the author's e-mail address, returning
/// `(domain, count)` sorted by descending count (equal counts by ascending
/// domain).
pub fn contributor_commits_by_email_domain(commits: &[CommitRecord]) -> (r: Vec<(String, usize)>)
    ensures
        is_ranking(author_domains(commits@), ranking_view(r@)),
        ranking_view(r@) == ranking(author_domains(commits@)),
        total_count(r@) == commits@.len(),
{
    let mut keys: Vec<String> = Vec::new();
    let mut i: usize = 0;
    while i < commits.len()
        invariant
            i <= commits@.len(),
            keys@.len() == i,
            string_views(keys@) == author_domains(commits@).take(i as int),
        decreases commits.len() - i,
    {
        let ghost old_keys = keys@;
        let k = email_domain_of(commits[i].author_email.as_str());
        keys.push(k);
        proof {
            assert forall|t: int| 0 <= t < i + 1 implies string_views(keys@)[t] == author_domains(commits@).take(i + 1)[t] by {
                if t < i {
                    assert(keys@[t] == old_keys[t]);
                    assert(string_views(old_keys)[t] == author_domains(commits@).take(i as int)[t]);
                }
            }
        }
        i += 1;
        assert(string_views(keys@) =~= author_domains(commits@).take(i as int));
    }
    assert(string_views(keys@) =~= author_domains(commits@));
    rank_keys(&keys)
}

} // verus!
