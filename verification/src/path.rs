//! Paths written with `/` as separator, compared as `std::path::Path`
//! compares them on Unix: by their components, so that repeated separators,
//! a trailing separator and `.` components other than a leading one make no
//! difference. (The application writes Windows paths with `/` before it
//! hands them to the library.)

use vstd::prelude::*;
use crate::text::chars_of;

verus! {

/// `s` cut at every `/` (an empty text before a leading `/`, after a
/// trailing one and between two adjacent ones).
pub open spec fn split_slash(s: Seq<char>) -> Seq<Seq<char>>
    decreases s.len(),
{
    if s.len() == 0 {
        seq![Seq::empty()]
    } else if s.last() == '/' {
        split_slash(s.drop_last()).push(Seq::empty())
    } else {
        let p = split_slash(s.drop_last());
        p.update(p.len() - 1, p.last().push(s.last()))
    }
}

/// The pieces that are normal components: neither empty nor `.`.
pub open spec fn normal_pieces(ps: Seq<Seq<char>>) -> Seq<Seq<char>>
    decreases ps.len(),
{
    if ps.len() == 0 {
        Seq::empty()
    } else if ps.last().len() == 0 || ps.last() == seq!['.'] {
        normal_pieces(ps.drop_last())
    } else {
        normal_pieces(ps.drop_last()).push(ps.last())
    }
}

/// The components of a Unix path, each as its text: `/` for the root, `.`
/// for a leading current-directory component, `..` for a parent, and the
/// names of the others.
pub open spec fn path_components(s: Seq<char>) -> Seq<Seq<char>> {
    let head = if s.len() > 0 && s[0] == '/' {
        seq![seq!['/']]
    } else if split_slash(s)[0] == seq!['.'] {
        seq![seq!['.']]
    } else {
        Seq::empty()
    };
    head + normal_pieces(split_slash(s))
}

/// A path that every platform's `Path` reads the same way: no backslash (a
/// separator on Windows), no `:` (a drive prefix there) and no leading `//`
/// (a network prefix there). Such a path has `/` as its only separator and
/// no prefix, so its components are the ones `path_components` lists.
pub open spec fn portable_path(p: Seq<char>) -> bool {
    &&& forall|i: int| 0 <= i < p.len() ==> #[trigger] p[i] != '\\' && p[i] != ':'
    &&& !(p.len() >= 2 && p[0] == '/' && p[1] == '/')
}

/// The final component of the path written as `p` when it is a name: `None`
/// for a path with no components or one that ends in the root, a leading `.`
/// or `..` (what `Path::file_name` gives).
pub open spec fn file_name_of(p: Seq<char>) -> Option<Seq<char>> {
    let c = path_components(p);
    if c.len() == 0 || c.last() == seq!['/'] || c.last() == seq!['.'] || c.last() == seq!['.', '.'] {
        None
    } else {
        Some(c.last())
    }
}

/// The index of the last occurrence of `c` in `s`, if any.
pub open spec fn last_index_of(s: Seq<char>, c: char) -> Option<int>
    decreases s.len(),
{
    if s.len() == 0 {
        None
    } else if s.last() == c {
        Some(s.len() - 1)
    } else {
        last_index_of(s.drop_last(), c)
    }
}

/// The extension of the path written as `p`: the text of its file name after
/// the final `.`; `None` when it has no file name, the file name has no `.`,
/// or its only `.` is its first character (what `Path::extension` gives).
pub open spec fn extension_of(p: Seq<char>) -> Option<Seq<char>> {
    match file_name_of(p) {
        Some(f) => match last_index_of(f, '.') {
            Some(i) => if i > 0 {
                Some(f.skip(i + 1))
            } else {
                None
            },
            None => None,
        },
        None => None,
    }
}

/// Two paths are equal as `Path`s.
pub open spec fn paths_equal(a: Seq<char>, b: Seq<char>) -> bool {
    path_components(a) == path_components(b)
}

proof fn lemma_split_nonempty(s: Seq<char>)
    ensures
        split_slash(s).len() >= 1,
    decreases s.len(),
{
    if s.len() > 0 {
        lemma_split_nonempty(s.drop_last());
    }
}

/// The pieces of `v` between `/` separators.
fn split_pieces(v: &Vec<char>) -> (r: Vec<Vec<char>>)
    ensures
        r@.len() == split_slash(v@).len(),
        forall|i: int| 0 <= i < r@.len() ==> (#[trigger] r@[i])@ == split_slash(v@)[i],
{
    let mut done: Vec<Vec<char>> = Vec::new();
    let mut cur: Vec<char> = Vec::new();
    let mut i: usize = 0;
    assert(v@.take(0) =~= Seq::<char>::empty());
    while i < v.len()
        invariant
            i <= v@.len(),
            done@.len() + 1 == split_slash(v@.take(i as int)).len(),
            forall|k: int| 0 <= k < done@.len() ==> (#[trigger] done@[k])@ == split_slash(v@.take(i as int))[k],
            cur@ == split_slash(v@.take(i as int)).last(),
        decreases v.len() - i,
    {
        let ghost pre = v@.take(i as int);
        proof {
            assert(v@.take(i + 1).drop_last() =~= pre);
            assert(v@.take(i + 1).last() == v@[i as int]);
            lemma_split_nonempty(pre);
        }
        let c = v[i];
        if c == '/' {
            let piece = cur;
            done.push(piece);
            cur = Vec::new();
            proof {
                assert(cur@ =~= Seq::<char>::empty());
            }
        } else {
            cur.push(c);
        }
        i += 1;
    }
    proof {
        assert(v@.take(v@.len() as int) =~= v@);
    }
    done.push(cur);
    done
}

/// Whether a piece is a normal component (neither empty nor `.`).
fn is_normal_piece(p: &Vec<char>) -> (r: bool)
    ensures
        r == !(p@.len() == 0 || p@ == seq!['.']),
{
    if p.len() == 0 {
        return false;
    }
    if p.len() == 1 && p[0] == '.' {
        assert(p@ =~= seq!['.']);
        return false;
    }
    if p.len() == 1 {
        assert(p@[0] != seq!['.'][0]);
    }
    true
}

/// The components of the Unix path written as `s` (see `path_components`).
pub fn components_of(s: &str) -> (r: Vec<Vec<char>>)
    ensures
        r@.len() == path_components(s@).len(),
        forall|i: int| 0 <= i < r@.len() ==> (#[trigger] r@[i])@ == path_components(s@)[i],
{
    let v = chars_of(s);
    let pieces = split_pieces(&v);
    proof {
        lemma_split_nonempty(v@);
    }
    let mut out: Vec<Vec<char>> = Vec::new();
    let ghost mut head: Seq<Seq<char>> = Seq::empty();
    if v.len() > 0 && v[0] == '/' {
        let mut root: Vec<char> = Vec::new();
        root.push('/');
        out.push(root);
        proof {
            head = seq![seq!['/']];
            assert(out@[0]@ =~= seq!['/']);
        }
    } else {
        let first = &pieces[0];
        if first.len() == 1 && first[0] == '.' {
            let mut dot: Vec<char> = Vec::new();
            dot.push('.');
            out.push(dot);
            proof {
                head = seq![seq!['.']];
                assert(first@ =~= seq!['.']);
                assert(out@[0]@ =~= seq!['.']);
            }
        } else {
            proof {
                if first@.len() == 1 {
                    assert(first@[0] != seq!['.'][0]);
                }
                assert(first@ != seq!['.']);
            }
        }
    }
    assert(out@.len() == head.len());
    let h = out.len();
    let ghost ps = split_slash(v@);
    let mut i: usize = 0;
    assert(ps.take(0) =~= Seq::<Seq<char>>::empty());
    while i < pieces.len()
        invariant
            i <= pieces@.len() == ps.len(),
            ps == split_slash(v@),
            forall|k: int| 0 <= k < pieces@.len() ==> (#[trigger] pieces@[k])@ == ps[k],
            h == head.len(),
            out@.len() == h + normal_pieces(ps.take(i as int)).len(),
            forall|k: int| 0 <= k < h ==> (#[trigger] out@[k])@ == head[k],
            forall|k: int|
                h <= k < out@.len() ==> (#[trigger] out@[k])@ == normal_pieces(ps.take(i as int))[k - h],
        decreases pieces.len() - i,
    {
        proof {
            assert(ps.take(i + 1).drop_last() =~= ps.take(i as int));
            assert(ps.take(i + 1).last() == ps[i as int]);
        }
        if is_normal_piece(&pieces[i]) {
            let mut copy: Vec<char> = Vec::new();
            let mut k: usize = 0;
            while k < pieces[i].len()
                invariant
                    i < pieces@.len(),
                    k <= pieces@[i as int]@.len(),
                    copy@ == pieces@[i as int]@.take(k as int),
                decreases pieces@[i as int]@.len() - k,
            {
                copy.push(pieces[i][k]);
                k += 1;
                assert(copy@ =~= pieces@[i as int]@.take(k as int));
            }
            assert(copy@ =~= pieces@[i as int]@);
            out.push(copy);
        }
        i += 1;
    }
    proof {
        assert(ps.take(ps.len() as int) =~= ps);
        assert(path_components(s@) == head + normal_pieces(ps));
    }
    out
}

/// Whether two paths are equal as `Path`s (see `paths_equal`).
pub fn same_path(a: &str, b: &str) -> (r: bool)
    ensures
        r == paths_equal(a@, b@),
{
    let x = components_of(a);
    let y = components_of(b);
    if x.len() != y.len() {
        return false;
    }
    let mut i: usize = 0;
    while i < x.len()
        invariant
            x@.len() == y@.len() == path_components(a@).len() == path_components(b@).len(),
            forall|k: int| 0 <= k < x@.len() ==> (#[trigger] x@[k])@ == path_components(a@)[k],
            forall|k: int| 0 <= k < y@.len() ==> (#[trigger] y@[k])@ == path_components(b@)[k],
            i <= x@.len(),
            forall|k: int| 0 <= k < i ==> path_components(a@)[k] == path_components(b@)[k],
        decreases x.len() - i,
    {
        let p = &x[i];
        let q = &y[i];
        if p.len() != q.len() {
            assert(p@.len() != q@.len());
            return false;
        }
        let mut k: usize = 0;
        while k < p.len()
            invariant
                p@.len() == q@.len(),
                p@ == path_components(a@)[i as int],
                q@ == path_components(b@)[i as int],
                k <= p@.len(),
                forall|t: int| 0 <= t < k ==> p@[t] == q@[t],
            decreases p.len() - k,
        {
            if p[k] != q[k] {
                assert(p@[k as int] != q@[k as int]);
                return false;
            }
            k += 1;
        }
        assert(p@ =~= q@);
        i += 1;
    }
    assert(path_components(a@) =~= path_components(b@));
    true
}

} // verus!
