//! Path and dotted-name arithmetic.
//!
//! Paths are plain strings with `/` as the separator; a path is modelled by
//! its sequence of non-empty segments.  Dotted module names are handled the
//! same way with `.` as the separator.

use vstd::prelude::*;
use crate::chars::{chars_of, push_all, push_str_chars, string_from_chars, subvec, vecs_eq};

verus! {

/// The views of a sequence of character vectors.
pub open spec fn views_of(vs: Seq<Vec<char>>) -> Seq<Seq<char>> {
    Seq::new(vs.len(), |i: int| vs[i]@)
}

/// Accumulator-passing worker for [`split_nonempty`]: processes `s[i..]` with
/// `cur` the pending segment and `acc` the segments already found.
pub open spec fn split_acc(
    s: Seq<char>,
    sep: char,
    i: int,
    cur: Seq<char>,
    acc: Seq<Seq<char>>,
) -> Seq<Seq<char>>
    decreases s.len() - i,
{
    if i < 0 || i >= s.len() {
        if cur.len() == 0 {
            acc
        } else {
            acc.push(cur)
        }
    } else if s[i] == sep {
        if cur.len() == 0 {
            split_acc(s, sep, i + 1, Seq::empty(), acc)
        } else {
            split_acc(s, sep, i + 1, Seq::empty(), acc.push(cur))
        }
    } else {
        split_acc(s, sep, i + 1, cur.push(s[i]), acc)
    }
}

/// The non-empty runs of `s` delimited by `sep`, in order.
pub open spec fn split_nonempty(s: Seq<char>, sep: char) -> Seq<Seq<char>> {
    split_acc(s, sep, 0, Seq::empty(), Seq::empty())
}

/// Split `v` at `sep`, dropping empty segments.
pub fn split_vec(v: &Vec<char>, sep: char) -> (r: Vec<Vec<char>>)
    ensures
        views_of(r@) == split_nonempty(v@, sep),
{
    let mut cur: Vec<char> = Vec::new();
    let mut acc: Vec<Vec<char>> = Vec::new();
    let mut i: usize = 0;
    proof {
        assert(cur@ =~= Seq::<char>::empty());
        assert(views_of(acc@) =~= Seq::<Seq<char>>::empty());
    }
    while i < v.len()
        invariant
            0 <= i <= v@.len(),
            split_nonempty(v@, sep) == split_acc(v@, sep, i as int, cur@, views_of(acc@)),
        decreases v@.len() - i,
    {
        let ghost pre_cur = cur@;
        let ghost pre_acc = views_of(acc@);
        let c = v[i];
        if c == sep {
            if cur.len() > 0 {
                acc.push(cur);
                cur = Vec::new();
                proof {
                    assert(views_of(acc@) =~= pre_acc.push(pre_cur));
                    assert(split_acc(v@, sep, i as int, pre_cur, pre_acc) == split_acc(
                        v@,
                        sep,
                        i + 1,
                        Seq::empty(),
                        pre_acc.push(pre_cur),
                    ));
                    assert(cur@ =~= Seq::<char>::empty());
                }
            } else {
                proof {
                    assert(cur@ =~= Seq::<char>::empty());
                    assert(split_acc(v@, sep, i as int, pre_cur, pre_acc) == split_acc(
                        v@,
                        sep,
                        i + 1,
                        Seq::empty(),
                        pre_acc,
                    ));
                }
            }
        } else {
            cur.push(c);
            proof {
                assert(split_acc(v@, sep, i as int, pre_cur, pre_acc) == split_acc(
                    v@,
                    sep,
                    i + 1,
                    pre_cur.push(v@[i as int]),
                    pre_acc,
                ));
            }
        }
        i += 1;
    }
    if cur.len() > 0 {
        let ghost pre_cur = cur@;
        let ghost pre_acc = views_of(acc@);
        acc.push(cur);
        proof {
            assert(views_of(acc@) =~= pre_acc.push(pre_cur));
        }
    } else {
        proof {
            assert(cur@ =~= Seq::<char>::empty());
        }
    }
    acc
}

/// Join the segments `segs[from..]` with the separator `sep`.
pub open spec fn join_with_from(segs: Seq<Seq<char>>, sep: char, from: int) -> Seq<char>
    decreases segs.len() - from,
{
    if from < 0 || from >= segs.len() {
        Seq::empty()
    } else if from == segs.len() - 1 {
        segs[from]
    } else {
        segs[from] + seq![sep] + join_with_from(segs, sep, from + 1)
    }
}

/// Join `segs[from..]` with `sep`, executable form.
pub fn join_segments(segs: &Vec<Vec<char>>, from: usize, sep: char) -> (r: Vec<char>)
    requires
        from <= segs@.len(),
    ensures
        r@ == join_with_from(views_of(segs@), sep, from as int),
    decreases segs@.len() - from,
{
    let mut r: Vec<char> = Vec::new();
    if from >= segs.len() {
        return r;
    }
    push_all(&mut r, &segs[from]);
    if from + 1 < segs.len() {
        r.push(sep);
        let rest = join_segments(segs, from + 1, sep);
        push_all(&mut r, &rest);
        proof {
            assert(r@ =~= views_of(segs@)[from as int] + seq![sep] + join_with_from(
                views_of(segs@),
                sep,
                from + 1,
            ));
        }
    } else {
        proof {
            assert(r@ =~= views_of(segs@)[from as int]);
        }
    }
    r
}

/// Length of the longest common prefix of two segment sequences.
pub open spec fn common_prefix_len(a: Seq<Seq<char>>, b: Seq<Seq<char>>) -> int
    decreases a.len(),
{
    if a.len() == 0 || b.len() == 0 {
        0
    } else if a[0] == b[0] {
        1 + common_prefix_len(a.drop_first(), b.drop_first())
    } else {
        0
    }
}

proof fn lemma_common_prefix_step(a: Seq<Seq<char>>, b: Seq<Seq<char>>, i: int)
    requires
        0 <= i < a.len(),
        i < b.len(),
        a.skip(i)[0] == b.skip(i)[0],
    ensures
        common_prefix_len(a.skip(i), b.skip(i)) == 1 + common_prefix_len(
            a.skip(i + 1),
            b.skip(i + 1),
        ),
{
    assert(a.skip(i).drop_first() =~= a.skip(i + 1));
    assert(b.skip(i).drop_first() =~= b.skip(i + 1));
}

/// The relative prefix between two directories: how many levels to ascend
/// from `from_dir` to the nearest common ancestor (`ups`) and the dotted path
/// from that ancestor down to `to_dir` (`remainder`, empty when `to_dir` is
/// the ancestor itself).
pub fn compute_relative_import_prefix(from_dir: &str, to_dir: &str) -> (r: Option<(usize, String)>)
    ensures
        ({
            let f = split_nonempty(from_dir@, '/');
            let t = split_nonempty(to_dir@, '/');
            let k = common_prefix_len(f, t);
            &&& r is Some
            &&& (r->0).0 == f.len() - k
            &&& ((r->0).1)@ == join_with_from(t, '.', k)
        }),
{
    let fv = chars_of(from_dir);
    let tv = chars_of(to_dir);
    let (ups, rem) = relative_prefix_vec(&fv, &tv);
    Some((ups, string_from_chars(&rem)))
}

/// Core of [`compute_relative_import_prefix`], on character vectors.
pub fn relative_prefix_vec(from_dir: &Vec<char>, to_dir: &Vec<char>) -> (r: (usize, Vec<char>))
    ensures
        ({
            let f = split_nonempty(from_dir@, '/');
            let t = split_nonempty(to_dir@, '/');
            let k = common_prefix_len(f, t);
            &&& r.0 == f.len() - k
            &&& r.1@ == join_with_from(t, '.', k)
        }),
{
    let f = split_vec(from_dir, '/');
    let t = split_vec(to_dir, '/');
    let ghost fs = split_nonempty(from_dir@, '/');
    let ghost ts = split_nonempty(to_dir@, '/');
    let mut i: usize = 0;
    proof {
        assert(fs.skip(0) =~= fs);
        assert(ts.skip(0) =~= ts);
    }
    while i < f.len() && i < t.len() && vecs_eq(&f[i], &t[i])
        invariant
            0 <= i <= fs.len(),
            i <= ts.len(),
            views_of(f@) == fs,
            views_of(t@) == ts,
            common_prefix_len(fs, ts) == i + common_prefix_len(fs.skip(i as int), ts.skip(i as int)),
        decreases fs.len() - i,
    {
        proof {
            assert(fs.skip(i as int)[0] == fs[i as int]);
            assert(ts.skip(i as int)[0] == ts[i as int]);
            lemma_common_prefix_step(fs, ts, i as int);
        }
        i += 1;
    }
    proof {
        if i < fs.len() && i < ts.len() {
            assert(fs.skip(i as int)[0] == fs[i as int]);
            assert(ts.skip(i as int)[0] == ts[i as int]);
            assert(common_prefix_len(fs.skip(i as int), ts.skip(i as int)) == 0);
        } else {
            assert(fs.skip(i as int).len() == 0 || ts.skip(i as int).len() == 0);
            assert(common_prefix_len(fs.skip(i as int), ts.skip(i as int)) == 0);
        }
        assert(common_prefix_len(fs, ts) == i as int);
    }
    let ups = f.len() - i;
    let rem = join_segments(&t, i, '.');
    (ups, rem)
}

/// Index of the last occurrence of `c` in `s` at or before `i`, or `-1`.
pub open spec fn last_index_of(s: Seq<char>, c: char, i: int) -> int
    decreases i + 1,
{
    if i < 0 {
        -1
    } else if i >= s.len() {
        last_index_of(s, c, s.len() - 1)
    } else if s[i] == c {
        i
    } else {
        last_index_of(s, c, i - 1)
    }
}

/// Split a dotted qualified name into its package prefix and leaf name;
/// a name without a dot has an empty package prefix.
pub open spec fn spec_split_qualname(s: Seq<char>) -> (Seq<char>, Seq<char>) {
    let i = last_index_of(s, '.', s.len() - 1);
    if i < 0 {
        (Seq::empty(), s)
    } else {
        (s.subrange(0, i), s.subrange(i + 1, s.len() as int))
    }
}

/// Core of [`split_module_qualname`], on character vectors.
pub fn split_qualname_vec(v: &Vec<char>) -> (r: (Vec<char>, Vec<char>))
    ensures
        (r.0@, r.1@) == spec_split_qualname(v@),
{
    let mut j: usize = v.len();
    while j > 0
        invariant
            0 <= j <= v@.len(),
            last_index_of(v@, '.', v@.len() - 1) == last_index_of(v@, '.', j - 1),
        decreases j,
    {
        if v[j - 1] == '.' {
            let pre = subvec(v, 0, j - 1);
            let post = subvec(v, j, v.len());
            proof {
                assert(last_index_of(v@, '.', j - 1) == j - 1);
            }
            return (pre, post);
        }
        j -= 1;
    }
    proof {
        assert(last_index_of(v@, '.', v@.len() - 1) == -1);
    }
    let all = subvec(v, 0, v.len());
    proof {
        assert(all@ =~= v@);
    }
    (Vec::new(), all)
}

/// Split a dotted qualified module name into `(package_path, leaf)`.
pub fn split_module_qualname(qualified: &str) -> (r: (String, String))
    ensures
        (r.0@, r.1@) == spec_split_qualname(qualified@),
{
    let v = chars_of(qualified);
    let (a, b) = split_qualname_vec(&v);
    (string_from_chars(&a), string_from_chars(&b))
}

/// The directory part of a path: everything before the last separator, or
/// the empty path when there is no separator.
pub open spec fn parent_of(p: Seq<char>) -> Seq<char> {
    let i = last_index_of(p, '/', p.len() - 1);
    if i < 0 {
        Seq::empty()
    } else {
        p.subrange(0, i)
    }
}

/// Executable form of [`parent_of`].
pub fn parent_dir_vec(v: &Vec<char>) -> (r: Vec<char>)
    ensures
        r@ == parent_of(v@),
{
    let mut j: usize = v.len();
    while j > 0
        invariant
            0 <= j <= v@.len(),
            last_index_of(v@, '/', v@.len() - 1) == last_index_of(v@, '/', j - 1),
        decreases j,
    {
        if v[j - 1] == '/' {
            proof {
                assert(last_index_of(v@, '/', j - 1) == j - 1);
            }
            return subvec(v, 0, j - 1);
        }
        j -= 1;
    }
    proof {
        assert(last_index_of(v@, '/', v@.len() - 1) == -1);
    }
    Vec::new()
}

/// Append a path separator unless the path is empty or already ends with one.
pub open spec fn sep_join(p: Seq<char>) -> Seq<char> {
    if p.len() == 0 {
        p
    } else if p.last() == '/' {
        p
    } else {
        p.push('/')
    }
}

/// Append the non-empty dot-separated parts of `m[i..]` to the path `p`,
/// each as one further path segment.
pub open spec fn append_dotted_from(p: Seq<char>, m: Seq<char>, i: int) -> Seq<char>
    decreases m.len() - i,
{
    if i < 0 || i >= m.len() {
        p
    } else if m[i] == '.' {
        append_dotted_from(p, m, i + 1)
    } else if i == 0 || m[i - 1] == '.' {
        append_dotted_from(sep_join(p).push(m[i]), m, i + 1)
    } else {
        append_dotted_from(p.push(m[i]), m, i + 1)
    }
}

/// Expected on-disk path of the module `pkg_path.leaf` under `root`.
pub open spec fn spec_path_from_module(root: Seq<char>, mpath: Seq<char>, leaf: Seq<char>) -> Seq<
    char,
> {
    sep_join(append_dotted_from(root, mpath, 0)) + leaf + ".py"@
}

/// Directory that holds the module `mpath.<leaf>` under `root`: the root
/// extended with the dotted package path as directories.
pub fn module_dir_vec(root: &Vec<char>, mpath: &Vec<char>) -> (r: Vec<char>)
    ensures
        r@ == append_dotted_from(root@, mpath@, 0),
{
    let mut p = subvec(root, 0, root.len());
    proof {
        assert(p@ =~= root@);
    }
    let mut i: usize = 0;
    while i < mpath.len()
        invariant
            0 <= i <= mpath@.len(),
            append_dotted_from(root@, mpath@, 0) == append_dotted_from(p@, mpath@, i as int),
        decreases mpath@.len() - i,
    {
        let c = mpath[i];
        if c != '.' {
            if i == 0 || mpath[i - 1] == '.' {
                if p.len() > 0 && p[p.len() - 1] != '/' {
                    p.push('/');
                }
            }
            p.push(c);
        }
        i += 1;
    }
    p
}

/// Join a relative path onto a base path.
pub fn join_path_vec(base: &Vec<char>, rel: &Vec<char>) -> (r: Vec<char>)
    ensures
        r@ == sep_join(base@) + rel@,
{
    let mut p = subvec(base, 0, base.len());
    proof {
        assert(p@ =~= base@);
    }
    if p.len() > 0 && p[p.len() - 1] != '/' {
        p.push('/');
    }
    push_all(&mut p, rel);
    p
}

/// Core of [`path_from_module`], on character vectors.
pub fn path_from_module_vec(root: &Vec<char>, mpath: &Vec<char>, leaf: &Vec<char>) -> (r: Vec<char>)
    ensures
        r@ == spec_path_from_module(root@, mpath@, leaf@),
{
    let mut p = module_dir_vec(root, mpath);
    if p.len() > 0 && p[p.len() - 1] != '/' {
        p.push('/');
    }
    push_all(&mut p, leaf);
    push_str_chars(&mut p, ".py");
    p
}

/// Expected on-disk path of the referenced module: the output root, then the
/// dotted package path as directories, then `leaf` plus the `.py` extension.
pub fn path_from_module(root: &str, pkg_path: &str, leaf: &str) -> (r: String)
    ensures
        r@ == spec_path_from_module(root@, pkg_path@, leaf@),
{
    let rv = chars_of(root);
    let mv = chars_of(pkg_path);
    let lv = chars_of(leaf);
    let p = path_from_module_vec(&rv, &mv, &lv);
    string_from_chars(&p)
}

} // verus!
