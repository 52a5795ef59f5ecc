//! The import verification harness: candidate-module enumeration, the
//! deterministic ordering of module names, the parsing of the structured
//! markers that the test programs emit, and the overall batch/fallback
//! decision.

use vstd::prelude::*;
use vstd::relations::{sorted_by, total_ordering};
use vstd::multiset::Multiset;
use vstd::seq_lib::lemma_sorted_unique;
use crate::chars::{
    chars_of, dec_int, ends_with_lit, ends_with_vec, match_lit, occurs_at, push_all, push_str_chars,
    seq_ends_with, string_from_chars, subvec,
};
use crate::paths::{join_with_from, last_index_of, split_nonempty, split_vec, views_of};
use crate::rewrite::views_of_strings;

verus! {

/// Lexicographic order on character sequences, by code point; on the
/// module names in use it coincides with the standard ordering of strings.
pub open spec fn lex_le(a: Seq<char>, b: Seq<char>) -> bool
    decreases a.len(),
{
    if a.len() == 0 {
        true
    } else if b.len() == 0 {
        false
    } else if a[0] == b[0] {
        lex_le(a.drop_first(), b.drop_first())
    } else {
        (a[0] as u32) < (b[0] as u32)
    }
}

/// The sequence is sorted by [`lex_le`].
pub open spec fn lex_sorted(s: Seq<Seq<char>>) -> bool {
    forall|i: int, j: int| 0 <= i < j < s.len() ==> lex_le(s[i], s[j])
}

pub proof fn lemma_lex_refl(a: Seq<char>)
    ensures
        lex_le(a, a),
    decreases a.len(),
{
    if a.len() > 0 {
        lemma_lex_refl(a.drop_first());
    }
}

pub proof fn lemma_lex_total(a: Seq<char>, b: Seq<char>)
    ensures
        lex_le(a, b) || lex_le(b, a),
    decreases a.len(),
{
    if a.len() > 0 && b.len() > 0 {
        if a[0] == b[0] {
            lemma_lex_total(a.drop_first(), b.drop_first());
        } else {
            vstd::utf8::char_u32_cast(a[0], a[0] as u32);
            vstd::utf8::char_u32_cast(b[0], b[0] as u32);
            assert((a[0] as u32) != (b[0] as u32));
        }
    }
}

pub proof fn lemma_lex_antisym(a: Seq<char>, b: Seq<char>)
    requires
        lex_le(a, b),
        lex_le(b, a),
    ensures
        a == b,
    decreases a.len(),
{
    if a.len() == 0 {
        assert(b.len() == 0);
        assert(a =~= b);
    } else {
        assert(b.len() > 0);
        assert(a[0] == b[0]);
        lemma_lex_antisym(a.drop_first(), b.drop_first());
        assert(a.len() == b.len());
        assert forall|i: int| 0 <= i < a.len() implies a[i] == b[i] by {
            if i > 0 {
                assert(a[i] == a.drop_first()[i - 1]);
                assert(b[i] == b.drop_first()[i - 1]);
            }
        }
        assert(a =~= b);
    }
}

pub proof fn lemma_lex_trans(a: Seq<char>, b: Seq<char>, c: Seq<char>)
    requires
        lex_le(a, b),
        lex_le(b, c),
    ensures
        lex_le(a, c),
    decreases a.len(),
{
    if a.len() > 0 && b.len() > 0 && c.len() > 0 {
        if a[0] == b[0] && b[0] == c[0] {
            lemma_lex_trans(a.drop_first(), b.drop_first(), c.drop_first());
        }
    }
}

/// [`lex_le`] is a total ordering.
pub proof fn lemma_lex_total_ordering()
    ensures
        total_ordering(|a: Seq<char>, b: Seq<char>| lex_le(a, b)),
{
    let leq = |a: Seq<char>, b: Seq<char>| lex_le(a, b);
    assert forall|a: Seq<char>| #[trigger] leq(a, a) by {
        lemma_lex_refl(a);
    }
    assert forall|a: Seq<char>, b: Seq<char>| #[trigger] leq(a, b) && #[trigger] leq(b, a)
        implies a == b by {
        lemma_lex_antisym(a, b);
    }
    assert forall|a: Seq<char>, b: Seq<char>, c: Seq<char>|
        #[trigger] leq(a, b) && #[trigger] leq(b, c) implies leq(a, c) by {
        lemma_lex_trans(a, b, c);
    }
    assert forall|a: Seq<char>, b: Seq<char>| #[trigger] leq(a, b) || #[trigger] leq(b, a) by {
        lemma_lex_total(a, b);
    }
}

/// Ordering determinism: sorted sequences holding the same names, however
/// they were produced, are one and the same sequence.  In particular the
/// module-name ordering used to build the batch test program is identical
/// across repeated runs over a fixed generated module set.
pub proof fn lemma_ordering_deterministic(a: Seq<Seq<char>>, b: Seq<Seq<char>>)
    requires
        lex_sorted(a),
        lex_sorted(b),
        a.to_multiset() == b.to_multiset(),
    ensures
        a == b,
{
    let leq = |x: Seq<char>, y: Seq<char>| lex_le(x, y);
    lemma_lex_total_ordering();
    assert(sorted_by(a, leq)) by {
        assert(forall|i: int, j: int| 0 <= i < j < a.len() ==> #[trigger] leq(a[i], a[j]));
    }
    assert(sorted_by(b, leq)) by {
        assert(forall|i: int, j: int| 0 <= i < j < b.len() ==> #[trigger] leq(b[i], b[j]));
    }
    lemma_sorted_unique(a, b, leq);
    assert(a =~= b);
}

/// Executable comparison by [`lex_le`].
pub fn lex_le_exec(a: &Vec<char>, b: &Vec<char>) -> (r: bool)
    ensures
        r == lex_le(a@, b@),
{
    let mut i: usize = 0;
    proof {
        assert(a@.skip(0) =~= a@);
        assert(b@.skip(0) =~= b@);
    }
    while i < a.len() && i < b.len()
        invariant
            0 <= i <= a@.len(),
            i <= b@.len(),
            lex_le(a@, b@) == lex_le(a@.skip(i as int), b@.skip(i as int)),
            lex_le(b@, a@) == lex_le(b@.skip(i as int), a@.skip(i as int)),
        decreases a@.len() - i,
    {
        if a[i] != b[i] {
            proof {
                assert(a@.skip(i as int)[0] == a@[i as int]);
                assert(b@.skip(i as int)[0] == b@[i as int]);
            }
            return (a[i] as u32) < (b[i] as u32);
        }
        proof {
            assert(a@.skip(i as int)[0] == a@[i as int]);
            assert(b@.skip(i as int)[0] == b@[i as int]);
            assert(a@.skip(i as int).drop_first() =~= a@.skip(i + 1));
            assert(b@.skip(i as int).drop_first() =~= b@.skip(i + 1));
        }
        i += 1;
    }
    proof {
        if i == a.len() {
            assert(a@.skip(i as int).len() == 0);
        } else {
            assert(b@.skip(i as int).len() == 0);
            assert(a@.skip(i as int).len() > 0);
        }
    }
    i == a.len()
}

/// Sort character vectors into lexicographic order.  The result is sorted
/// and holds exactly the input names; by
/// [`lemma_ordering_deterministic`] those two facts pin it down completely.
pub fn sort_names(v: Vec<Vec<char>>) -> (r: Vec<Vec<char>>)
    ensures
        lex_sorted(views_of(r@)),
        views_of(r@).to_multiset() == views_of(v@).to_multiset(),
{
    broadcast use vstd::seq_lib::group_to_multiset_ensures;
    broadcast use vstd::multiset::group_multiset_axioms;

    let ghost orig = views_of(v@);
    let mut rest = v;
    let mut out: Vec<Vec<char>> = Vec::new();
    proof {
        assert(views_of(out@) =~= Seq::<Seq<char>>::empty());
        assert(views_of(out@).to_multiset().add(views_of(rest@).to_multiset()) =~= views_of(
            rest@,
        ).to_multiset());
    }
    while rest.len() > 0
        invariant
            views_of(out@).to_multiset().add(views_of(rest@).to_multiset()) == orig.to_multiset(),
            lex_sorted(views_of(out@)),
            forall|p: int, q: int|
                0 <= p < views_of(out@).len() && 0 <= q < views_of(rest@).len() ==> lex_le(
                    views_of(out@)[p],
                    views_of(rest@)[q],
                ),
        decreases rest@.len(),
    {
        let mut m: usize = 0;
        let mut k: usize = 1;
        proof {
            lemma_lex_refl(views_of(rest@)[0]);
        }
        while k < rest.len()
            invariant
                1 <= k <= rest@.len(),
                m < k,
                forall|j: int| 0 <= j < k ==> lex_le(views_of(rest@)[m as int], views_of(rest@)[j]),
            decreases rest@.len() - k,
        {
            if lex_le_exec(&rest[k], &rest[m]) {
                proof {
                    assert forall|j: int| 0 <= j < k + 1 implies lex_le(
                        views_of(rest@)[k as int],
                        views_of(rest@)[j],
                    ) by {
                        if j < k {
                            lemma_lex_trans(
                                views_of(rest@)[k as int],
                                views_of(rest@)[m as int],
                                views_of(rest@)[j],
                            );
                        } else {
                            lemma_lex_refl(views_of(rest@)[k as int]);
                        }
                    }
                }
                m = k;
            } else {
                proof {
                    lemma_lex_total(views_of(rest@)[k as int], views_of(rest@)[m as int]);
                }
            }
            k += 1;
        }
        let ghost pre_out = views_of(out@);
        let ghost pre_rest = views_of(rest@);
        let picked = rest.remove(m);
        out.push(picked);
        proof {
            assert(views_of(out@) =~= pre_out.push(pre_rest[m as int]));
            assert(views_of(rest@) =~= pre_rest.remove(m as int));
            vstd::seq_lib::to_multiset_build(pre_out, pre_rest[m as int]);
            vstd::seq_lib::to_multiset_remove(pre_rest, m as int);
            assert(views_of(out@).to_multiset() == pre_out.to_multiset().insert(
                pre_rest[m as int],
            ));
            assert(views_of(rest@).to_multiset() == pre_rest.to_multiset().remove(
                pre_rest[m as int],
            ));
            vstd::seq_lib::to_multiset_contains(pre_rest, pre_rest[m as int]);
            assert(pre_rest.to_multiset().contains(pre_rest[m as int])) by {
                assert(pre_rest.contains(pre_rest[m as int]));
            }
            assert(views_of(out@).to_multiset().add(views_of(rest@).to_multiset()) =~= pre_out
                .to_multiset().add(pre_rest.to_multiset()));
            assert forall|p: int, q: int|
                0 <= p < views_of(out@).len() && 0 <= q < views_of(rest@).len() implies lex_le(
                views_of(out@)[p],
                views_of(rest@)[q],
            ) by {
                let rq = views_of(rest@)[q];
                assert(rq == pre_rest[q] || rq == pre_rest[q + 1]);
                if p < pre_out.len() {
                    assert(lex_le(pre_out[p], rq));
                } else {
                    assert(views_of(out@)[p] == pre_rest[m as int]);
                    assert(lex_le(pre_rest[m as int], rq));
                }
            }
            assert(lex_sorted(views_of(out@))) by {
                assert forall|p: int, q: int|
                    0 <= p < q < views_of(out@).len() implies lex_le(
                    views_of(out@)[p],
                    views_of(out@)[q],
                ) by {
                    if q < pre_out.len() {
                        assert(lex_le(pre_out[p], pre_out[q]));
                    } else {
                        assert(views_of(out@)[q] == pre_rest[m as int]);
                        assert(lex_le(pre_out[p], pre_rest[m as int]));
                    }
                }
            }
        }
    }
    proof {
        assert(views_of(rest@).to_multiset() =~= Multiset::<Seq<char>>::empty());
        assert(views_of(out@).to_multiset() =~= orig.to_multiset());
    }
    out
}

/// The file name at the end of a relative path.
pub open spec fn base_name(rel: Seq<char>) -> Seq<char> {
    rel.subrange(last_index_of(rel, '/', rel.len() - 1) + 1, rel.len() as int)
}

/// The relative path names a Python source file: its file name carries the
/// `py` extension.
pub open spec fn is_py_path(rel: Seq<char>) -> bool {
    let name = base_name(rel);
    let d = last_index_of(name, '.', name.len() - 1);
    d >= 1 && name.subrange(d + 1, name.len() as int) == "py"@
}

/// Some configured suffix matches the relative path.
pub open spec fn any_suffix_matches(rel: Seq<char>, sufs: Seq<Seq<char>>) -> bool {
    exists|k: int| 0 <= k < sufs.len() && seq_ends_with(rel, #[trigger] sufs[k])
}

/// The dotted module name of a candidate file, or nothing when the file is
/// no candidate: it must be a Python source file, not a package marker,
/// and — when any Python module suffixes are configured — match one of
/// them; the name is the path without its extension, segments joined with
/// dots.
pub open spec fn spec_module_name(rel: Seq<char>, py_sufs: Seq<Seq<char>>) -> Option<Seq<char>> {
    if !is_py_path(rel) {
        None
    } else if base_name(rel) == "__init__.py"@ {
        None
    } else if py_sufs.len() > 0 && !any_suffix_matches(rel, py_sufs) {
        None
    } else {
        let stem = rel.subrange(0, rel.len() - ".py"@.len());
        let parts = split_nonempty(stem, '/');
        if parts.len() == 0 {
            None
        } else {
            Some(join_with_from(parts, '.', 0))
        }
    }
}

proof fn lemma_last_index_bounds(s: Seq<char>, c: char, i: int)
    requires
        -1 <= i < s.len(),
    ensures
        -1 <= last_index_of(s, c, i) <= i,
        last_index_of(s, c, i) >= 0 ==> s[last_index_of(s, c, i)] == c,
    decreases i + 1,
{
    if i >= 0 && s[i] != c {
        lemma_last_index_bounds(s, c, i - 1);
    }
}

fn last_dot_from(v: &Vec<char>, start: usize) -> (r: Option<usize>)
    requires
        1 <= start <= v@.len(),
    ensures
        ({
            let i = last_index_of(v@, '.', v@.len() - 1);
            match r {
                None => i < start,
                Some(d) => i == d as int && start <= d < v@.len(),
            }
        }),
{
    let mut j: usize = v.len();
    while j > start
        invariant
            start <= j <= v@.len(),
            last_index_of(v@, '.', v@.len() - 1) == last_index_of(v@, '.', j - 1),
        decreases j,
    {
        if v[j - 1] == '.' {
            proof {
                assert(last_index_of(v@, '.', j - 1) == j - 1);
            }
            return Some(j - 1);
        }
        j -= 1;
    }
    proof {
        lemma_last_index_bounds(v@, '.', start - 1);
    }
    None
}

fn base_name_vec(rel: &Vec<char>) -> (r: Vec<char>)
    ensures
        r@ == base_name(rel@),
{
    let mut j: usize = rel.len();
    while j > 0
        invariant
            0 <= j <= rel@.len(),
            last_index_of(rel@, '/', rel@.len() - 1) == last_index_of(rel@, '/', j - 1),
        decreases j,
    {
        if rel[j - 1] == '/' {
            proof {
                assert(last_index_of(rel@, '/', j - 1) == j - 1);
            }
            return subvec(rel, j, rel.len());
        }
        j -= 1;
    }
    proof {
        assert(last_index_of(rel@, '/', rel@.len() - 1) == -1);
    }
    let all = subvec(rel, 0, rel.len());
    proof {
        assert(all@ =~= rel@);
    }
    all
}

fn is_py_path_exec(rel: &Vec<char>) -> (r: bool)
    ensures
        r == is_py_path(rel@),
{
    let name = base_name_vec(rel);
    if name.len() == 0 {
        return false;
    }
    match last_dot_from(&name, 1) {
        None => {
            proof {
                let d = last_index_of(name@, '.', name@.len() - 1);
                assert(!(d >= 1));
            }
            false
        },
        Some(d) => {
            proof {
                reveal_strlit("py");
            }
            let r = name.len() - d == 3 && match_lit(&name, d + 1, "py");
            proof {
                if r {
                    assert(name@.subrange(d + 1, name@.len() as int) =~= "py"@);
                } else {
                    if name@.subrange(d + 1, name@.len() as int) == "py"@ {
                        assert(name@.subrange(d + 1, name@.len() as int).len() == 2);
                        assert(occurs_at(name@, "py"@, d + 1)) by {
                            assert(name@.len() == d + 3);
                        }
                    }
                }
            }
            r
        },
    }
}

proof fn lemma_py_path_len(rel: Seq<char>)
    requires
        is_py_path(rel),
    ensures
        rel.len() >= 4,
{
    reveal_strlit("py");
    let name = base_name(rel);
    let d = last_index_of(name, '.', name.len() - 1);
    assert(name.len() >= 1) by {
        if name.len() == 0 {
            assert(d == -1);
        }
    }
    lemma_last_index_bounds(name, '.', name.len() - 1);
    assert(name.subrange(d + 1, name.len() as int).len() == 2);
    assert(name.len() == d + 3);
    lemma_last_index_bounds(rel, '/', rel.len() - 1);
}

fn module_name_vec(rel: &Vec<char>, py_sufs: &Vec<Vec<char>>) -> (r: Option<Vec<char>>)
    ensures
        ({
            let m = spec_module_name(rel@, views_of(py_sufs@));
            match r {
                None => m is None,
                Some(v) => m == Some(v@),
            }
        }),
{
    if !is_py_path_exec(rel) {
        return None;
    }
    proof {
        lemma_py_path_len(rel@);
    }
    let name = base_name_vec(rel);
    proof {
        reveal_strlit("__init__.py");
    }
    if name.len() == 11 && match_lit(&name, 0, "__init__.py") {
        proof {
            assert(name@ =~= "__init__.py"@);
        }
        return None;
    }
    proof {
        if name@ == "__init__.py"@ {
            assert(occurs_at(name@, "__init__.py"@, 0)) by {
                assert(name@.subrange(0, "__init__.py"@.len() as int) =~= name@);
            }
        }
    }
    if py_sufs.len() > 0 {
        let mut k: usize = 0;
        let mut found = false;
        while k < py_sufs.len() && !found
            invariant
                0 <= k <= py_sufs@.len(),
                found ==> any_suffix_matches(rel@, views_of(py_sufs@)),
                !found ==> forall|j: int|
                    0 <= j < k ==> !seq_ends_with(rel@, views_of(py_sufs@)[j]),
            decreases py_sufs@.len() - k,
        {
            if ends_with_vec(rel, &py_sufs[k]) {
                proof {
                    assert(seq_ends_with(rel@, views_of(py_sufs@)[k as int]));
                }
                found = true;
            }
            k += 1;
        }
        if !found {
            return None;
        }
    }
    let stem = subvec(rel, 0, rel.len() - 3);
    proof {
        reveal_strlit(".py");
        assert(stem@ =~= rel@.subrange(0, rel@.len() - ".py"@.len()));
    }
    let parts = split_vec(&stem, '/');
    if parts.len() == 0 {
        return None;
    }
    let joined = crate::paths::join_segments(&parts, 0, '.');
    Some(joined)
}

/// The dotted module name that the relative path contributes to the
/// verification run, if any.
pub fn module_name_from_rel_path(rel: &str, py_suffixes: &Vec<String>) -> (r: Option<String>)
    ensures
        ({
            let m = spec_module_name(rel@, views_of_strings(py_suffixes@));
            match r {
                None => m is None,
                Some(s) => m == Some(s@),
            }
        }),
{
    let rv = chars_of(rel);
    let sufs = crate::rewrite::paths_to_vecs(py_suffixes);
    match module_name_vec(&rv, &sufs) {
        None => None,
        Some(v) => Some(string_from_chars(&v)),
    }
}

/// The configured suffixes that select Python source files.
pub open spec fn py_only(sufs: Seq<Seq<char>>, i: int) -> Seq<Seq<char>>
    decreases sufs.len() - i,
{
    if i < 0 || i >= sufs.len() {
        Seq::empty()
    } else if seq_ends_with(sufs[i], ".py"@) {
        seq![sufs[i]] + py_only(sufs, i + 1)
    } else {
        py_only(sufs, i + 1)
    }
}

/// Keep the configured module suffixes that select Python source files.
pub fn filter_py_suffixes(module_suffixes: &Vec<String>) -> (r: Vec<String>)
    ensures
        views_of_strings(r@) == py_only(views_of_strings(module_suffixes@), 0),
{
    let ghost vs = views_of_strings(module_suffixes@);
    let mut r: Vec<String> = Vec::new();
    let mut i: usize = 0;
    proof {
        assert(views_of_strings(r@) =~= Seq::<Seq<char>>::empty());
    }
    while i < module_suffixes.len()
        invariant
            0 <= i <= module_suffixes@.len(),
            vs == views_of_strings(module_suffixes@),
            views_of_strings(r@) + py_only(vs, i as int) == py_only(vs, 0),
        decreases module_suffixes@.len() - i,
    {
        let ghost pre = views_of_strings(r@);
        let sv = chars_of(module_suffixes[i].as_str());
        if ends_with_lit(&sv, ".py") {
            let copy = module_suffixes[i].clone();
            r.push(copy);
            proof {
                assert(views_of_strings(r@) =~= pre.push(vs[i as int]));
                assert(pre.push(vs[i as int]) + py_only(vs, i + 1) =~= pre + (seq![vs[i as int]]
                    + py_only(vs, i + 1)));
            }
        }
        i += 1;
    }
    proof {
        assert(views_of_strings(r@) + Seq::<Seq<char>>::empty() =~= views_of_strings(r@));
    }
    r
}

/// The candidate module names of `rels[i..]`, in input order.
pub open spec fn candidate_names(rels: Seq<Seq<char>>, py_sufs: Seq<Seq<char>>, i: int) -> Seq<
    Seq<char>,
>
    decreases rels.len() - i,
{
    if i < 0 || i >= rels.len() {
        Seq::empty()
    } else {
        (match spec_module_name(rels[i], py_sufs) {
            None => Seq::<Seq<char>>::empty(),
            Some(n) => seq![n],
        }) + candidate_names(rels, py_sufs, i + 1)
    }
}

fn strings_of(v: &Vec<Vec<char>>) -> (r: Vec<String>)
    ensures
        views_of_strings(r@) == views_of(v@),
{
    let mut r: Vec<String> = Vec::new();
    let mut i: usize = 0;
    while i < v.len()
        invariant
            0 <= i <= v@.len(),
            r@.len() == i as int,
            forall|j: int| 0 <= j < i ==> r@[j]@ == v@[j]@,
        decreases v@.len() - i,
    {
        r.push(string_from_chars(&v[i]));
        i += 1;
    }
    proof {
        assert(views_of_strings(r@) =~= views_of(v@));
    }
    r
}

/// Enumerate the candidate modules of the output tree and order them.
///
/// `rel_paths` are the paths of the files under the output root, relative
/// to it; the result holds the dotted module name of every candidate file,
/// sorted — the deterministic ordering the batch test program is built
/// from.
pub fn collect_candidate_modules(rel_paths: &Vec<String>, module_suffixes: &Vec<String>) -> (r:
    Vec<String>)
    ensures
        lex_sorted(views_of_strings(r@)),
        views_of_strings(r@).to_multiset() == candidate_names(
            views_of_strings(rel_paths@),
            py_only(views_of_strings(module_suffixes@), 0),
            0,
        ).to_multiset(),
{
    let ghost rels = views_of_strings(rel_paths@);
    let ghost sufs = py_only(views_of_strings(module_suffixes@), 0);
    let py_sufs = filter_py_suffixes(module_suffixes);
    let py_vecs = crate::rewrite::paths_to_vecs(&py_sufs);
    let mut names: Vec<Vec<char>> = Vec::new();
    let mut i: usize = 0;
    proof {
        assert(views_of(names@) =~= Seq::<Seq<char>>::empty());
    }
    while i < rel_paths.len()
        invariant
            0 <= i <= rel_paths@.len(),
            rels == views_of_strings(rel_paths@),
            sufs == py_only(views_of_strings(module_suffixes@), 0),
            views_of(py_vecs@) == sufs,
            views_of(names@) + candidate_names(rels, sufs, i as int) == candidate_names(
                rels,
                sufs,
                0,
            ),
        decreases rel_paths@.len() - i,
    {
        let ghost pre = views_of(names@);
        let rv = chars_of(rel_paths[i].as_str());
        match module_name_vec(&rv, &py_vecs) {
            None => {
                proof {
                    assert(Seq::<Seq<char>>::empty() + candidate_names(rels, sufs, i + 1)
                        =~= candidate_names(rels, sufs, i + 1));
                }
            },
            Some(n) => {
                let ghost nv = n@;
                names.push(n);
                proof {
                    assert(views_of(names@) =~= pre.push(nv));
                    assert(pre.push(nv) + candidate_names(rels, sufs, i + 1) =~= pre + (seq![nv]
                        + candidate_names(rels, sufs, i + 1)));
                }
            },
        }
        i += 1;
    }
    proof {
        assert(views_of(names@) + Seq::<Seq<char>>::empty() =~= views_of(names@));
    }
    let sorted = sort_names(names);
    strings_of(&sorted)
}

/// A structured marker on one line of the batch test program's error
/// stream.
pub enum BatchMarker {
    Summary(String),
    Success(String),
    Error(String),
    Other,
}

/// Classify one line of the batch run's error stream by its marker prefix,
/// handing back the text after the prefix.
pub fn classify_batch_line(line: &str) -> (r: BatchMarker)
    ensures
        match r {
            BatchMarker::Summary(s) => occurs_at(line@, "IMPORT_TEST_SUMMARY:"@, 0) && s@
                == line@.skip("IMPORT_TEST_SUMMARY:"@.len() as int),
            BatchMarker::Success(s) => occurs_at(line@, "IMPORT_TEST_SUCCESS:"@, 0) && s@
                == line@.skip("IMPORT_TEST_SUCCESS:"@.len() as int),
            BatchMarker::Error(s) => occurs_at(line@, "IMPORT_ERROR:"@, 0) && s@ == line@.skip(
                "IMPORT_ERROR:"@.len() as int,
            ),
            BatchMarker::Other => !occurs_at(line@, "IMPORT_TEST_SUMMARY:"@, 0) && !occurs_at(
                line@,
                "IMPORT_TEST_SUCCESS:"@,
                0,
            ) && !occurs_at(line@, "IMPORT_ERROR:"@, 0),
        },
{
    let lv = chars_of(line);
    proof {
        reveal_strlit("IMPORT_TEST_SUMMARY:");
        reveal_strlit("IMPORT_TEST_SUCCESS:");
        reveal_strlit("IMPORT_ERROR:");
    }
    if match_lit(&lv, 0, "IMPORT_TEST_SUMMARY:") {
        let rest = subvec(&lv, 20, lv.len());
        proof {
            assert(rest@ =~= line@.skip("IMPORT_TEST_SUMMARY:"@.len() as int));
        }
        BatchMarker::Summary(string_from_chars(&rest))
    } else if match_lit(&lv, 0, "IMPORT_TEST_SUCCESS:") {
        let rest = subvec(&lv, 20, lv.len());
        proof {
            assert(rest@ =~= line@.skip("IMPORT_TEST_SUCCESS:"@.len() as int));
        }
        BatchMarker::Success(string_from_chars(&rest))
    } else if match_lit(&lv, 0, "IMPORT_ERROR:") {
        let rest = subvec(&lv, 13, lv.len());
        proof {
            assert(rest@ =~= line@.skip("IMPORT_ERROR:"@.len() as int));
        }
        BatchMarker::Error(string_from_chars(&rest))
    } else {
        BatchMarker::Other
    }
}

/// The categorized message of the first marker line of one fallback run,
/// if any line carries a marker.
pub open spec fn fallback_prefix_message(l: Seq<char>) -> Option<Seq<char>> {
    if occurs_at(l, "RELATIVE_IMPORT_ERROR:"@, 0) {
        Some("Relative import issue: "@ + l.skip("RELATIVE_IMPORT_ERROR:"@.len() as int))
    } else if occurs_at(l, "IMPORT_ERROR:"@, 0) {
        Some("Import error: "@ + l.skip("IMPORT_ERROR:"@.len() as int))
    } else if occurs_at(l, "MODULE_NOT_FOUND_ERROR:"@, 0) {
        Some("Module not found: "@ + l.skip("MODULE_NOT_FOUND_ERROR:"@.len() as int))
    } else if occurs_at(l, "SYNTAX_ERROR:"@, 0) {
        Some("Syntax error: "@ + l.skip("SYNTAX_ERROR:"@.len() as int))
    } else if occurs_at(l, "GENERAL_ERROR:"@, 0) {
        Some("General error: "@ + l.skip("GENERAL_ERROR:"@.len() as int))
    } else {
        None
    }
}

/// The failure message of one failed fallback run: the message of its
/// first marker line, or the fallback text carrying the exit code.
pub open spec fn spec_fallback_message(ls: Seq<Seq<char>>, code: int, i: int) -> Seq<char>
    decreases ls.len() - i,
{
    if i < 0 || i >= ls.len() {
        "Unknown error (exit code: "@ + dec_int(code) + ")"@
    } else {
        match fallback_prefix_message(ls[i]) {
            Some(m) => m,
            None => spec_fallback_message(ls, code, i + 1),
        }
    }
}

fn prefixed_message(lv: &Vec<char>, prefix: &str, label: &str) -> (r: String)
    requires
        occurs_at(lv@, prefix@, 0),
    ensures
        r@ == label@ + lv@.skip(prefix@.len() as int),
{
    let plen = prefix.unicode_len();
    let mut s: Vec<char> = Vec::new();
    push_str_chars(&mut s, label);
    let rest = subvec(lv, plen, lv.len());
    push_all(&mut s, &rest);
    proof {
        assert(s@ =~= label@ + lv@.skip(prefix@.len() as int));
    }
    string_from_chars(&s)
}

/// Pick the failure message out of one fallback run's error stream: the
/// first line carrying a categorized marker decides; without one, report
/// the exit code.
pub fn parse_fallback_error(lines: &Vec<String>, exit_code: i32) -> (r: String)
    ensures
        r@ == spec_fallback_message(views_of_strings(lines@), exit_code as int, 0),
{
    let ghost ls = views_of_strings(lines@);
    proof {
        reveal_strlit("RELATIVE_IMPORT_ERROR:");
        reveal_strlit("IMPORT_ERROR:");
        reveal_strlit("MODULE_NOT_FOUND_ERROR:");
        reveal_strlit("SYNTAX_ERROR:");
        reveal_strlit("GENERAL_ERROR:");
    }
    let mut i: usize = 0;
    while i < lines.len()
        invariant
            0 <= i <= lines@.len(),
            ls == views_of_strings(lines@),
            spec_fallback_message(ls, exit_code as int, 0) == spec_fallback_message(
                ls,
                exit_code as int,
                i as int,
            ),
        decreases lines@.len() - i,
    {
        let lv = chars_of(lines[i].as_str());
        if match_lit(&lv, 0, "RELATIVE_IMPORT_ERROR:") {
            return prefixed_message(&lv, "RELATIVE_IMPORT_ERROR:", "Relative import issue: ");
        }
        if match_lit(&lv, 0, "IMPORT_ERROR:") {
            return prefixed_message(&lv, "IMPORT_ERROR:", "Import error: ");
        }
        if match_lit(&lv, 0, "MODULE_NOT_FOUND_ERROR:") {
            return prefixed_message(&lv, "MODULE_NOT_FOUND_ERROR:", "Module not found: ");
        }
        if match_lit(&lv, 0, "SYNTAX_ERROR:") {
            return prefixed_message(&lv, "SYNTAX_ERROR:", "Syntax error: ");
        }
        if match_lit(&lv, 0, "GENERAL_ERROR:") {
            return prefixed_message(&lv, "GENERAL_ERROR:", "General error: ");
        }
        i += 1;
    }
    let mut s: Vec<char> = Vec::new();
    push_str_chars(&mut s, "Unknown error (exit code: ");
    crate::chars::push_dec_i32(&mut s, exit_code);
    push_str_chars(&mut s, ")");
    proof {
        assert(s@ =~= "Unknown error (exit code: "@ + dec_int(exit_code as int) + ")"@);
    }
    string_from_chars(&s)
}

/// The final error text when the fallback pass confirmed failing modules.
pub fn dry_run_failure_message(failed: usize, total: usize) -> (r: String)
    ensures
        r@ == "import dry-run failed for "@ + dec_int(failed as int) + " modules (out of "@
            + dec_int(total as int) + "). Use -v for more details."@,
{
    let mut s: Vec<char> = Vec::new();
    push_str_chars(&mut s, "import dry-run failed for ");
    crate::chars::push_dec_usize(&mut s, failed);
    push_str_chars(&mut s, " modules (out of ");
    crate::chars::push_dec_usize(&mut s, total);
    push_str_chars(&mut s, "). Use -v for more details.");
    proof {
        assert(s@ =~= "import dry-run failed for "@ + dec_int(failed as int)
            + " modules (out of "@ + dec_int(total as int) + "). Use -v for more details."@);
    }
    string_from_chars(&s)
}

/// One confirmed failing module with its categorized message.
pub struct ModuleFailure {
    pub module: String,
    pub message: String,
}

/// The overall result of the import verification pass.
pub enum VerifyOutcome {
    /// The batch run succeeded.
    Passed,
    /// The batch run failed but the fallback pass confirmed no failing
    /// module: a possible package-structure misconfiguration, logged as a
    /// warning, not a failure.
    PassedWithWarning,
    /// The fallback pass confirmed failing modules.
    Failed,
}

/// Decide the overall verification result: a successful batch run passes;
/// a failed batch run is judged by the fallback pass, which fails the run
/// exactly when it confirms at least one failing module.
pub fn evaluate_import_results(batch_ok: bool, fallback_failures: Option<&Vec<ModuleFailure>>)
    -> (r: VerifyOutcome)
    requires
        batch_ok <==> fallback_failures is None,
    ensures
        (r is Passed <==> batch_ok),
        (r is PassedWithWarning <==> (!batch_ok && fallback_failures->0@.len() == 0)),
        (r is Failed <==> (!batch_ok && fallback_failures->0@.len() > 0)),
{
    match fallback_failures {
        None => VerifyOutcome::Passed,
        Some(fails) => {
            if fails.len() == 0 {
                VerifyOutcome::PassedWithWarning
            } else {
                VerifyOutcome::Failed
            }
        },
    }
}

/// What the import pass must do for a candidate-module list.
pub enum ImportCheckPlan {
    /// No candidate modules: verification succeeds trivially, no test
    /// process runs.
    TrivialPass,
    /// Run the batch test program.
    RunBatch(String),
}

/// Plan the import pass: an empty candidate-module list passes trivially
/// with no test process; otherwise the batch test program over exactly the
/// given modules is to be run.
pub fn plan_import_check(package_name: &str, modules: &Vec<String>) -> (r: ImportCheckPlan)
    ensures
        (r is TrivialPass <==> modules@.len() == 0),
        match r {
            ImportCheckPlan::TrivialPass => true,
            ImportCheckPlan::RunBatch(s) => s@ == crate::script::spec_import_test_script(
                package_name@,
                views_of_strings(modules@),
            ),
        },
{
    if modules.len() == 0 {
        ImportCheckPlan::TrivialPass
    } else {
        ImportCheckPlan::RunBatch(crate::script::create_import_test_script(package_name, modules))
    }
}

} // verus!
