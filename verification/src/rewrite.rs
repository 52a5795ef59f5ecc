//! The import rewrite engine.
//!
//! Generated binding files refer to sibling generated modules with absolute
//! imports.  The engine recognises three line shapes — `import M`,
//! `import M as A`, and `from P import N [as A]` — and rewrites references to
//! modules that exist in the output tree into package-relative form.  A line
//! that already starts with a relative import marker is never touched.
//!
//! Matching is line-oriented: each physical line is classified on its own,
//! exactly one way.  After the per-line pass, every rewritten fully-qualified
//! name is also replaced, word-boundary-delimited and with a trailing dot,
//! throughout the whole file, which repairs references inside generated type
//! annotations.

use vstd::prelude::*;
use crate::chars::{
    contains_seq, contains_vec, chars_of, ends_with_lit, ends_with_vec, is_dotted_char,
    is_space_char, is_word_char, match_lit, match_vec, occurs_at, push_all, push_str_chars,
    scan_end, seq_ends_with, skip_dotted, skip_spaces, skip_word, string_from_chars, subvec,
    vecs_eq, word_char,
};
use crate::paths::{
    append_dotted_from, common_prefix_len, join_with_from, module_dir_vec, path_from_module_vec,
    relative_prefix_vec, spec_path_from_module, spec_split_qualname, split_acc, split_nonempty,
    split_qualname_vec, views_of,
};

verus! {

/// What a single-file rewrite may consult: the directory of the file being
/// rewritten, the output root, the well-known-types exclusion flag, and the
/// paths of the files that exist in the tree.
pub ghost struct RewriteEnv {
    pub file_dir: Seq<char>,
    pub root: Seq<char>,
    pub exclude_google: bool,
    pub existing: Seq<Seq<char>>,
}

/// Match of a bare `import M` line: `indent_end` bounds the leading
/// whitespace, the module name occupies `[mod_start, mod_end)`.
pub ghost struct SimpleMatch {
    pub indent_end: int,
    pub mod_start: int,
    pub mod_end: int,
}

/// Match of an `import M as A` line.
pub ghost struct AsMatch {
    pub indent_end: int,
    pub mod_start: int,
    pub mod_end: int,
    pub alias_start: int,
    pub alias_end: int,
}

/// Match of a `from P import N [as A]` line.
pub ghost struct FromMatch {
    pub indent_end: int,
    pub pkg_start: int,
    pub pkg_end: int,
    pub name_start: int,
    pub name_end: int,
    pub alias: Option<(int, int)>,
}

/// The line, after leading whitespace, begins with the relative-import
/// marker `from .`: already converted or hand-written, never touched.
pub open spec fn starts_from_dot(l: Seq<char>) -> bool {
    occurs_at(l, "from ."@, scan_end(l, 0, |c: char| is_space_char(c)))
}

/// Deterministic match of `import M`, with `M` a dotted module name and only
/// whitespace or a `#` comment allowed afterwards.
pub open spec fn parse_import_simple(l: Seq<char>) -> Option<SimpleMatch> {
    let i0 = scan_end(l, 0, |c: char| is_space_char(c));
    if !occurs_at(l, "import"@, i0) {
        None
    } else {
        let i1 = i0 + "import"@.len();
        let i2 = scan_end(l, i1, |c: char| is_space_char(c));
        if i2 <= i1 {
            None
        } else {
            let i3 = scan_end(l, i2, |c: char| is_dotted_char(c));
            if i3 <= i2 {
                None
            } else {
                let i4 = scan_end(l, i3, |c: char| is_space_char(c));
                if i4 == l.len() || l[i4] == '#' {
                    Some(SimpleMatch { indent_end: i0, mod_start: i2, mod_end: i3 })
                } else {
                    None
                }
            }
        }
    }
}

/// Deterministic match of `import M as A`.
pub open spec fn parse_import_as(l: Seq<char>) -> Option<AsMatch> {
    let i0 = scan_end(l, 0, |c: char| is_space_char(c));
    if !occurs_at(l, "import"@, i0) {
        None
    } else {
        let i1 = i0 + "import"@.len();
        let i2 = scan_end(l, i1, |c: char| is_space_char(c));
        if i2 <= i1 {
            None
        } else {
            let i3 = scan_end(l, i2, |c: char| is_dotted_char(c));
            if i3 <= i2 {
                None
            } else {
                let i4 = scan_end(l, i3, |c: char| is_space_char(c));
                if i4 <= i3 || !occurs_at(l, "as"@, i4) {
                    None
                } else {
                    let i5 = i4 + "as"@.len();
                    let i6 = scan_end(l, i5, |c: char| is_space_char(c));
                    if i6 <= i5 {
                        None
                    } else {
                        let i7 = scan_end(l, i6, |c: char| is_word_char(c));
                        if i7 <= i6 {
                            None
                        } else {
                            let i8 = scan_end(l, i7, |c: char| is_space_char(c));
                            if i8 == l.len() || l[i8] == '#' {
                                Some(
                                    AsMatch {
                                        indent_end: i0,
                                        mod_start: i2,
                                        mod_end: i3,
                                        alias_start: i6,
                                        alias_end: i7,
                                    },
                                )
                            } else {
                                None
                            }
                        }
                    }
                }
            }
        }
    }
}

/// Deterministic match of `from P import N [as A]`.
pub open spec fn parse_from_import(l: Seq<char>) -> Option<FromMatch> {
    let i0 = scan_end(l, 0, |c: char| is_space_char(c));
    if !occurs_at(l, "from"@, i0) {
        None
    } else {
        let i1 = i0 + "from"@.len();
        let i2 = scan_end(l, i1, |c: char| is_space_char(c));
        if i2 <= i1 {
            None
        } else {
            let i3 = scan_end(l, i2, |c: char| is_dotted_char(c));
            if i3 <= i2 {
                None
            } else {
                let i4 = scan_end(l, i3, |c: char| is_space_char(c));
                if i4 <= i3 || !occurs_at(l, "import"@, i4) {
                    None
                } else {
                    let i5 = i4 + "import"@.len();
                    let i6 = scan_end(l, i5, |c: char| is_space_char(c));
                    if i6 <= i5 {
                        None
                    } else {
                        let i7 = scan_end(l, i6, |c: char| is_word_char(c));
                        if i7 <= i6 {
                            None
                        } else {
                            let i8 = scan_end(l, i7, |c: char| is_space_char(c));
                            if i8 == l.len() || l[i8] == '#' {
                                Some(
                                    FromMatch {
                                        indent_end: i0,
                                        pkg_start: i2,
                                        pkg_end: i3,
                                        name_start: i6,
                                        name_end: i7,
                                        alias: None,
                                    },
                                )
                            } else if i8 <= i7 || !occurs_at(l, "as"@, i8) {
                                None
                            } else {
                                let i9 = i8 + "as"@.len();
                                let i10 = scan_end(l, i9, |c: char| is_space_char(c));
                                if i10 <= i9 {
                                    None
                                } else {
                                    let i11 = scan_end(l, i10, |c: char| is_word_char(c));
                                    if i11 <= i10 {
                                        None
                                    } else {
                                        let i12 = scan_end(l, i11, |c: char| is_space_char(c));
                                        if i12 == l.len() || l[i12] == '#' {
                                            Some(
                                                FromMatch {
                                                    indent_end: i0,
                                                    pkg_start: i2,
                                                    pkg_end: i3,
                                                    name_start: i6,
                                                    name_end: i7,
                                                    alias: Some((i10, i11)),
                                                },
                                            )
                                        } else {
                                            None
                                        }
                                    }
                                }
                            }
                        }
                    }
                }
            }
        }
    }
}

/// The line, after leading whitespace, begins with `from .`.
pub fn line_starts_from_dot(l: &Vec<char>) -> (r: bool)
    ensures
        r == starts_from_dot(l@),
{
    let i0 = skip_spaces(l, 0);
    proof {
        crate::chars::lemma_scan_end_bounds(l@, 0, |c: char| is_space_char(c));
    }
    match_lit(l, i0, "from .")
}

fn parse_import_simple_exec(l: &Vec<char>) -> (r: Option<(usize, usize, usize)>)
    ensures
        match r {
            None => parse_import_simple(l@) is None,
            Some(t) => {
                &&& parse_import_simple(l@) == Some(
                    SimpleMatch {
                        indent_end: t.0 as int,
                        mod_start: t.1 as int,
                        mod_end: t.2 as int,
                    },
                )
                &&& t.0 <= t.1 < t.2 <= l@.len()
            },
        },
{
    proof {
        reveal_strlit("import");
        crate::chars::lemma_scan_end_bounds(l@, 0, |c: char| is_space_char(c));
    }
    let n = l.len();
    let i0 = skip_spaces(l, 0);
    if !match_lit(l, i0, "import") {
        return None;
    }
    let i1 = i0 + 6;
    let i2 = skip_spaces(l, i1);
    proof {
        crate::chars::lemma_scan_end_bounds(l@, i1 as int, |c: char| is_space_char(c));
    }
    if i2 <= i1 {
        return None;
    }
    let i3 = skip_dotted(l, i2);
    proof {
        crate::chars::lemma_scan_end_bounds(l@, i2 as int, |c: char| is_dotted_char(c));
    }
    if i3 <= i2 {
        return None;
    }
    let i4 = skip_spaces(l, i3);
    proof {
        crate::chars::lemma_scan_end_bounds(l@, i3 as int, |c: char| is_space_char(c));
    }
    if i4 == n || l[i4] == '#' {
        Some((i0, i2, i3))
    } else {
        None
    }
}

fn parse_import_as_exec(l: &Vec<char>) -> (r: Option<(usize, usize, usize, usize, usize)>)
    ensures
        match r {
            None => parse_import_as(l@) is None,
            Some(t) => {
                &&& parse_import_as(l@) == Some(
                    AsMatch {
                        indent_end: t.0 as int,
                        mod_start: t.1 as int,
                        mod_end: t.2 as int,
                        alias_start: t.3 as int,
                        alias_end: t.4 as int,
                    },
                )
                &&& t.0 <= t.1 < t.2 <= t.3 < t.4 <= l@.len()
            },
        },
{
    proof {
        reveal_strlit("import");
        reveal_strlit("as");
        crate::chars::lemma_scan_end_bounds(l@, 0, |c: char| is_space_char(c));
    }
    let n = l.len();
    let i0 = skip_spaces(l, 0);
    if !match_lit(l, i0, "import") {
        return None;
    }
    let i1 = i0 + 6;
    let i2 = skip_spaces(l, i1);
    proof {
        crate::chars::lemma_scan_end_bounds(l@, i1 as int, |c: char| is_space_char(c));
    }
    if i2 <= i1 {
        return None;
    }
    let i3 = skip_dotted(l, i2);
    proof {
        crate::chars::lemma_scan_end_bounds(l@, i2 as int, |c: char| is_dotted_char(c));
    }
    if i3 <= i2 {
        return None;
    }
    let i4 = skip_spaces(l, i3);
    proof {
        crate::chars::lemma_scan_end_bounds(l@, i3 as int, |c: char| is_space_char(c));
    }
    if i4 <= i3 || !match_lit(l, i4, "as") {
        return None;
    }
    let i5 = i4 + 2;
    let i6 = skip_spaces(l, i5);
    proof {
        crate::chars::lemma_scan_end_bounds(l@, i5 as int, |c: char| is_space_char(c));
    }
    if i6 <= i5 {
        return None;
    }
    let i7 = skip_word(l, i6);
    proof {
        crate::chars::lemma_scan_end_bounds(l@, i6 as int, |c: char| is_word_char(c));
    }
    if i7 <= i6 {
        return None;
    }
    let i8 = skip_spaces(l, i7);
    proof {
        crate::chars::lemma_scan_end_bounds(l@, i7 as int, |c: char| is_space_char(c));
    }
    if i8 == n || l[i8] == '#' {
        Some((i0, i2, i3, i6, i7))
    } else {
        None
    }
}

fn parse_from_import_exec(l: &Vec<char>) -> (r: Option<
    (usize, usize, usize, usize, usize, Option<(usize, usize)>),
>)
    ensures
        match r {
            None => parse_from_import(l@) is None,
            Some(t) => {
                &&& parse_from_import(l@) == Some(
                    FromMatch {
                        indent_end: t.0 as int,
                        pkg_start: t.1 as int,
                        pkg_end: t.2 as int,
                        name_start: t.3 as int,
                        name_end: t.4 as int,
                        alias: match t.5 {
                            None => None,
                            Some(a) => Some((a.0 as int, a.1 as int)),
                        },
                    },
                )
                &&& t.0 <= t.1 < t.2 <= t.3 < t.4 <= l@.len()
                &&& match t.5 {
                    None => true,
                    Some(a) => t.4 <= a.0 < a.1 <= l@.len(),
                }
            },
        },
{
    proof {
        reveal_strlit("from");
        reveal_strlit("import");
        reveal_strlit("as");
        crate::chars::lemma_scan_end_bounds(l@, 0, |c: char| is_space_char(c));
    }
    let n = l.len();
    let i0 = skip_spaces(l, 0);
    if !match_lit(l, i0, "from") {
        return None;
    }
    let i1 = i0 + 4;
    let i2 = skip_spaces(l, i1);
    proof {
        crate::chars::lemma_scan_end_bounds(l@, i1 as int, |c: char| is_space_char(c));
    }
    if i2 <= i1 {
        return None;
    }
    let i3 = skip_dotted(l, i2);
    proof {
        crate::chars::lemma_scan_end_bounds(l@, i2 as int, |c: char| is_dotted_char(c));
    }
    if i3 <= i2 {
        return None;
    }
    let i4 = skip_spaces(l, i3);
    proof {
        crate::chars::lemma_scan_end_bounds(l@, i3 as int, |c: char| is_space_char(c));
    }
    if i4 <= i3 || !match_lit(l, i4, "import") {
        return None;
    }
    let i5 = i4 + 6;
    let i6 = skip_spaces(l, i5);
    proof {
        crate::chars::lemma_scan_end_bounds(l@, i5 as int, |c: char| is_space_char(c));
    }
    if i6 <= i5 {
        return None;
    }
    let i7 = skip_word(l, i6);
    proof {
        crate::chars::lemma_scan_end_bounds(l@, i6 as int, |c: char| is_word_char(c));
    }
    if i7 <= i6 {
        return None;
    }
    let i8 = skip_spaces(l, i7);
    proof {
        crate::chars::lemma_scan_end_bounds(l@, i7 as int, |c: char| is_space_char(c));
    }
    if i8 == n || l[i8] == '#' {
        return Some((i0, i2, i3, i6, i7, None));
    }
    if i8 <= i7 || !match_lit(l, i8, "as") {
        return None;
    }
    let i9 = i8 + 2;
    let i10 = skip_spaces(l, i9);
    proof {
        crate::chars::lemma_scan_end_bounds(l@, i9 as int, |c: char| is_space_char(c));
    }
    if i10 <= i9 {
        return None;
    }
    let i11 = skip_word(l, i10);
    proof {
        crate::chars::lemma_scan_end_bounds(l@, i10 as int, |c: char| is_word_char(c));
    }
    if i11 <= i10 {
        return None;
    }
    let i12 = skip_spaces(l, i11);
    proof {
        crate::chars::lemma_scan_end_bounds(l@, i11 as int, |c: char| is_space_char(c));
    }
    if i12 == n || l[i12] == '#' {
        Some((i0, i2, i3, i6, i7, Some((i10, i11))))
    } else {
        None
    }
}

/// The name identifies a generated binding module: it carries the
/// data-structure binding suffix or the service binding suffix.
pub open spec fn has_binding_suffix(m: Seq<char>) -> bool {
    ||| (m.len() >= "_pb2"@.len() && m.subrange(m.len() - "_pb2"@.len(), m.len() as int)
        == "_pb2"@)
    ||| (m.len() >= "_pb2_grpc"@.len() && m.subrange(m.len() - "_pb2_grpc"@.len(), m.len() as int)
        == "_pb2_grpc"@)
}

pub fn binding_suffix(m: &Vec<char>) -> (r: bool)
    ensures
        r == has_binding_suffix(m@),
{
    ends_with_lit(m, "_pb2") || ends_with_lit(m, "_pb2_grpc")
}

/// The dotted name starts with the well-known-types package prefix.
pub open spec fn is_wkt_prefixed(m: Seq<char>) -> bool {
    occurs_at(m, "google.protobuf"@, 0)
}

pub fn wkt_prefixed(m: &Vec<char>) -> (r: bool)
    ensures
        r == is_wkt_prefixed(m@),
{
    match_lit(m, 0, "google.protobuf")
}

/// Some existing file has exactly the path `p`.
pub open spec fn contains_path(existing: Seq<Seq<char>>, p: Seq<char>) -> bool {
    exists|i: int| 0 <= i < existing.len() && existing[i] == p
}

pub fn contains_path_exec(existing: &Vec<Vec<char>>, p: &Vec<char>) -> (r: bool)
    ensures
        r == contains_path(views_of(existing@), p@),
{
    let mut i: usize = 0;
    while i < existing.len()
        invariant
            0 <= i <= existing@.len(),
            forall|k: int| 0 <= k < i ==> views_of(existing@)[k] != p@,
        decreases existing@.len() - i,
    {
        if vecs_eq(&existing[i], p) {
            proof {
                assert(views_of(existing@)[i as int] == p@);
            }
            return true;
        }
        i += 1;
    }
    false
}

/// `n` leading relative-import dots.
pub open spec fn dots(n: int) -> Seq<char>
    decreases n,
{
    if n <= 0 {
        Seq::empty()
    } else {
        dots(n - 1).push('.')
    }
}

/// Result of processing one line: the output text and, when the line was
/// rewritten, the recorded pair of original fully-qualified name and the
/// name the import now binds locally.
pub ghost struct LineOut {
    pub text: Seq<char>,
    pub rec: Option<(Seq<char>, Seq<char>)>,
}

/// A rewritten import line.
pub open spec fn render_line(
    indent: Seq<char>,
    from_pkg: Seq<char>,
    leaf: Seq<char>,
    alias: Option<Seq<char>>,
) -> Seq<char> {
    let base = indent + "from "@ + from_pkg + " import "@ + leaf;
    match alias {
        None => base,
        Some(a) => base + " as "@ + a,
    }
}

/// The package part of a rewritten import: one dot for the package of the
/// importing file plus one per level up to the common ancestor, then the
/// dotted path from the ancestor down to the target's directory.
pub open spec fn relative_from_pkg(env: RewriteEnv, pkg_path: Seq<char>) -> Seq<char> {
    let t_dir = append_dotted_from(env.root, pkg_path, 0);
    let f = split_nonempty(env.file_dir, '/');
    let t = split_nonempty(t_dir, '/');
    let k = common_prefix_len(f, t);
    dots(f.len() - k + 1) + join_with_from(t, '.', k)
}

/// Decide one matched import: skip it unless the subject name carries a
/// binding suffix, the reference is not excluded as a well-known type, and
/// the referenced module exists in the tree; otherwise rewrite.
pub open spec fn handle_match(
    l: Seq<char>,
    env: RewriteEnv,
    indent: Seq<char>,
    ssub: Seq<char>,
    esub: Seq<char>,
    pkg_path: Seq<char>,
    leaf: Seq<char>,
    alias: Option<Seq<char>>,
    fq: Seq<char>,
    local: Seq<char>,
) -> LineOut {
    if !has_binding_suffix(ssub) {
        LineOut { text: l, rec: None }
    } else if env.exclude_google && is_wkt_prefixed(esub) {
        LineOut { text: l, rec: None }
    } else if !contains_path(env.existing, spec_path_from_module(env.root, pkg_path, leaf)) {
        LineOut { text: l, rec: None }
    } else {
        LineOut {
            text: render_line(indent, relative_from_pkg(env, pkg_path), leaf, alias),
            rec: Some((fq, local)),
        }
    }
}

/// Process one line.
pub open spec fn rewrite_line(l: Seq<char>, env: RewriteEnv) -> LineOut {
    if starts_from_dot(l) {
        LineOut { text: l, rec: None }
    } else if parse_import_simple(l) is Some {
        let m = parse_import_simple(l)->0;
        let module = l.subrange(m.mod_start, m.mod_end);
        let q = spec_split_qualname(module);
        handle_match(
            l,
            env,
            l.subrange(0, m.indent_end),
            module,
            module,
            q.0,
            q.1,
            None,
            module,
            q.1,
        )
    } else if parse_import_as(l) is Some {
        let m = parse_import_as(l)->0;
        let module = l.subrange(m.mod_start, m.mod_end);
        let alias = l.subrange(m.alias_start, m.alias_end);
        let q = spec_split_qualname(module);
        handle_match(
            l,
            env,
            l.subrange(0, m.indent_end),
            module,
            module,
            q.0,
            q.1,
            Some(alias),
            module,
            alias,
        )
    } else if parse_from_import(l) is Some {
        let m = parse_from_import(l)->0;
        let pkg = l.subrange(m.pkg_start, m.pkg_end);
        let name = l.subrange(m.name_start, m.name_end);
        let alias = match m.alias {
            None => None,
            Some(a) => Some(l.subrange(a.0, a.1)),
        };
        let fq = if pkg.len() == 0 {
            name
        } else {
            pkg + seq!['.'] + name
        };
        let local = match alias {
            None => name,
            Some(a) => a,
        };
        handle_match(l, env, l.subrange(0, m.indent_end), name, pkg, pkg, name, alias, fq, local)
    } else {
        LineOut { text: l, rec: None }
    }
}

/// View of an optional recorded pair.
pub open spec fn pair_views(o: Option<(Vec<char>, Vec<char>)>) -> Option<(Seq<char>, Seq<char>)> {
    match o {
        None => None,
        Some(p) => Some((p.0@, p.1@)),
    }
}

/// View of an optional character vector.
pub open spec fn opt_view(o: Option<Vec<char>>) -> Option<Seq<char>> {
    match o {
        None => None,
        Some(v) => Some(v@),
    }
}

fn copy_line(l: &Vec<char>) -> (r: Vec<char>)
    ensures
        r@ == l@,
{
    let r = subvec(l, 0, l.len());
    proof {
        assert(r@ =~= l@);
    }
    r
}

fn handle_match_exec(
    l: &Vec<char>,
    file_dir: &Vec<char>,
    root: &Vec<char>,
    exclude_google: bool,
    existing: &Vec<Vec<char>>,
    indent: Vec<char>,
    ssub: &Vec<char>,
    esub: &Vec<char>,
    pkg_path: &Vec<char>,
    leaf: &Vec<char>,
    alias: Option<Vec<char>>,
    fq: Vec<char>,
    local: Vec<char>,
) -> (r: (Vec<char>, Option<(Vec<char>, Vec<char>)>))
    ensures
        ({
            let env = RewriteEnv {
                file_dir: file_dir@,
                root: root@,
                exclude_google,
                existing: views_of(existing@),
            };
            let out = handle_match(
                l@,
                env,
                indent@,
                ssub@,
                esub@,
                pkg_path@,
                leaf@,
                opt_view(alias),
                fq@,
                local@,
            );
            r.0@ == out.text && pair_views(r.1) == out.rec
        }),
{
    if !binding_suffix(ssub) {
        return (copy_line(l), None);
    }
    if exclude_google && wkt_prefixed(esub) {
        return (copy_line(l), None);
    }
    let target = path_from_module_vec(root, pkg_path, leaf);
    if !contains_path_exec(existing, &target) {
        return (copy_line(l), None);
    }
    let t_dir = module_dir_vec(root, pkg_path);
    let (ups, rem) = relative_prefix_vec(file_dir, &t_dir);
    let ghost env = RewriteEnv {
        file_dir: file_dir@,
        root: root@,
        exclude_google,
        existing: views_of(existing@),
    };
    let mut out: Vec<char> = Vec::new();
    push_all(&mut out, &indent);
    push_str_chars(&mut out, "from ");
    let ghost pre = indent@ + "from "@;
    out.push('.');
    proof {
        assert(dots(0) =~= Seq::<char>::empty());
        assert(dots(1) =~= seq!['.']);
        assert(out@ =~= pre + dots(1));
    }
    let mut k: usize = 0;
    while k < ups
        invariant
            0 <= k <= ups,
            out@ == pre + dots(k + 1),
        decreases ups - k,
    {
        out.push('.');
        k += 1;
        proof {
            assert(out@ =~= pre + dots(k as int + 1));
        }
    }
    push_all(&mut out, &rem);
    proof {
        assert(out@ =~= pre + relative_from_pkg(env, pkg_path@));
    }
    push_str_chars(&mut out, " import ");
    push_all(&mut out, leaf);
    match alias {
        None => {
            proof {
                assert(out@ =~= render_line(
                    indent@,
                    relative_from_pkg(env, pkg_path@),
                    leaf@,
                    opt_view(alias),
                ));
            }
            (out, Some((fq, local)))
        },
        Some(a) => {
            push_str_chars(&mut out, " as ");
            push_all(&mut out, &a);
            proof {
                assert(out@ =~= render_line(
                    indent@,
                    relative_from_pkg(env, pkg_path@),
                    leaf@,
                    opt_view(Some(a)),
                ));
            }
            (out, Some((fq, local)))
        },
    }
}

/// Process one line of a file.
pub fn rewrite_line_exec(
    l: &Vec<char>,
    file_dir: &Vec<char>,
    root: &Vec<char>,
    exclude_google: bool,
    existing: &Vec<Vec<char>>,
) -> (r: (Vec<char>, Option<(Vec<char>, Vec<char>)>))
    ensures
        ({
            let env = RewriteEnv {
                file_dir: file_dir@,
                root: root@,
                exclude_google,
                existing: views_of(existing@),
            };
            let out = rewrite_line(l@, env);
            r.0@ == out.text && pair_views(r.1) == out.rec
        }),
{
    if line_starts_from_dot(l) {
        return (copy_line(l), None);
    }
    if let Some(t) = parse_import_simple_exec(l) {
        let indent = subvec(l, 0, t.0);
        let module = subvec(l, t.1, t.2);
        let (mpath, leaf) = split_qualname_vec(&module);
        let fq = copy_line(&module);
        let local = copy_line(&leaf);
        return handle_match_exec(
            l,
            file_dir,
            root,
            exclude_google,
            existing,
            indent,
            &module,
            &module,
            &mpath,
            &leaf,
            None,
            fq,
            local,
        );
    }
    if let Some(t) = parse_import_as_exec(l) {
        let indent = subvec(l, 0, t.0);
        let module = subvec(l, t.1, t.2);
        let alias = subvec(l, t.3, t.4);
        let (mpath, leaf) = split_qualname_vec(&module);
        let fq = copy_line(&module);
        let local = copy_line(&alias);
        return handle_match_exec(
            l,
            file_dir,
            root,
            exclude_google,
            existing,
            indent,
            &module,
            &module,
            &mpath,
            &leaf,
            Some(alias),
            fq,
            local,
        );
    }
    if let Some(t) = parse_from_import_exec(l) {
        let indent = subvec(l, 0, t.0);
        let pkg = subvec(l, t.1, t.2);
        let name = subvec(l, t.3, t.4);
        let alias: Option<Vec<char>> = match t.5 {
            None => None,
            Some(a) => Some(subvec(l, a.0, a.1)),
        };
        let mut fq: Vec<char>;
        if pkg.len() == 0 {
            fq = copy_line(&name);
        } else {
            fq = copy_line(&pkg);
            fq.push('.');
            push_all(&mut fq, &name);
            proof {
                assert(fq@ =~= pkg@ + seq!['.'] + name@);
            }
        }
        let local = match &alias {
            None => copy_line(&name),
            Some(a) => copy_line(a),
        };
        return handle_match_exec(
            l,
            file_dir,
            root,
            exclude_google,
            existing,
            indent,
            &name,
            &pkg,
            &pkg,
            &name,
            alias,
            fq,
            local,
        );
    }
    (copy_line(l), None)
}

/// Drop one carriage return at the end of a line, as splitting on `\r\n`
/// line endings does.
pub open spec fn strip_cr(l: Seq<char>) -> Seq<char> {
    if l.len() > 0 && l.last() == '\r' {
        l.drop_last()
    } else {
        l
    }
}

/// Accumulator-passing worker for [`spec_lines`]: splits at `\n`, strips a
/// `\r` before each `\n`, and keeps a final unterminated line as it stands.
pub open spec fn lines_acc(s: Seq<char>, i: int, cur: Seq<char>, acc: Seq<Seq<char>>) -> Seq<
    Seq<char>,
>
    decreases s.len() - i,
{
    if i < 0 || i >= s.len() {
        if cur.len() == 0 {
            acc
        } else {
            acc.push(cur)
        }
    } else if s[i] == '\n' {
        lines_acc(s, i + 1, Seq::empty(), acc.push(strip_cr(cur)))
    } else {
        lines_acc(s, i + 1, cur.push(s[i]), acc)
    }
}

/// The physical lines of a file, without their terminators.
pub open spec fn spec_lines(s: Seq<char>) -> Seq<Seq<char>> {
    lines_acc(s, 0, Seq::empty(), Seq::empty())
}

/// Split `v` into its physical lines.
pub fn split_lines(v: &Vec<char>) -> (r: Vec<Vec<char>>)
    ensures
        views_of(r@) == spec_lines(v@),
{
    let mut cur: Vec<char> = Vec::new();
    let mut acc: Vec<Vec<char>> = Vec::new();
    let mut i: usize = 0;
    proof {
        assert(cur@ =~= Seq::<char>::empty());
        assert(views_of(acc@) =~= Seq::<Seq<char>>::empty());
    }
    while i < v.len()
        invariant
            0 <= i <= v@.len(),
            spec_lines(v@) == lines_acc(v@, i as int, cur@, views_of(acc@)),
        decreases v@.len() - i,
    {
        let ghost pre_cur = cur@;
        let ghost pre_acc = views_of(acc@);
        let c = v[i];
        if c == '\n' {
            if cur.len() > 0 && cur[cur.len() - 1] == '\r' {
                cur.pop();
                proof {
                    assert(cur@ =~= strip_cr(pre_cur));
                }
            } else {
                proof {
                    assert(cur@ =~= strip_cr(pre_cur));
                }
            }
            acc.push(cur);
            cur = Vec::new();
            proof {
                assert(views_of(acc@) =~= pre_acc.push(strip_cr(pre_cur)));
                assert(cur@ =~= Seq::<char>::empty());
                assert(lines_acc(v@, i as int, pre_cur, pre_acc) == lines_acc(
                    v@,
                    i + 1,
                    Seq::empty(),
                    pre_acc.push(strip_cr(pre_cur)),
                ));
            }
        } else {
            cur.push(c);
            proof {
                assert(lines_acc(v@, i as int, pre_cur, pre_acc) == lines_acc(
                    v@,
                    i + 1,
                    pre_cur.push(v@[i as int]),
                    pre_acc,
                ));
            }
        }
        i += 1;
    }
    if cur.len() > 0 {
        let ghost pre_cur = cur@;
        let ghost pre_acc = views_of(acc@);
        acc.push(cur);
        proof {
            assert(views_of(acc@) =~= pre_acc.push(pre_cur));
        }
    } else {
        proof {
            assert(cur@ =~= Seq::<char>::empty());
        }
    }
    acc
}

/// Output of the per-line pass over a whole file: the concatenation of the
/// processed lines, each terminated with a newline, and the recorded
/// rewrite pairs in line order.
pub ghost struct LinePassOut {
    pub out: Seq<char>,
    pub pairs: Seq<(Seq<char>, Seq<char>)>,
}

/// The per-line pass over `ls[i..]`.
pub open spec fn line_pass_from(ls: Seq<Seq<char>>, env: RewriteEnv, i: int) -> LinePassOut
    decreases ls.len() - i,
{
    if i < 0 || i >= ls.len() {
        LinePassOut { out: Seq::empty(), pairs: Seq::empty() }
    } else {
        let lo = rewrite_line(ls[i], env);
        let rest = line_pass_from(ls, env, i + 1);
        LinePassOut {
            out: lo.text + seq!['\n'] + rest.out,
            pairs: (match lo.rec {
                None => Seq::<(Seq<char>, Seq<char>)>::empty(),
                Some(p) => seq![p],
            }) + rest.pairs,
        }
    }
}

/// The per-line pass over a whole file.
pub open spec fn line_pass(ls: Seq<Seq<char>>, env: RewriteEnv) -> LinePassOut {
    line_pass_from(ls, env, 0)
}

/// Views of recorded rewrite pairs.
pub open spec fn pair_list_views(ps: Seq<(Vec<char>, Vec<char>)>) -> Seq<(Seq<char>, Seq<char>)> {
    Seq::new(ps.len(), |i: int| (ps[i].0@, ps[i].1@))
}

/// Run the per-line pass.
pub fn line_pass_exec(
    lines: &Vec<Vec<char>>,
    file_dir: &Vec<char>,
    root: &Vec<char>,
    exclude_google: bool,
    existing: &Vec<Vec<char>>,
) -> (r: (Vec<char>, Vec<(Vec<char>, Vec<char>)>))
    ensures
        ({
            let env = RewriteEnv {
                file_dir: file_dir@,
                root: root@,
                exclude_google,
                existing: views_of(existing@),
            };
            let lp = line_pass(views_of(lines@), env);
            r.0@ == lp.out && pair_list_views(r.1@) == lp.pairs
        }),
{
    let ghost env = RewriteEnv {
        file_dir: file_dir@,
        root: root@,
        exclude_google,
        existing: views_of(existing@),
    };
    let ghost ls = views_of(lines@);
    let mut out: Vec<char> = Vec::new();
    let mut pairs: Vec<(Vec<char>, Vec<char>)> = Vec::new();
    let mut i: usize = 0;
    proof {
        assert(out@ =~= Seq::<char>::empty());
        assert(pair_list_views(pairs@) =~= Seq::<(Seq<char>, Seq<char>)>::empty());
    }
    while i < lines.len()
        invariant
            0 <= i <= ls.len(),
            ls == views_of(lines@),
            env == (RewriteEnv {
                file_dir: file_dir@,
                root: root@,
                exclude_google,
                existing: views_of(existing@),
            }),
            out@ + line_pass_from(ls, env, i as int).out == line_pass(ls, env).out,
            pair_list_views(pairs@) + line_pass_from(ls, env, i as int).pairs == line_pass(
                ls,
                env,
            ).pairs,
        decreases ls.len() - i,
    {
        let ghost pre_out = out@;
        let ghost pre_pairs = pair_list_views(pairs@);
        let (text, rec) = rewrite_line_exec(&lines[i], file_dir, root, exclude_google, existing);
        proof {
            assert(ls[i as int] == lines@[i as int]@);
        }
        push_all(&mut out, &text);
        out.push('\n');
        proof {
            assert(out@ =~= pre_out + (rewrite_line(ls[i as int], env).text + seq!['\n']));
            assert(pre_out + (rewrite_line(ls[i as int], env).text + seq!['\n'])
                + line_pass_from(ls, env, i + 1).out =~= pre_out + line_pass_from(
                ls,
                env,
                i as int,
            ).out);
        }
        match rec {
            None => {
                proof {
                    assert(Seq::<(Seq<char>, Seq<char>)>::empty() + line_pass_from(
                        ls,
                        env,
                        i + 1,
                    ).pairs =~= line_pass_from(ls, env, i + 1).pairs);
                    assert(pre_pairs + line_pass_from(ls, env, i + 1).pairs =~= pre_pairs
                        + line_pass_from(ls, env, i as int).pairs);
                }
            },
            Some(p) => {
                pairs.push(p);
                proof {
                    let sp = rewrite_line(ls[i as int], env).rec->0;
                    assert(pair_list_views(pairs@) =~= pre_pairs.push(sp));
                    assert(pre_pairs.push(sp) + line_pass_from(ls, env, i + 1).pairs =~= pre_pairs
                        + (seq![sp] + line_pass_from(ls, env, i + 1).pairs));
                }
            },
        }
        i += 1;
    }
    proof {
        assert(out@ + Seq::<char>::empty() =~= out@);
        assert(pair_list_views(pairs@) + Seq::<(Seq<char>, Seq<char>)>::empty() =~= pair_list_views(
            pairs@,
        ));
    }
    (out, pairs)
}

/// A word boundary in the regular-expression sense: exactly one side of the
/// position is a word character.
pub open spec fn word_boundary(text: Seq<char>, i: int) -> bool {
    (i > 0 && i <= text.len() && is_word_char(text[i - 1])) != (0 <= i < text.len()
        && is_word_char(text[i]))
}

/// Left-to-right, non-overlapping replacement of `pat` by `rep` in
/// `text[i..]`, at word-boundary positions only.
pub open spec fn replace_from(text: Seq<char>, pat: Seq<char>, rep: Seq<char>, i: int) -> Seq<char>
    decreases text.len() - i,
{
    if i < 0 || i >= text.len() {
        Seq::empty()
    } else if pat.len() > 0 && word_boundary(text, i) && occurs_at(text, pat, i) {
        rep + replace_from(text, pat, rep, i + pat.len())
    } else {
        seq![text[i]] + replace_from(text, pat, rep, i + 1)
    }
}

/// Replace every word-boundary occurrence of `pat` in `text` by `rep`.
pub open spec fn spec_replace_all(text: Seq<char>, pat: Seq<char>, rep: Seq<char>) -> Seq<char> {
    replace_from(text, pat, rep, 0)
}

/// Executable form of [`spec_replace_all`].
pub fn replace_all(text: &Vec<char>, pat: &Vec<char>, rep: &Vec<char>) -> (r: Vec<char>)
    ensures
        r@ == spec_replace_all(text@, pat@, rep@),
{
    let mut out: Vec<char> = Vec::new();
    let mut i: usize = 0;
    proof {
        assert(out@ =~= Seq::<char>::empty());
    }
    while i < text.len()
        invariant
            0 <= i <= text@.len(),
            out@ + replace_from(text@, pat@, rep@, i as int) == spec_replace_all(
                text@,
                pat@,
                rep@,
            ),
        decreases text@.len() - i,
    {
        let ghost pre_out = out@;
        let left_word = i > 0 && word_char(text[i - 1]);
        let right_word = word_char(text[i]);
        let boundary = left_word != right_word;
        if pat.len() > 0 && boundary && match_vec(text, i, pat) {
            push_all(&mut out, rep);
            i += pat.len();
            proof {
                assert(out@ =~= pre_out + rep@);
                assert(pre_out + (rep@ + replace_from(text@, pat@, rep@, i as int)) =~= (pre_out
                    + rep@) + replace_from(text@, pat@, rep@, i as int));
            }
        } else {
            out.push(text[i]);
            i += 1;
            proof {
                assert(out@ =~= pre_out + seq![text@[i - 1]]);
                assert(pre_out + (seq![text@[i - 1]] + replace_from(text@, pat@, rep@, i as int))
                    =~= (pre_out + seq![text@[i - 1]]) + replace_from(
                    text@,
                    pat@,
                    rep@,
                    i as int,
                ));
            }
        }
    }
    proof {
        assert(out@ + Seq::<char>::empty() =~= out@);
    }
    out
}

/// Apply the recorded rewrite pairs `pairs[k..]`, in order, to the whole
/// text: each fully-qualified name followed by a dot becomes the bound
/// local name followed by a dot.
pub open spec fn subst_pairs_from(
    text: Seq<char>,
    pairs: Seq<(Seq<char>, Seq<char>)>,
    k: int,
) -> Seq<char>
    decreases pairs.len() - k,
{
    if k < 0 || k >= pairs.len() {
        text
    } else {
        subst_pairs_from(
            spec_replace_all(text, pairs[k].0 + seq!['.'], pairs[k].1 + seq!['.']),
            pairs,
            k + 1,
        )
    }
}

/// The rewritten text of a whole file.
pub open spec fn spec_rewrite_output(content: Seq<char>, env: RewriteEnv) -> Seq<char> {
    let lp = line_pass(spec_lines(content), env);
    subst_pairs_from(lp.out, lp.pairs, 0)
}

/// Whether the rewrite changed the file: exactly when some line was
/// rewritten.
pub open spec fn spec_rewrite_changed(content: Seq<char>, env: RewriteEnv) -> bool {
    line_pass(spec_lines(content), env).pairs.len() > 0
}

/// Views of a vector of strings.
pub open spec fn views_of_strings(vs: Seq<String>) -> Seq<Seq<char>> {
    Seq::new(vs.len(), |i: int| vs[i]@)
}

/// Convert a list of path strings into character vectors.
pub fn paths_to_vecs(existing: &Vec<String>) -> (r: Vec<Vec<char>>)
    ensures
        views_of(r@) == views_of_strings(existing@),
{
    let mut r: Vec<Vec<char>> = Vec::new();
    let mut i: usize = 0;
    while i < existing.len()
        invariant
            0 <= i <= existing@.len(),
            r@.len() == i as int,
            forall|j: int| 0 <= j < i ==> r@[j]@ == existing@[j]@,
        decreases existing@.len() - i,
    {
        let cs = chars_of(existing[i].as_str());
        r.push(cs);
        i += 1;
    }
    proof {
        assert(views_of(r@) =~= views_of_strings(existing@));
    }
    r
}

/// Rewrite the import lines of one file's content.
///
/// `file_dir` is the directory of the file being rewritten, `root` the
/// output root, both as `/`-separated paths; `existing` lists the paths of
/// the files that exist in the output tree, in the same form used by
/// [`crate::paths::path_from_module`].  Returns the new content and whether
/// anything changed; the file need only be written back when it did.
pub fn rewrite_lines_in_content(
    content: &str,
    file_dir: &str,
    root: &str,
    exclude_google: bool,
    existing: &Vec<String>,
) -> (r: (String, bool))
    ensures
        ({
            let env = RewriteEnv {
                file_dir: file_dir@,
                root: root@,
                exclude_google,
                existing: views_of_strings(existing@),
            };
            r.0@ == spec_rewrite_output(content@, env) && r.1 == spec_rewrite_changed(
                content@,
                env,
            )
        }),
{
    let cv = chars_of(content);
    let fv = chars_of(file_dir);
    let rv = chars_of(root);
    let ev = paths_to_vecs(existing);
    let (text, changed) = rewrite_content_vec(&cv, &fv, &rv, exclude_google, &ev);
    (string_from_chars(&text), changed)
}

/// Core of [`rewrite_lines_in_content`], on character vectors.
pub fn rewrite_content_vec(
    cv: &Vec<char>,
    fv: &Vec<char>,
    rv: &Vec<char>,
    exclude_google: bool,
    ev: &Vec<Vec<char>>,
) -> (r: (Vec<char>, bool))
    ensures
        ({
            let env = RewriteEnv {
                file_dir: fv@,
                root: rv@,
                exclude_google,
                existing: views_of(ev@),
            };
            r.0@ == spec_rewrite_output(cv@, env) && r.1 == spec_rewrite_changed(cv@, env)
        }),
{
    let lines = split_lines(cv);
    let (lp_out, pairs) = line_pass_exec(&lines, fv, rv, exclude_google, ev);
    let changed = pairs.len() > 0;
    let ghost env = RewriteEnv {
        file_dir: fv@,
        root: rv@,
        exclude_google,
        existing: views_of(ev@),
    };
    let ghost all_pairs = pair_list_views(pairs@);
    let mut text = lp_out;
    let mut k: usize = 0;
    while k < pairs.len()
        invariant
            0 <= k <= pairs@.len(),
            all_pairs == pair_list_views(pairs@),
            subst_pairs_from(text@, all_pairs, k as int) == subst_pairs_from(
                line_pass(spec_lines(cv@), env).out,
                all_pairs,
                0,
            ),
        decreases pairs@.len() - k,
    {
        let mut pat = copy_line(&pairs[k].0);
        pat.push('.');
        let mut rep = copy_line(&pairs[k].1);
        rep.push('.');
        proof {
            assert(pat@ =~= all_pairs[k as int].0 + seq!['.']);
            assert(rep@ =~= all_pairs[k as int].1 + seq!['.']);
        }
        text = replace_all(&text, &pat, &rep);
        k += 1;
    }
    (text, changed)
}

/// A configured suffix that selects files for rewriting; only Python source
/// and stub suffixes take part.
pub open spec fn is_module_suffix(s: Seq<char>) -> bool {
    seq_ends_with(s, ".py"@) || seq_ends_with(s, ".pyi"@)
}

/// The relative path ends with one of the configured module suffixes.
pub open spec fn suffix_matches(rel: Seq<char>, sufs: Seq<Seq<char>>) -> bool {
    exists|k: int|
        0 <= k < sufs.len() && is_module_suffix(sufs[k]) && seq_ends_with(rel, sufs[k])
}

/// Executable form of [`suffix_matches`].
pub fn suffix_matches_exec(rel: &Vec<char>, sufs: &Vec<Vec<char>>) -> (r: bool)
    ensures
        r == suffix_matches(rel@, views_of(sufs@)),
{
    let mut k: usize = 0;
    while k < sufs.len()
        invariant
            0 <= k <= sufs@.len(),
            forall|j: int|
                0 <= j < k ==> !(is_module_suffix(views_of(sufs@)[j]) && seq_ends_with(
                    rel@,
                    views_of(sufs@)[j],
                )),
        decreases sufs@.len() - k,
    {
        let py = ends_with_lit(&sufs[k], ".py") || ends_with_lit(&sufs[k], ".pyi");
        if py && ends_with_vec(rel, &sufs[k]) {
            proof {
                assert(is_module_suffix(views_of(sufs@)[k as int]) && seq_ends_with(
                    rel@,
                    views_of(sufs@)[k as int],
                ));
            }
            return true;
        }
        k += 1;
    }
    false
}

/// With a basename allow-list supplied, a file takes part only when its raw
/// text holds one of the allow-listed basenames; without one, every file
/// takes part.
/// Some entry of `bs` occurs in `content`.
pub open spec fn any_contained(content: Seq<char>, bs: Seq<Seq<char>>) -> bool {
    exists|k: int| 0 <= k < bs.len() && contains_seq(content, #[trigger] bs[k])
}

pub open spec fn passes_prefilter(content: Seq<char>, allowed: Option<Seq<Seq<char>>>) -> bool {
    match allowed {
        None => true,
        Some(bs) => any_contained(content, bs),
    }
}

fn any_basename_contained(content: &Vec<char>, bs: &Vec<Vec<char>>) -> (r: bool)
    ensures
        r == any_contained(content@, views_of(bs@)),
{
    let mut k: usize = 0;
    while k < bs.len()
        invariant
            0 <= k <= bs@.len(),
            forall|j: int| 0 <= j < k ==> !contains_seq(content@, views_of(bs@)[j]),
        decreases bs@.len() - k,
    {
        if contains_vec(content, &bs[k]) {
            proof {
                let bsv = views_of(bs@);
                assert((k as int) < bsv.len());
                assert(contains_seq(content@, bsv[k as int]));
                assert(any_contained(content@, bsv));
            }
            return true;
        }
        k += 1;
    }
    false
}

/// The basename allow-list as sequences, when one was supplied.
pub open spec fn opt_basenames(o: Option<&Vec<String>>) -> Option<Seq<Seq<char>>> {
    match o {
        None => None,
        Some(v) => Some(views_of_strings(v@)),
    }
}

/// The rewrite environment seen by the file at relative path `rel`.
pub open spec fn file_env(
    root: Seq<char>,
    rel: Seq<char>,
    exclude_google: bool,
    existing: Seq<Seq<char>>,
) -> RewriteEnv {
    RewriteEnv {
        file_dir: crate::paths::parent_of(crate::paths::sep_join(root) + rel),
        root,
        exclude_google,
        existing,
    }
}

/// The tree walk rewrites file `i`: its path carries a module suffix, the
/// basename prefilter passes, and rewriting its content changes it.
pub open spec fn wants_rewrite(
    files: Seq<(String, String)>,
    sufs: Seq<Seq<char>>,
    allowed: Option<Seq<Seq<char>>>,
    root: Seq<char>,
    exclude_google: bool,
    existing: Seq<Seq<char>>,
    i: int,
) -> bool {
    &&& suffix_matches(files[i].0@, sufs)
    &&& passes_prefilter(files[i].1@, allowed)
    &&& spec_rewrite_changed(files[i].1@, file_env(root, files[i].0@, exclude_google, existing))
}

/// Rewrite every eligible file of the output tree.
///
/// `files` holds each candidate file's path relative to `root` together
/// with its content; `existing` lists the paths of all files in the tree,
/// root-joined, as the existence test sees them.  Returns, per modified
/// file, its index in `files` and its new content: exactly the files whose
/// path ends with a configured module suffix, which pass the basename
/// prefilter, and whose content the rewrite actually changes — a file
/// whose path matches no configured suffix is never modified.
pub fn apply_rewrites_in_tree(
    root: &str,
    exclude_google: bool,
    module_suffixes: &Vec<String>,
    allowed_basenames: Option<&Vec<String>>,
    files: &Vec<(String, String)>,
    existing: &Vec<String>,
) -> (r: Vec<(usize, String)>)
    ensures
        ({
            let sufs = views_of_strings(module_suffixes@);
            let allowed = opt_basenames(allowed_basenames);
            let ex = views_of_strings(existing@);
            &&& forall|k: int| 0 <= k < r@.len() ==> (r@[k].0 as int) < files@.len()
            &&& forall|k1: int, k2: int|
                0 <= k1 < k2 < r@.len() ==> r@[k1].0 < r@[k2].0
            &&& forall|k: int|
                0 <= k < r@.len() ==> {
                    let i = #[trigger] r@[k].0 as int;
                    &&& wants_rewrite(files@, sufs, allowed, root@, exclude_google, ex, i)
                    &&& r@[k].1@ == spec_rewrite_output(
                        files@[i].1@,
                        file_env(root@, files@[i].0@, exclude_google, ex),
                    )
                }
            &&& forall|i: int|
                0 <= i < files@.len() && wants_rewrite(
                    files@,
                    sufs,
                    allowed,
                    root@,
                    exclude_google,
                    ex,
                    i,
                ) ==> exists|k: int| 0 <= k < r@.len() && r@[k].0 as int == i
        }),
{
    let ghost sufs = views_of_strings(module_suffixes@);
    let ghost allowed = opt_basenames(allowed_basenames);
    let ghost ex = views_of_strings(existing@);
    let rv = chars_of(root);
    let suf_vecs = paths_to_vecs(module_suffixes);
    let ev = paths_to_vecs(existing);
    let base_vecs: Option<Vec<Vec<char>>> = match allowed_basenames {
        None => None,
        Some(bs) => Some(paths_to_vecs(bs)),
    };
    let mut r: Vec<(usize, String)> = Vec::new();
    let mut i: usize = 0;
    while i < files.len()
        invariant
            0 <= i <= files@.len(),
            rv@ == root@,
            views_of(suf_vecs@) == sufs,
            views_of(ev@) == ex,
            sufs == views_of_strings(module_suffixes@),
            allowed == opt_basenames(allowed_basenames),
            ex == views_of_strings(existing@),
            match base_vecs {
                None => allowed is None,
                Some(bv) => allowed == Some(views_of(bv@)),
            },
            forall|k: int| 0 <= k < r@.len() ==> (r@[k].0 as int) < i,
            forall|k1: int, k2: int| 0 <= k1 < k2 < r@.len() ==> r@[k1].0 < r@[k2].0,
            forall|k: int|
                0 <= k < r@.len() ==> {
                    let fi = #[trigger] r@[k].0 as int;
                    &&& wants_rewrite(files@, sufs, allowed, root@, exclude_google, ex, fi)
                    &&& r@[k].1@ == spec_rewrite_output(
                        files@[fi].1@,
                        file_env(root@, files@[fi].0@, exclude_google, ex),
                    )
                },
            forall|j: int|
                0 <= j < i && wants_rewrite(files@, sufs, allowed, root@, exclude_google, ex, j)
                    ==> exists|k: int| 0 <= k < r@.len() && r@[k].0 as int == j,
        decreases files@.len() - i,
    {
        let ghost pre_r = r@;
        let rel = chars_of(files[i].0.as_str());
        if suffix_matches_exec(&rel, &suf_vecs) {
            let content = chars_of(files[i].1.as_str());
            let pre_ok: bool = match &base_vecs {
                None => true,
                Some(bv) => any_basename_contained(&content, bv),
            };
            if pre_ok {
                let full = crate::paths::join_path_vec(&rv, &rel);
                let fdir = crate::paths::parent_dir_vec(&full);
                let (text, changed) = rewrite_content_vec(
                    &content,
                    &fdir,
                    &rv,
                    exclude_google,
                    &ev,
                );
                if changed {
                    r.push((i, string_from_chars(&text)));
                    proof {
                        assert(r@[r@.len() - 1].0 as int == i as int);
                        assert(forall|k: int|
                            0 <= k < pre_r.len() ==> r@[k] == pre_r[k]);
                    }
                }
            }
        }
        i += 1;
        proof {
            assert forall|j: int|
                0 <= j < i && wants_rewrite(
                    files@,
                    sufs,
                    allowed,
                    root@,
                    exclude_google,
                    ex,
                    j,
                ) implies exists|k: int| 0 <= k < r@.len() && r@[k].0 as int == j by {
                if j < i - 1 {
                    assert(exists|k: int| 0 <= k < pre_r.len() && pre_r[k].0 as int == j);
                    let k = choose|k: int| 0 <= k < pre_r.len() && pre_r[k].0 as int == j;
                    assert(r@[k].0 as int == j);
                }
            }
        }
    }
    r
}

/// The longest common prefix is no longer than either sequence.
proof fn lemma_cpl_bounds(a: Seq<Seq<char>>, b: Seq<Seq<char>>)
    ensures
        0 <= common_prefix_len(a, b) <= a.len(),
        common_prefix_len(a, b) <= b.len(),
    decreases a.len(),
{
    if a.len() > 0 && b.len() > 0 && a[0] == b[0] {
        lemma_cpl_bounds(a.drop_first(), b.drop_first());
    }
}

/// A sequence shares its whole length with itself.
proof fn lemma_cpl_self(a: Seq<Seq<char>>)
    ensures
        common_prefix_len(a, a) == a.len(),
    decreases a.len(),
{
    if a.len() > 0 {
        lemma_cpl_self(a.drop_first());
    }
}

/// A sequence shares its whole length with any one-longer extension.
proof fn lemma_cpl_push(a: Seq<Seq<char>>, x: Seq<char>)
    ensures
        common_prefix_len(a.push(x), a) == a.len(),
    decreases a.len(),
{
    if a.len() > 0 {
        assert(a.push(x).drop_first() =~= a.drop_first().push(x));
        lemma_cpl_push(a.drop_first(), x);
    } else {
        assert(common_prefix_len(a.push(x), a) == 0);
    }
}

/// Every character of `dots(n)` is a dot, and there are `n` of them.
proof fn lemma_dots_shape(n: int)
    ensures
        dots(n).len() == (if n >= 0 { n } else { 0 }),
        forall|k: int| 0 <= k < dots(n).len() ==> dots(n)[k] == '.',
    decreases n,
{
    if n > 0 {
        lemma_dots_shape(n - 1);
    }
}

/// Relative-prefix correctness, same directory: when the importing file's
/// directory and the target module's directory hold the same path
/// segments, no level is ascended and the rewritten package part is
/// exactly one leading dot with an empty remainder.
pub proof fn lemma_same_dir_single_dot(env: RewriteEnv, pkg_path: Seq<char>)
    requires
        split_nonempty(env.file_dir, '/') == split_nonempty(
            append_dotted_from(env.root, pkg_path, 0),
            '/',
        ),
    ensures
        ({
            let f = split_nonempty(env.file_dir, '/');
            let t = split_nonempty(append_dotted_from(env.root, pkg_path, 0), '/');
            f.len() - common_prefix_len(f, t) == 0
        }),
        relative_from_pkg(env, pkg_path) == seq!['.'],
{
    let f = split_nonempty(env.file_dir, '/');
    lemma_cpl_self(f);
    lemma_dots_shape(1);
    assert(join_with_from(f, '.', f.len() as int) == Seq::<char>::empty());
    assert(relative_from_pkg(env, pkg_path) =~= seq!['.']);
}

/// Relative-prefix correctness, one level deeper: when the importing
/// file's directory is the target module's directory extended by one
/// further segment, one level is ascended and the rewritten package part
/// is exactly two leading dots with an empty remainder.
pub proof fn lemma_one_deeper_two_dots(env: RewriteEnv, pkg_path: Seq<char>, seg: Seq<char>)
    requires
        split_nonempty(env.file_dir, '/') == split_nonempty(
            append_dotted_from(env.root, pkg_path, 0),
            '/',
        ).push(seg),
    ensures
        ({
            let f = split_nonempty(env.file_dir, '/');
            let t = split_nonempty(append_dotted_from(env.root, pkg_path, 0), '/');
            f.len() - common_prefix_len(f, t) == 1
        }),
        relative_from_pkg(env, pkg_path) == seq!['.', '.'],
{
    let t = split_nonempty(append_dotted_from(env.root, pkg_path, 0), '/');
    lemma_cpl_push(t, seg);
    lemma_dots_shape(2);
    assert(join_with_from(t, '.', t.len() as int) == Seq::<char>::empty());
    assert(relative_from_pkg(env, pkg_path) =~= seq!['.', '.']);
}

/// Exclusion correctness: with the well-known-types exclusion set, a line
/// whose matched reference carries the well-known-types prefix is left
/// unchanged and records nothing — whatever files exist in the tree.
pub proof fn lemma_exclusion_correct(l: Seq<char>, env: RewriteEnv)
    requires
        env.exclude_google,
        match parse_import_simple(l) {
            Some(m) => is_wkt_prefixed(l.subrange(m.mod_start, m.mod_end)),
            None => true,
        },
        match parse_import_as(l) {
            Some(m) => is_wkt_prefixed(l.subrange(m.mod_start, m.mod_end)),
            None => true,
        },
        match parse_from_import(l) {
            Some(m) => is_wkt_prefixed(l.subrange(m.pkg_start, m.pkg_end)),
            None => true,
        },
    ensures
        rewrite_line(l, env).text == l,
        rewrite_line(l, env).rec is None,
{
}

/// No occurrence of the character `c`.
pub open spec fn avoids_char(s: Seq<char>, c: char) -> bool {
    forall|k: int| 0 <= k < s.len() ==> s[k] != c
}

proof fn lemma_strip_cr_avoids(l: Seq<char>, c: char)
    requires
        avoids_char(l, c),
    ensures
        avoids_char(strip_cr(l), c),
{
}

proof fn lemma_lines_acc_avoid(s: Seq<char>, i: int, cur: Seq<char>, acc: Seq<Seq<char>>, c: char)
    requires
        0 <= i <= s.len(),
        c == '\n' || (forall|k: int| i <= k < s.len() ==> s[k] != c),
        avoids_char(cur, c),
        forall|j: int| 0 <= j < acc.len() ==> avoids_char(#[trigger] acc[j], c),
    ensures
        forall|j: int|
            0 <= j < lines_acc(s, i, cur, acc).len() ==> avoids_char(
                #[trigger] lines_acc(s, i, cur, acc)[j],
                c,
            ),
    decreases s.len() - i,
{
    let r = lines_acc(s, i, cur, acc);
    if i >= s.len() {
        if cur.len() > 0 {
            assert forall|j: int| 0 <= j < r.len() implies avoids_char(r[j], c) by {
                if j < acc.len() {
                    assert(r[j] == acc[j]);
                } else {
                    assert(r[j] == cur);
                }
            }
        }
    } else if s[i] == '\n' {
        lemma_strip_cr_avoids(cur, c);
        assert forall|j: int| 0 <= j < acc.push(strip_cr(cur)).len() implies avoids_char(
            #[trigger] acc.push(strip_cr(cur))[j],
            c,
        ) by {
            if j < acc.len() {
                assert(acc.push(strip_cr(cur))[j] == acc[j]);
            } else {
                assert(acc.push(strip_cr(cur))[j] == strip_cr(cur));
            }
        }
        lemma_lines_acc_avoid(s, i + 1, Seq::empty(), acc.push(strip_cr(cur)), c);
        assert forall|j: int| 0 <= j < r.len() implies avoids_char(r[j], c) by {
            assert(r[j] == lines_acc(s, i + 1, Seq::empty(), acc.push(strip_cr(cur)))[j]);
        }
    } else {
        assert(avoids_char(cur.push(s[i]), c));
        lemma_lines_acc_avoid(s, i + 1, cur.push(s[i]), acc, c);
        assert forall|j: int| 0 <= j < r.len() implies avoids_char(r[j], c) by {
            assert(r[j] == lines_acc(s, i + 1, cur.push(s[i]), acc)[j]);
        }
    }
}

/// A line never holds a newline; it avoids any other character its text
/// avoids.
pub proof fn lemma_lines_avoid(s: Seq<char>, c: char)
    requires
        c == '\n' || (forall|k: int| 0 <= k < s.len() ==> s[k] != c),
    ensures
        forall|j: int|
            0 <= j < spec_lines(s).len() ==> avoids_char(#[trigger] spec_lines(s)[j], c),
{
    lemma_lines_acc_avoid(s, 0, Seq::empty(), Seq::empty(), c);
}

proof fn lemma_split_acc_avoid(
    s: Seq<char>,
    sep: char,
    i: int,
    cur: Seq<char>,
    acc: Seq<Seq<char>>,
    c: char,
)
    requires
        0 <= i <= s.len(),
        avoids_char(s, c),
        avoids_char(cur, c),
        forall|j: int| 0 <= j < acc.len() ==> avoids_char(#[trigger] acc[j], c),
    ensures
        forall|j: int|
            0 <= j < split_acc(s, sep, i, cur, acc).len() ==> avoids_char(
                #[trigger] split_acc(s, sep, i, cur, acc)[j],
                c,
            ),
    decreases s.len() - i,
{
    let r = split_acc(s, sep, i, cur, acc);
    if i >= s.len() {
        if cur.len() > 0 {
            assert forall|j: int| 0 <= j < r.len() implies avoids_char(r[j], c) by {
                if j < acc.len() {
                    assert(r[j] == acc[j]);
                } else {
                    assert(r[j] == cur);
                }
            }
        }
    } else if s[i] == sep {
        if cur.len() == 0 {
            lemma_split_acc_avoid(s, sep, i + 1, Seq::empty(), acc, c);
            assert forall|j: int| 0 <= j < r.len() implies avoids_char(r[j], c) by {
                assert(r[j] == split_acc(s, sep, i + 1, Seq::empty(), acc)[j]);
            }
        } else {
            assert forall|j: int| 0 <= j < acc.push(cur).len() implies avoids_char(
                #[trigger] acc.push(cur)[j],
                c,
            ) by {
                if j < acc.len() {
                    assert(acc.push(cur)[j] == acc[j]);
                } else {
                    assert(acc.push(cur)[j] == cur);
                }
            }
            lemma_split_acc_avoid(s, sep, i + 1, Seq::empty(), acc.push(cur), c);
            assert forall|j: int| 0 <= j < r.len() implies avoids_char(r[j], c) by {
                assert(r[j] == split_acc(s, sep, i + 1, Seq::empty(), acc.push(cur))[j]);
            }
        }
    } else {
        assert(avoids_char(cur.push(s[i]), c));
        lemma_split_acc_avoid(s, sep, i + 1, cur.push(s[i]), acc, c);
        assert forall|j: int| 0 <= j < r.len() implies avoids_char(r[j], c) by {
            assert(r[j] == split_acc(s, sep, i + 1, cur.push(s[i]), acc)[j]);
        }
    }
}

proof fn lemma_append_dotted_avoid(p: Seq<char>, m: Seq<char>, i: int, c: char)
    requires
        0 <= i,
        c != '/',
        avoids_char(p, c),
        avoids_char(m, c),
    ensures
        avoids_char(append_dotted_from(p, m, i), c),
    decreases m.len() - i,
{
    if i < m.len() {
        if m[i] == '.' {
            lemma_append_dotted_avoid(p, m, i + 1, c);
        } else if i == 0 || m[i - 1] == '.' {
            assert(avoids_char(crate::paths::sep_join(p).push(m[i]), c));
            lemma_append_dotted_avoid(crate::paths::sep_join(p).push(m[i]), m, i + 1, c);
        } else {
            assert(avoids_char(p.push(m[i]), c));
            lemma_append_dotted_avoid(p.push(m[i]), m, i + 1, c);
        }
    }
}

proof fn lemma_join_avoid(segs: Seq<Seq<char>>, from: int, c: char)
    requires
        c != '.',
        forall|j: int| 0 <= j < segs.len() ==> avoids_char(#[trigger] segs[j], c),
    ensures
        avoids_char(join_with_from(segs, '.', from), c),
    decreases segs.len() - from,
{
    if 0 <= from && from < segs.len() - 1 {
        lemma_join_avoid(segs, from + 1, c);
    }
}

proof fn lemma_literals_avoid(c: char)
    requires
        c == '\n' || c == '\r',
    ensures
        avoids_char("from "@, c),
        avoids_char(" import "@, c),
        avoids_char(" as "@, c),
{
    reveal_strlit("from ");
    reveal_strlit(" import ");
    reveal_strlit(" as ");
}

proof fn lemma_relative_from_pkg_avoid(env: RewriteEnv, pkg_path: Seq<char>, c: char)
    requires
        c != '.' && c != '/',
        avoids_char(env.root, c),
        avoids_char(pkg_path, c),
    ensures
        avoids_char(relative_from_pkg(env, pkg_path), c),
{
    let t_dir = append_dotted_from(env.root, pkg_path, 0);
    lemma_append_dotted_avoid(env.root, pkg_path, 0, c);
    let t = split_nonempty(t_dir, '/');
    lemma_split_acc_avoid(t_dir, '/', 0, Seq::empty(), Seq::empty(), c);
    let f = split_nonempty(env.file_dir, '/');
    let k = common_prefix_len(f, t);
    lemma_join_avoid(t, k, c);
    lemma_dots_shape(f.len() - k + 1);
}

proof fn lemma_subrange_avoid(l: Seq<char>, a: int, b: int, c: char)
    requires
        avoids_char(l, c),
        0 <= a <= b <= l.len(),
    ensures
        avoids_char(l.subrange(a, b), c),
{
}

/// Bounds of the indices of a successful parse, straight from the scans
/// that produced them.
proof fn lemma_parse_bounds(l: Seq<char>)
    ensures
        match parse_import_simple(l) {
            Some(m) => 0 <= m.indent_end <= m.mod_start < m.mod_end <= l.len(),
            None => true,
        },
        match parse_import_as(l) {
            Some(m) => 0 <= m.indent_end <= m.mod_start < m.mod_end <= m.alias_start
                < m.alias_end <= l.len(),
            None => true,
        },
        match parse_from_import(l) {
            Some(m) => {
                &&& 0 <= m.indent_end <= m.pkg_start < m.pkg_end <= m.name_start < m.name_end
                    <= l.len()
                &&& match m.alias {
                    Some(a) => m.name_end <= a.0 < a.1 <= l.len(),
                    None => true,
                }
            },
            None => true,
        },
{
    reveal_strlit("import");
    reveal_strlit("from");
    reveal_strlit("as");
    let sp = |c: char| is_space_char(c);
    let dt = |c: char| is_dotted_char(c);
    let wd = |c: char| is_word_char(c);
    let i0 = scan_end(l, 0, sp);
    crate::chars::lemma_scan_end_bounds(l, 0, sp);
    if occurs_at(l, "import"@, i0) {
        let i1 = i0 + 6;
        let i2 = scan_end(l, i1, sp);
        crate::chars::lemma_scan_end_bounds(l, i1, sp);
        let i3 = scan_end(l, i2, dt);
        crate::chars::lemma_scan_end_bounds(l, i2, dt);
        let i4 = scan_end(l, i3, sp);
        crate::chars::lemma_scan_end_bounds(l, i3, sp);
        if i4 > i3 && occurs_at(l, "as"@, i4) {
            let i5 = i4 + 2;
            let i6 = scan_end(l, i5, sp);
            crate::chars::lemma_scan_end_bounds(l, i5, sp);
            let i7 = scan_end(l, i6, wd);
            crate::chars::lemma_scan_end_bounds(l, i6, wd);
            let i8 = scan_end(l, i7, sp);
            crate::chars::lemma_scan_end_bounds(l, i7, sp);
        }
    }
    if occurs_at(l, "from"@, i0) {
        let i1 = i0 + 4;
        let i2 = scan_end(l, i1, sp);
        crate::chars::lemma_scan_end_bounds(l, i1, sp);
        let i3 = scan_end(l, i2, dt);
        crate::chars::lemma_scan_end_bounds(l, i2, dt);
        let i4 = scan_end(l, i3, sp);
        crate::chars::lemma_scan_end_bounds(l, i3, sp);
        if i4 > i3 && occurs_at(l, "import"@, i4) {
            let i5 = i4 + 6;
            let i6 = scan_end(l, i5, sp);
            crate::chars::lemma_scan_end_bounds(l, i5, sp);
            let i7 = scan_end(l, i6, wd);
            crate::chars::lemma_scan_end_bounds(l, i6, wd);
            let i8 = scan_end(l, i7, sp);
            crate::chars::lemma_scan_end_bounds(l, i7, sp);
            if !(i8 == l.len() || l[i8] == '#') && i8 > i7 && occurs_at(l, "as"@, i8) {
                let i9 = i8 + 2;
                let i10 = scan_end(l, i9, sp);
                crate::chars::lemma_scan_end_bounds(l, i9, sp);
                let i11 = scan_end(l, i10, wd);
                crate::chars::lemma_scan_end_bounds(l, i10, wd);
                let i12 = scan_end(l, i11, sp);
                crate::chars::lemma_scan_end_bounds(l, i11, sp);
            }
        }
    }
}

/// A processed line avoids any line-break character its input and the
/// root path avoid.
proof fn lemma_rewrite_line_avoids(l: Seq<char>, env: RewriteEnv, c: char)
    requires
        c == '\n' || c == '\r',
        avoids_char(l, c),
        avoids_char(env.root, c),
    ensures
        avoids_char(rewrite_line(l, env).text, c),
{
    lemma_parse_bounds(l);
    lemma_literals_avoid(c);
    if !starts_from_dot(l) {
        if parse_import_simple(l) is Some {
            let m = parse_import_simple(l)->0;
            let module = l.subrange(m.mod_start, m.mod_end);
            lemma_subrange_avoid(l, m.mod_start, m.mod_end, c);
            lemma_subrange_avoid(l, 0, m.indent_end, c);
            let q = spec_split_qualname(module);
            lemma_qualname_avoid(module, c);
            lemma_relative_from_pkg_avoid(env, q.0, c);
        } else if parse_import_as(l) is Some {
            let m = parse_import_as(l)->0;
            let module = l.subrange(m.mod_start, m.mod_end);
            lemma_subrange_avoid(l, m.mod_start, m.mod_end, c);
            lemma_subrange_avoid(l, m.alias_start, m.alias_end, c);
            lemma_subrange_avoid(l, 0, m.indent_end, c);
            let q = spec_split_qualname(module);
            lemma_qualname_avoid(module, c);
            lemma_relative_from_pkg_avoid(env, q.0, c);
        } else if parse_from_import(l) is Some {
            let m = parse_from_import(l)->0;
            lemma_subrange_avoid(l, m.pkg_start, m.pkg_end, c);
            lemma_subrange_avoid(l, m.name_start, m.name_end, c);
            lemma_subrange_avoid(l, 0, m.indent_end, c);
            match m.alias {
                Some(a) => {
                    lemma_subrange_avoid(l, a.0, a.1, c);
                },
                None => {},
            }
            lemma_relative_from_pkg_avoid(env, l.subrange(m.pkg_start, m.pkg_end), c);
        }
    }
}

proof fn lemma_qualname_avoid(module: Seq<char>, c: char)
    requires
        avoids_char(module, c),
    ensures
        avoids_char(spec_split_qualname(module).0, c),
        avoids_char(spec_split_qualname(module).1, c),
{
    let i = crate::paths::last_index_of(module, '.', module.len() - 1);
    lemma_last_index_range(module, '.', module.len() - 1);
}

proof fn lemma_last_index_range(s: Seq<char>, c: char, i: int)
    requires
        i < s.len(),
    ensures
        -1 <= crate::paths::last_index_of(s, c, i),
        i >= -1 ==> crate::paths::last_index_of(s, c, i) <= i,
    decreases i + 1,
{
    if i >= 0 {
        if s[i] != c {
            lemma_last_index_range(s, c, i - 1);
        }
    }
}

/// A rewritten line begins, after its indentation, with the relative
/// import marker, so a second pass skips it.
proof fn lemma_rendered_skipped(l: Seq<char>, env: RewriteEnv)
    requires
        rewrite_line(l, env).rec is Some,
    ensures
        starts_from_dot(rewrite_line(l, env).text),
{
    reveal_strlit("from ");
    reveal_strlit("from .");
    lemma_parse_bounds(l);
    let text = rewrite_line(l, env).text;
    let sp = |c: char| is_space_char(c);
    assert(!starts_from_dot(l));
    let i0 = scan_end(l, 0, sp);
    crate::chars::lemma_scan_end_bounds(l, 0, sp);
    let indent = l.subrange(0, i0);
    if parse_import_simple(l) is Some {
        let m = parse_import_simple(l)->0;
        assert(m.indent_end == i0);
        lemma_rendered_skipped_core(l, env, indent, text);
    } else if parse_import_as(l) is Some {
        let m = parse_import_as(l)->0;
        assert(m.indent_end == i0);
        lemma_rendered_skipped_core(l, env, indent, text);
    } else {
        let m = parse_from_import(l)->0;
        assert(m.indent_end == i0);
        lemma_rendered_skipped_core(l, env, indent, text);
    }
}

/// The rendered text of any rewrite is `indent + "from " + dots + ...`
/// with at least one dot; establish the skip marker from that shape.
proof fn lemma_rendered_skipped_core(
    l: Seq<char>,
    env: RewriteEnv,
    indent: Seq<char>,
    text: Seq<char>,
)
    requires
        text == rewrite_line(l, env).text,
        rewrite_line(l, env).rec is Some,
        indent == l.subrange(0, scan_end(l, 0, |c: char| is_space_char(c))),
        0 <= scan_end(l, 0, |c: char| is_space_char(c)) <= l.len(),
    ensures
        starts_from_dot(text),
{
    reveal_strlit("from ");
    reveal_strlit("from .");
    let sp = |c: char| is_space_char(c);
    let i0 = scan_end(l, 0, sp);
    crate::chars::lemma_scan_end_bounds(l, 0, sp);
    assert(forall|k: int| 0 <= k < i0 ==> sp(l[k]));
    // whichever parser matched, the text is a render of some from-package
    // part that starts with at least one dot
    let fp = rendered_from_pkg(l, env);
    lemma_rendered_shape(l, env);
    let tail = rendered_tail(l, env);
    assert(text == indent + "from "@ + fp + tail);
    lemma_dots_shape(rendered_ups(l, env) + 1);
    assert(fp.len() >= 1 && fp[0] == '.');
    // indentation is all spaces, and 'f' is not a space
    assert(forall|k: int| 0 <= k < i0 ==> is_space_char(text[k]));
    assert(text[i0 as int] == 'f');
    assert(!is_space_char('f'));
    lemma_scan_end_stops(text, 0, i0, sp);
    // the six characters after the indentation read `from .`
    assert(text.subrange(i0 as int, i0 + 6) =~= "from ."@) by {
        assert(forall|k: int| 0 <= k < 5 ==> text[i0 + k] == "from "@[k]);
        assert(text[i0 + 5] == fp[0]);
        assert("from ."@[5] == '.');
        assert(forall|k: int| 0 <= k < 5 ==> "from ."@[k] == "from "@[k]);
    }
    assert(occurs_at(text, "from ."@, i0));
}

/// The number of ascensions the rewrite of `l` renders, when it rewrites.
pub open spec fn rendered_ups(l: Seq<char>, env: RewriteEnv) -> int {
    if parse_import_simple(l) is Some {
        let m = parse_import_simple(l)->0;
        let q = spec_split_qualname(l.subrange(m.mod_start, m.mod_end));
        ups_of(env, q.0)
    } else if parse_import_as(l) is Some {
        let m = parse_import_as(l)->0;
        let q = spec_split_qualname(l.subrange(m.mod_start, m.mod_end));
        ups_of(env, q.0)
    } else if parse_from_import(l) is Some {
        let m = parse_from_import(l)->0;
        ups_of(env, l.subrange(m.pkg_start, m.pkg_end))
    } else {
        0
    }
}

/// The from-package part the rewrite of `l` renders, when it rewrites.
pub open spec fn rendered_from_pkg(l: Seq<char>, env: RewriteEnv) -> Seq<char> {
    if parse_import_simple(l) is Some {
        let m = parse_import_simple(l)->0;
        let q = spec_split_qualname(l.subrange(m.mod_start, m.mod_end));
        relative_from_pkg(env, q.0)
    } else if parse_import_as(l) is Some {
        let m = parse_import_as(l)->0;
        let q = spec_split_qualname(l.subrange(m.mod_start, m.mod_end));
        relative_from_pkg(env, q.0)
    } else if parse_from_import(l) is Some {
        let m = parse_from_import(l)->0;
        relative_from_pkg(env, l.subrange(m.pkg_start, m.pkg_end))
    } else {
        Seq::empty()
    }
}

pub open spec fn ups_of(env: RewriteEnv, pkg_path: Seq<char>) -> int {
    let t_dir = append_dotted_from(env.root, pkg_path, 0);
    let f = split_nonempty(env.file_dir, '/');
    let t = split_nonempty(t_dir, '/');
    f.len() - common_prefix_len(f, t)
}

/// When a line is rewritten, its text takes the rendered shape.
proof fn lemma_rendered_shape(l: Seq<char>, env: RewriteEnv)
    requires
        rewrite_line(l, env).rec is Some,
    ensures
        rendered_ups(l, env) >= 0,
        rendered_from_pkg(l, env) == dots(rendered_ups(l, env) + 1) + join_after(l, env),
        rewrite_line(l, env).text == l.subrange(
            0,
            scan_end(l, 0, |c: char| is_space_char(c)),
        ) + "from "@ + rendered_from_pkg(l, env) + rendered_tail(l, env),
{
    lemma_parse_bounds(l);
    if parse_import_simple(l) is Some {
        let m = parse_import_simple(l)->0;
        let q = spec_split_qualname(l.subrange(m.mod_start, m.mod_end));
        lemma_cpl_bounds(
            split_nonempty(env.file_dir, '/'),
            split_nonempty(append_dotted_from(env.root, q.0, 0), '/'),
        );
        let leaf = q.1;
        let fp = relative_from_pkg(env, q.0);
        let indent = l.subrange(0, m.indent_end);
        assert(rewrite_line(l, env).text == indent + "from "@ + fp + (" import "@ + leaf)) by {
            assert(render_line(indent, fp, leaf, None) =~= indent + "from "@ + fp + (" import "@
                + leaf));
        }
    } else if parse_import_as(l) is Some {
        let m = parse_import_as(l)->0;
        let q = spec_split_qualname(l.subrange(m.mod_start, m.mod_end));
        lemma_cpl_bounds(
            split_nonempty(env.file_dir, '/'),
            split_nonempty(append_dotted_from(env.root, q.0, 0), '/'),
        );
        let leaf = q.1;
        let alias = l.subrange(m.alias_start, m.alias_end);
        let fp = relative_from_pkg(env, q.0);
        let indent = l.subrange(0, m.indent_end);
        assert(rewrite_line(l, env).text == indent + "from "@ + fp + (" import "@ + leaf + " as "@
            + alias)) by {
            assert(render_line(indent, fp, leaf, Some(alias)) =~= indent + "from "@ + fp + (
            " import "@ + leaf + " as "@ + alias));
        }
    } else {
        let m = parse_from_import(l)->0;
        let pkg = l.subrange(m.pkg_start, m.pkg_end);
        lemma_cpl_bounds(
            split_nonempty(env.file_dir, '/'),
            split_nonempty(append_dotted_from(env.root, pkg, 0), '/'),
        );
        let name = l.subrange(m.name_start, m.name_end);
        let fp = relative_from_pkg(env, pkg);
        let indent = l.subrange(0, m.indent_end);
        match m.alias {
            None => {
                assert(rewrite_line(l, env).text == indent + "from "@ + fp + (" import "@ + name))
                    by {
                    assert(render_line(indent, fp, name, None) =~= indent + "from "@ + fp + (
                    " import "@ + name));
                }
            },
            Some(a) => {
                let alias = l.subrange(a.0, a.1);
                assert(rewrite_line(l, env).text == indent + "from "@ + fp + (" import "@ + name
                    + " as "@ + alias)) by {
                    assert(render_line(indent, fp, name, Some(alias)) =~= indent + "from "@ + fp
                        + (" import "@ + name + " as "@ + alias));
                }
            },
        }
    }
}

/// What follows the from-package part in a rendered line.
pub open spec fn rendered_tail(l: Seq<char>, env: RewriteEnv) -> Seq<char> {
    if parse_import_simple(l) is Some {
        let m = parse_import_simple(l)->0;
        let q = spec_split_qualname(l.subrange(m.mod_start, m.mod_end));
        " import "@ + q.1
    } else if parse_import_as(l) is Some {
        let m = parse_import_as(l)->0;
        let q = spec_split_qualname(l.subrange(m.mod_start, m.mod_end));
        " import "@ + q.1 + " as "@ + l.subrange(m.alias_start, m.alias_end)
    } else if parse_from_import(l) is Some {
        let m = parse_from_import(l)->0;
        let name = l.subrange(m.name_start, m.name_end);
        match m.alias {
            None => " import "@ + name,
            Some(a) => " import "@ + name + " as "@ + l.subrange(a.0, a.1),
        }
    } else {
        Seq::empty()
    }
}

/// The dotted remainder the rewrite of `l` renders, when it rewrites.
pub open spec fn join_after(l: Seq<char>, env: RewriteEnv) -> Seq<char> {
    if parse_import_simple(l) is Some {
        let m = parse_import_simple(l)->0;
        let q = spec_split_qualname(l.subrange(m.mod_start, m.mod_end));
        remainder_of(env, q.0)
    } else if parse_import_as(l) is Some {
        let m = parse_import_as(l)->0;
        let q = spec_split_qualname(l.subrange(m.mod_start, m.mod_end));
        remainder_of(env, q.0)
    } else if parse_from_import(l) is Some {
        let m = parse_from_import(l)->0;
        remainder_of(env, l.subrange(m.pkg_start, m.pkg_end))
    } else {
        Seq::empty()
    }
}

pub open spec fn remainder_of(env: RewriteEnv, pkg_path: Seq<char>) -> Seq<char> {
    let t_dir = append_dotted_from(env.root, pkg_path, 0);
    let f = split_nonempty(env.file_dir, '/');
    let t = split_nonempty(t_dir, '/');
    join_with_from(t, '.', common_prefix_len(f, t))
}

proof fn lemma_scan_end_stops(s: Seq<char>, i: int, n: int, p: spec_fn(char) -> bool)
    requires
        0 <= i <= n <= s.len(),
        forall|k: int| i <= k < n ==> p(s[k]),
        n < s.len() ==> !p(s[n]),
    ensures
        scan_end(s, i, p) == n,
    decreases n - i,
{
    if i < n {
        lemma_scan_end_stops(s, i + 1, n, p);
    }
}

proof fn lemma_lines_acc_shift(u: Seq<char>, i: int, cur: Seq<char>, acc: Seq<Seq<char>>)
    requires
        0 <= i <= u.len(),
    ensures
        lines_acc(u, i, cur, acc) == lines_acc(u.skip(i), 0, cur, acc),
    decreases u.len() - i,
{
    if i >= u.len() {
        assert(u.skip(i).len() == 0);
    } else {
        assert(u.skip(i)[0] == u[i]);
        assert(u.skip(i).skip(1) =~= u.skip(i + 1));
        if u[i] == '\n' {
            lemma_lines_acc_shift(u, i + 1, Seq::empty(), acc.push(strip_cr(cur)));
            lemma_lines_acc_shift(u.skip(i), 1, Seq::empty(), acc.push(strip_cr(cur)));
        } else {
            lemma_lines_acc_shift(u, i + 1, cur.push(u[i]), acc);
            lemma_lines_acc_shift(u.skip(i), 1, cur.push(u[i]), acc);
        }
    }
}

proof fn lemma_lines_acc_prefix(u: Seq<char>, i: int, cur: Seq<char>, acc: Seq<Seq<char>>)
    requires
        0 <= i <= u.len(),
    ensures
        lines_acc(u, i, cur, acc) == acc + lines_acc(u, i, cur, Seq::empty()),
    decreases u.len() - i,
{
    if i >= u.len() {
        if cur.len() == 0 {
            assert(acc + Seq::<Seq<char>>::empty() =~= acc);
        } else {
            assert(acc + Seq::<Seq<char>>::empty().push(cur) =~= acc.push(cur));
        }
    } else if u[i] == '\n' {
        lemma_lines_acc_prefix(u, i + 1, Seq::empty(), acc.push(strip_cr(cur)));
        lemma_lines_acc_prefix(u, i + 1, Seq::empty(), Seq::<Seq<char>>::empty().push(
            strip_cr(cur),
        ));
        assert(acc.push(strip_cr(cur)) + lines_acc(u, i + 1, Seq::empty(), Seq::empty()) =~= acc
            + (Seq::<Seq<char>>::empty().push(strip_cr(cur)) + lines_acc(
            u,
            i + 1,
            Seq::empty(),
            Seq::empty(),
        )));
    } else {
        lemma_lines_acc_prefix(u, i + 1, cur.push(u[i]), acc);
    }
}

proof fn lemma_lines_prefix(t: Seq<char>, s: Seq<char>, i: int, cur: Seq<char>)
    requires
        0 <= i <= t.len(),
        forall|k: int| i <= k < t.len() ==> t[k] != '\n',
    ensures
        lines_acc(t + seq!['\n'] + s, i, cur, Seq::empty()) == seq![strip_cr(cur + t.skip(i))]
            + spec_lines(s),
    decreases t.len() - i,
{
    let full = t + seq!['\n'] + s;
    if i == t.len() {
        assert(full[i] == '\n');
        assert(cur + t.skip(i) =~= cur);
        lemma_lines_acc_shift(full, i + 1, Seq::empty(), Seq::<Seq<char>>::empty().push(
            strip_cr(cur),
        ));
        assert(full.skip(i + 1) =~= s);
        lemma_lines_acc_prefix(s, 0, Seq::empty(), Seq::<Seq<char>>::empty().push(strip_cr(cur)));
        assert(Seq::<Seq<char>>::empty().push(strip_cr(cur)) + spec_lines(s) =~= seq![
            strip_cr(cur + t.skip(i)),
        ] + spec_lines(s));
    } else {
        assert(full[i] == t[i]);
        lemma_lines_prefix(t, s, i + 1, cur.push(t[i]));
        assert(cur.push(t[i]) + t.skip(i + 1) =~= cur + t.skip(i));
    }
}

/// The lines of one processed line followed by the rest of the output.
proof fn lemma_lines_concat_line(t: Seq<char>, s: Seq<char>)
    requires
        forall|k: int| 0 <= k < t.len() ==> t[k] != '\n',
    ensures
        spec_lines(t + seq!['\n'] + s) == seq![strip_cr(t)] + spec_lines(s),
{
    lemma_lines_prefix(t, s, 0, Seq::empty());
    assert(Seq::<char>::empty() + t.skip(0) =~= t);
}

/// Splitting the per-line pass's output back into lines yields exactly the
/// processed line texts, each with a trailing carriage return dropped,
/// provided each stays inside one line.
proof fn lemma_lines_of_line_pass(ls: Seq<Seq<char>>, env: RewriteEnv, i: int)
    requires
        0 <= i <= ls.len(),
        forall|j: int|
            i <= j < ls.len() ==> avoids_char(#[trigger] rewrite_line(ls[j], env).text, '\n'),
    ensures
        spec_lines(line_pass_from(ls, env, i).out) == Seq::new(
            (ls.len() - i) as nat,
            |j: int| strip_cr(rewrite_line(ls[i + j], env).text),
        ),
    decreases ls.len() - i,
{
    if i >= ls.len() {
        assert(spec_lines(Seq::<char>::empty()) =~= Seq::<Seq<char>>::empty());
        assert(Seq::new(0, |j: int| strip_cr(rewrite_line(ls[i + j], env).text)) =~= Seq::<
            Seq<char>,
        >::empty());
    } else {
        let t = rewrite_line(ls[i], env).text;
        let rest = line_pass_from(ls, env, i + 1).out;
        assert(line_pass_from(ls, env, i).out == t + seq!['\n'] + rest);
        lemma_lines_concat_line(t, rest);
        lemma_lines_of_line_pass(ls, env, i + 1);
        assert(seq![strip_cr(t)] + Seq::new(
            (ls.len() - i - 1) as nat,
            |j: int| strip_cr(rewrite_line(ls[i + 1 + j], env).text),
        ) =~= Seq::new(
            (ls.len() - i) as nat,
            |j: int| strip_cr(rewrite_line(ls[i + j], env).text),
        ));
    }
}

/// A rendered line never ends with a carriage return: its last character
/// is an alias or leaf character, or the space before an absent leaf.
proof fn lemma_rendered_no_trailing_cr(l: Seq<char>, env: RewriteEnv)
    requires
        rewrite_line(l, env).rec is Some,
    ensures
        strip_cr(rewrite_line(l, env).text) == rewrite_line(l, env).text,
{
    reveal_strlit(" import ");
    reveal_strlit(" as ");
    lemma_parse_bounds(l);
    lemma_rendered_shape(l, env);
    let text = rewrite_line(l, env).text;
    let tail = rendered_tail(l, env);
    let wd = |c: char| is_word_char(c);
    if parse_import_simple(l) is Some {
        let m = parse_import_simple(l)->0;
        let q = spec_split_qualname(l.subrange(m.mod_start, m.mod_end));
        lemma_leaf_last_not_cr(l, m.mod_start, m.mod_end);
        if q.1.len() == 0 {
            assert(text.last() == " import "@.last());
        } else {
            assert(text.last() == q.1.last());
        }
    } else if parse_import_as(l) is Some {
        let m = parse_import_as(l)->0;
        crate::chars::lemma_scan_end_bounds(l, m.alias_start, wd);
        assert(scan_end(l, m.alias_start, wd) == m.alias_end);
        assert(is_word_char(l[m.alias_end - 1]));
        assert(text.last() == l[m.alias_end - 1]);
    } else {
        let m = parse_from_import(l)->0;
        match m.alias {
            None => {
                crate::chars::lemma_scan_end_bounds(l, m.name_start, wd);
                assert(scan_end(l, m.name_start, wd) == m.name_end);
                assert(is_word_char(l[m.name_end - 1]));
                assert(text.last() == l[m.name_end - 1]);
            },
            Some(a) => {
                crate::chars::lemma_scan_end_bounds(l, a.0, wd);
                assert(scan_end(l, a.0, wd) == a.1);
                assert(is_word_char(l[a.1 - 1]));
                assert(text.last() == l[a.1 - 1]);
            },
        }
    }
    assert(text.last() != '\r');
    assert(text.len() > 0);
}

/// The leaf of a dotted module name ends with an identifier character,
/// unless it is empty.
proof fn lemma_leaf_last_not_cr(l: Seq<char>, a: int, b: int)
    requires
        0 <= a < b <= l.len(),
        parse_import_simple(l) is Some ==> {
            let m = parse_import_simple(l)->0;
            a == m.mod_start && b == m.mod_end
        },
        parse_import_simple(l) is Some,
    ensures
        ({
            let q = spec_split_qualname(l.subrange(a, b));
            q.1.len() > 0 ==> q.1.last() != '\r'
        }),
{
    let dt = |c: char| is_dotted_char(c);
    let m = parse_import_simple(l)->0;
    crate::chars::lemma_scan_end_bounds(l, m.mod_start, dt);
    assert(scan_end(l, m.mod_start, dt) == m.mod_end);
    let module = l.subrange(a, b);
    assert(forall|k: int| 0 <= k < module.len() ==> is_dotted_char(module[k]));
    let q = spec_split_qualname(module);
    let d = crate::paths::last_index_of(module, '.', module.len() - 1);
    lemma_last_index_range(module, '.', module.len() - 1);
    if q.1.len() > 0 {
        if d < 0 {
            assert(q.1.last() == module.last());
        } else {
            assert(q.1.last() == module.last());
        }
        assert(is_dotted_char(module.last()));
    }
}

proof fn lemma_scan_drop_last(l: Seq<char>, i: int, p: spec_fn(char) -> bool)
    requires
        0 <= i <= l.len() - 1,
    ensures
        scan_end(l.drop_last(), i, p) == (if scan_end(l, i, p) < l.len() {
            scan_end(l, i, p)
        } else {
            l.len() - 1
        }),
    decreases l.len() - i,
{
    assert(scan_end(l, l.len() as int, p) == l.len());
    if i == l.len() - 1 {
        assert(scan_end(l.drop_last(), i, p) == i);
    } else {
        assert(l.drop_last()[i] == l[i]);
        if p(l[i]) {
            lemma_scan_drop_last(l, i + 1, p);
        }
    }
}

/// A space scan on a line that ends with a carriage return either runs to
/// the very end — and then to the end of the shortened line — or stops
/// strictly before the carriage return, at the same place in both.
proof fn lemma_space_scan_drop(l: Seq<char>, j: int)
    requires
        l.len() >= 1,
        l.last() == '\r',
        0 <= j <= l.len() - 1,
    ensures
        ({
            let a = scan_end(l, j, |c: char| is_space_char(c));
            let b = scan_end(l.drop_last(), j, |c: char| is_space_char(c));
            &&& j <= a <= l.len()
            &&& (a == l.len() ==> b == l.len() - 1)
            &&& (a < l.len() ==> a <= l.len() - 2 && b == a && !is_space_char(l[a]))
        }),
{
    let sp = |c: char| is_space_char(c);
    crate::chars::lemma_scan_end_bounds(l, j, sp);
    lemma_scan_drop_last(l, j, sp);
    let a = scan_end(l, j, sp);
    if a < l.len() {
        assert(!sp(l[a]));
        assert(is_space_char('\r'));
        assert(a != l.len() - 1);
    }
}

/// A scan over characters that exclude the carriage return stops at or
/// before it, at the same place in both lines.
proof fn lemma_run_scan_drop(l: Seq<char>, j: int, p: spec_fn(char) -> bool)
    requires
        l.len() >= 1,
        l.last() == '\r',
        0 <= j <= l.len() - 1,
        !p('\r'),
    ensures
        ({
            let a = scan_end(l, j, p);
            let b = scan_end(l.drop_last(), j, p);
            j <= a <= l.len() - 1 && b == a
        }),
{
    crate::chars::lemma_scan_end_bounds(l, j, p);
    lemma_scan_drop_last(l, j, p);
    let a = scan_end(l, j, p);
    if a == l.len() {
        assert(p(l[l.len() - 1]));
    }
}

/// A keyword without carriage returns occurs at a position in the
/// shortened line exactly when it occurs there in the full line.
proof fn lemma_kw_drop(l: Seq<char>, pat: Seq<char>, i: int)
    requires
        l.len() >= 1,
        l.last() == '\r',
        pat.len() >= 1,
        avoids_char(pat, '\r'),
        0 <= i,
    ensures
        occurs_at(l.drop_last(), pat, i) == occurs_at(l, pat, i),
{
    let l2 = l.drop_last();
    if occurs_at(l, pat, i) {
        assert(l.subrange(i, i + pat.len())[pat.len() - 1] == l[i + pat.len() - 1]);
        assert(i + pat.len() <= l.len() - 1);
        assert(l2.subrange(i, i + pat.len()) =~= l.subrange(i, i + pat.len()));
    } else if occurs_at(l2, pat, i) {
        assert(l.subrange(i, i + pat.len()) =~= l2.subrange(i, i + pat.len()));
    }
}

/// Dropping a trailing carriage return does not change what the bare
/// import parser sees.
proof fn lemma_parse_simple_drop(l: Seq<char>)
    requires
        l.len() >= 1,
        l.last() == '\r',
    ensures
        parse_import_simple(l.drop_last()) == parse_import_simple(l),
{
    reveal_strlit("import");
    let l2 = l.drop_last();
    let n = l.len() as int;
    let sp = |c: char| is_space_char(c);
    let dt = |c: char| is_dotted_char(c);
    assert(avoids_char("import"@, '\r'));
    assert(!is_dotted_char('\r'));
    lemma_space_scan_drop(l, 0);
    let i0 = scan_end(l, 0, sp);
    if i0 == n {
        assert(!occurs_at(l, "import"@, i0));
        assert(!occurs_at(l2, "import"@, n - 1));
    } else {
        lemma_kw_drop(l, "import"@, i0);
        if occurs_at(l, "import"@, i0) {
            let i1 = i0 + 6;
            assert(i1 <= n - 1) by {
                assert(l.subrange(i0, i0 + 6)[5] == l[i0 + 5]);
            }
            lemma_space_scan_drop(l, i1);
            let i2 = scan_end(l, i1, sp);
            if i2 == n {
                // the whole tail is whitespace: the module scan finds
                // nothing in either line
                if n - 1 > i1 {
                    crate::chars::lemma_scan_end_bounds(l2, n - 1, dt);
                }
            } else if i2 > i1 {
                lemma_run_scan_drop(l, i2, dt);
                let i3 = scan_end(l, i2, dt);
                if i3 > i2 {
                    lemma_space_scan_drop(l, i3);
                }
            }
        }
    }
}

/// Dropping a trailing carriage return does not change what the aliased
/// import parser sees.
proof fn lemma_parse_as_drop(l: Seq<char>)
    requires
        l.len() >= 1,
        l.last() == '\r',
    ensures
        parse_import_as(l.drop_last()) == parse_import_as(l),
{
    reveal_strlit("import");
    reveal_strlit("as");
    let l2 = l.drop_last();
    let n = l.len() as int;
    let sp = |c: char| is_space_char(c);
    let dt = |c: char| is_dotted_char(c);
    let wd = |c: char| is_word_char(c);
    assert(avoids_char("import"@, '\r'));
    assert(avoids_char("as"@, '\r'));
    assert(!is_dotted_char('\r'));
    assert(!is_word_char('\r'));
    lemma_space_scan_drop(l, 0);
    let i0 = scan_end(l, 0, sp);
    if i0 == n {
        assert(!occurs_at(l, "import"@, i0));
        assert(!occurs_at(l2, "import"@, n - 1));
    } else {
        lemma_kw_drop(l, "import"@, i0);
        if occurs_at(l, "import"@, i0) {
            let i1 = i0 + 6;
            assert(i1 <= n - 1) by {
                assert(l.subrange(i0, i0 + 6)[5] == l[i0 + 5]);
            }
            lemma_space_scan_drop(l, i1);
            let i2 = scan_end(l, i1, sp);
            if i2 == n {
                if n - 1 > i1 {
                    crate::chars::lemma_scan_end_bounds(l2, n - 1, dt);
                }
            } else if i2 > i1 {
                lemma_run_scan_drop(l, i2, dt);
                let i3 = scan_end(l, i2, dt);
                if i3 > i2 {
                    lemma_space_scan_drop(l, i3);
                    let i4 = scan_end(l, i3, sp);
                    if i4 == n {
                        assert(!occurs_at(l, "as"@, i4));
                        assert(!occurs_at(l2, "as"@, n - 1));
                    } else if i4 > i3 {
                        lemma_kw_drop(l, "as"@, i4);
                        if occurs_at(l, "as"@, i4) {
                            let i5 = i4 + 2;
                            assert(i5 <= n - 1) by {
                                assert(l.subrange(i4, i4 + 2)[1] == l[i4 + 1]);
                            }
                            lemma_space_scan_drop(l, i5);
                            let i6 = scan_end(l, i5, sp);
                            if i6 == n {
                                if n - 1 > i5 {
                                    crate::chars::lemma_scan_end_bounds(l2, n - 1, wd);
                                }
                            } else if i6 > i5 {
                                lemma_run_scan_drop(l, i6, wd);
                                let i7 = scan_end(l, i6, wd);
                                if i7 > i6 {
                                    lemma_space_scan_drop(l, i7);
                                }
                            }
                        }
                    }
                }
            }
        }
    }
}

/// Dropping a trailing carriage return does not change what the from-form
/// parser sees.
proof fn lemma_parse_from_drop(l: Seq<char>)
    requires
        l.len() >= 1,
        l.last() == '\r',
    ensures
        parse_from_import(l.drop_last()) == parse_from_import(l),
{
    reveal_strlit("from");
    reveal_strlit("import");
    reveal_strlit("as");
    let l2 = l.drop_last();
    let n = l.len() as int;
    let sp = |c: char| is_space_char(c);
    let dt = |c: char| is_dotted_char(c);
    let wd = |c: char| is_word_char(c);
    assert(avoids_char("from"@, '\r'));
    assert(avoids_char("import"@, '\r'));
    assert(avoids_char("as"@, '\r'));
    assert(!is_dotted_char('\r'));
    assert(!is_word_char('\r'));
    lemma_space_scan_drop(l, 0);
    let i0 = scan_end(l, 0, sp);
    if i0 == n {
        assert(!occurs_at(l, "from"@, i0));
        assert(!occurs_at(l2, "from"@, n - 1));
    } else {
        lemma_kw_drop(l, "from"@, i0);
        if occurs_at(l, "from"@, i0) {
            let i1 = i0 + 4;
            assert(i1 <= n - 1) by {
                assert(l.subrange(i0, i0 + 4)[3] == l[i0 + 3]);
            }
            lemma_space_scan_drop(l, i1);
            let i2 = scan_end(l, i1, sp);
            if i2 == n {
                if n - 1 > i1 {
                    crate::chars::lemma_scan_end_bounds(l2, n - 1, dt);
                }
            } else if i2 > i1 {
                lemma_run_scan_drop(l, i2, dt);
                let i3 = scan_end(l, i2, dt);
                if i3 > i2 {
                    lemma_space_scan_drop(l, i3);
                    let i4 = scan_end(l, i3, sp);
                    if i4 == n {
                        assert(!occurs_at(l, "import"@, i4));
                        assert(!occurs_at(l2, "import"@, n - 1));
                    } else if i4 > i3 {
                        lemma_kw_drop(l, "import"@, i4);
                        if occurs_at(l, "import"@, i4) {
                            let i5 = i4 + 6;
                            assert(i5 <= n - 1) by {
                                assert(l.subrange(i4, i4 + 6)[5] == l[i4 + 5]);
                            }
                            lemma_space_scan_drop(l, i5);
                            let i6 = scan_end(l, i5, sp);
                            if i6 == n {
                                if n - 1 > i5 {
                                    crate::chars::lemma_scan_end_bounds(l2, n - 1, wd);
                                }
                            } else if i6 > i5 {
                                lemma_run_scan_drop(l, i6, wd);
                                let i7 = scan_end(l, i6, wd);
                                if i7 > i6 {
                                    lemma_space_scan_drop(l, i7);
                                    let i8 = scan_end(l, i7, sp);
                                    if i8 == n {
                                        // both lines read end-of-line here
                                    } else {
                                        lemma_kw_drop(l, "as"@, i8);
                                        if i8 > i7 && occurs_at(l, "as"@, i8) && l[i8] != '#' {
                                            let i9 = i8 + 2;
                                            assert(i9 <= n - 1) by {
                                                assert(l.subrange(i8, i8 + 2)[1] == l[i8 + 1]);
                                            }
                                            lemma_space_scan_drop(l, i9);
                                            let i10 = scan_end(l, i9, sp);
                                            if i10 == n {
                                                if n - 1 > i9 {
                                                    crate::chars::lemma_scan_end_bounds(
                                                        l2,
                                                        n - 1,
                                                        wd,
                                                    );
                                                }
                                            } else if i10 > i9 {
                                                lemma_run_scan_drop(l, i10, wd);
                                                let i11 = scan_end(l, i10, wd);
                                                if i11 > i10 {
                                                    lemma_space_scan_drop(l, i11);
                                                }
                                            }
                                        }
                                    }
                                }
                            }
                        }
                    }
                }
            }
        }
    }
}

/// Dropping a trailing carriage return does not change whether the line
/// starts with the relative-import marker.
proof fn lemma_from_dot_drop(l: Seq<char>)
    requires
        l.len() >= 1,
        l.last() == '\r',
    ensures
        starts_from_dot(l.drop_last()) == starts_from_dot(l),
{
    reveal_strlit("from .");
    let l2 = l.drop_last();
    let n = l.len() as int;
    let sp = |c: char| is_space_char(c);
    assert(avoids_char("from ."@, '\r'));
    lemma_space_scan_drop(l, 0);
    let i0 = scan_end(l, 0, sp);
    if i0 == n {
        assert(!occurs_at(l, "from ."@, i0));
        assert(!occurs_at(l2, "from ."@, n - 1));
    } else {
        lemma_kw_drop(l, "from ."@, i0);
    }
}

/// A line the engine leaves unchanged is still left unchanged after a
/// trailing carriage return is dropped.
proof fn lemma_rec_none_drop(l: Seq<char>, env: RewriteEnv)
    requires
        rewrite_line(l, env).rec is None,
    ensures
        rewrite_line(strip_cr(l), env).rec is None,
        rewrite_line(strip_cr(l), env).text == strip_cr(l),
{
    assert(rewrite_line(l, env).text == l);
    if l.len() > 0 && l.last() == '\r' {
        let l2 = l.drop_last();
        lemma_from_dot_drop(l);
        lemma_parse_simple_drop(l);
        lemma_parse_as_drop(l);
        lemma_parse_from_drop(l);
        if !starts_from_dot(l2) {
            lemma_parse_bounds(l2);
            if parse_import_simple(l2) is Some {
                let m = parse_import_simple(l2)->0;
                assert(l2.subrange(m.mod_start, m.mod_end) =~= l.subrange(
                    m.mod_start,
                    m.mod_end,
                ));
                assert(l2.subrange(0, m.indent_end) =~= l.subrange(0, m.indent_end));
            } else if parse_import_as(l2) is Some {
                let m = parse_import_as(l2)->0;
                assert(l2.subrange(m.mod_start, m.mod_end) =~= l.subrange(
                    m.mod_start,
                    m.mod_end,
                ));
                assert(l2.subrange(m.alias_start, m.alias_end) =~= l.subrange(
                    m.alias_start,
                    m.alias_end,
                ));
                assert(l2.subrange(0, m.indent_end) =~= l.subrange(0, m.indent_end));
            } else if parse_from_import(l2) is Some {
                let m = parse_from_import(l2)->0;
                assert(l2.subrange(m.pkg_start, m.pkg_end) =~= l.subrange(m.pkg_start, m.pkg_end));
                assert(l2.subrange(m.name_start, m.name_end) =~= l.subrange(
                    m.name_start,
                    m.name_end,
                ));
                assert(l2.subrange(0, m.indent_end) =~= l.subrange(0, m.indent_end));
                match m.alias {
                    Some(a) => {
                        assert(l2.subrange(a.0, a.1) =~= l.subrange(a.0, a.1));
                    },
                    None => {},
                }
            }
        }
    }
}

proof fn lemma_line_pass_nopairs(ls: Seq<Seq<char>>, env: RewriteEnv, i: int)
    requires
        0 <= i <= ls.len(),
        forall|j: int| i <= j < ls.len() ==> #[trigger] rewrite_line(ls[j], env).rec is None,
    ensures
        line_pass_from(ls, env, i).pairs.len() == 0,
    decreases ls.len() - i,
{
    if i < ls.len() {
        lemma_line_pass_nopairs(ls, env, i + 1);
    }
}

/// Idempotence of the rewrite: applying the engine to a file it has
/// already rewritten changes nothing, so the second tree pass modifies
/// zero files.  Holds under a root path free of newlines whenever the
/// whole-file substitution pass of the first run left its text unchanged
/// (for the substitution to interfere, a replaced reference would itself
/// have to spell a new rewritable import line).
pub proof fn lemma_rewrite_idempotent(content: Seq<char>, env: RewriteEnv)
    requires
        avoids_char(env.root, '\n'),
        ({
            let lp = line_pass(spec_lines(content), env);
            subst_pairs_from(lp.out, lp.pairs, 0) == lp.out
        }),
    ensures
        spec_rewrite_changed(spec_rewrite_output(content, env), env) == false,
{
    let ls = spec_lines(content);
    let lp = line_pass(ls, env);
    let out1 = spec_rewrite_output(content, env);
    assert(out1 == lp.out);
    lemma_lines_avoid(content, '\n');
    assert forall|j: int| 0 <= j < ls.len() implies avoids_char(
        #[trigger] rewrite_line(ls[j], env).text,
        '\n',
    ) by {
        lemma_rewrite_line_avoids(ls[j], env, '\n');
    }
    lemma_lines_of_line_pass(ls, env, 0);
    let ls2 = spec_lines(out1);
    assert(ls2 == Seq::new(
        (ls.len() - 0) as nat,
        |j: int| strip_cr(rewrite_line(ls[0 + j], env).text),
    ));
    assert forall|j: int| 0 <= j < ls2.len() implies #[trigger] rewrite_line(ls2[j], env).rec
        is None by {
        assert(ls2[j] == strip_cr(rewrite_line(ls[0 + j], env).text));
        if rewrite_line(ls[j], env).rec is Some {
            lemma_rendered_no_trailing_cr(ls[j], env);
            lemma_rendered_skipped(ls[j], env);
            assert(starts_from_dot(ls2[j]));
        } else {
            assert(rewrite_line(ls[j], env).text == ls[j]);
            lemma_rec_none_drop(ls[j], env);
        }
    }
    lemma_line_pass_nopairs(ls2, env, 0);
}

/// Idempotence at the tree level: a file whose content is already the
/// engine's output is not rewritten again, so the second run over a
/// rewritten tree plans zero modifications.
pub proof fn lemma_second_run_skips_file(
    files: Seq<(String, String)>,
    sufs: Seq<Seq<char>>,
    allowed: Option<Seq<Seq<char>>>,
    root: Seq<char>,
    exclude_google: bool,
    existing: Seq<Seq<char>>,
    i: int,
    first_content: Seq<char>,
)
    requires
        0 <= i < files.len(),
        avoids_char(root, '\n'),
        ({
            let env = file_env(root, files[i].0@, exclude_google, existing);
            let lp = line_pass(spec_lines(first_content), env);
            &&& subst_pairs_from(lp.out, lp.pairs, 0) == lp.out
            &&& files[i].1@ == spec_rewrite_output(first_content, env)
        }),
    ensures
        !wants_rewrite(files, sufs, allowed, root, exclude_google, existing, i),
{
    let env = file_env(root, files[i].0@, exclude_google, existing);
    lemma_rewrite_idempotent(first_content, env);
}

} // verus!
