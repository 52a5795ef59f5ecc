//! Resolving the import search root and package name of the output tree.
//!
//! Paths are `/`-separated strings without trailing separators, as a
//! canonicalized output path is.  What only the file system can answer —
//! whether the parent directory exists, whether it carries a package-marker
//! file, whether the grandparent exists — is probed by the caller and handed
//! in as plain booleans.

use vstd::prelude::*;
use crate::chars::{chars_of, push_all, push_str_chars, string_from_chars, subvec};
use crate::paths::{last_index_of, split_nonempty, split_vec};

verus! {

/// What the file system says about the surroundings of the output directory.
#[derive(Clone, Copy)]
pub struct DirProbe {
    pub parent_exists: bool,
    pub parent_has_marker: bool,
    pub grandparent_exists: bool,
}

/// The parent path: everything before the last separator, the root path
/// when the last separator is the leading one; the root path itself and a
/// path without separators have no parent.
pub open spec fn parent_path_of(p: Seq<char>) -> Option<Seq<char>> {
    let i = last_index_of(p, '/', p.len() - 1);
    if i < 0 {
        None
    } else if i == 0 {
        if p.len() == 1 {
            None
        } else {
            Some(seq!['/'])
        }
    } else {
        Some(p.subrange(0, i))
    }
}

/// The name of the directory itself, with the fixed fallback used when the
/// path has no final segment.
pub open spec fn spec_out_name(p: Seq<char>) -> Seq<char> {
    let segs = split_nonempty(p, '/');
    if segs.len() == 0 {
        "generated"@
    } else {
        segs.last()
    }
}

/// The name of the directory itself, or empty when the path has no final
/// segment.
pub open spec fn spec_dir_name(p: Seq<char>) -> Seq<char> {
    let segs = split_nonempty(p, '/');
    if segs.len() == 0 {
        Seq::empty()
    } else {
        segs.last()
    }
}

/// Search root and dotted package name, preferring a nested-package layout:
/// when the parent directory is itself a package, import from the
/// grandparent under `parent.out`; else import from the parent under the
/// output directory's own name; with no usable parent, fall back to the
/// output directory itself with no package qualification.
pub open spec fn spec_package_structure(p: Seq<char>, probe: DirProbe) -> (Seq<char>, Seq<char>) {
    let out_name = spec_out_name(p);
    match parent_path_of(p) {
        None => (p, Seq::<char>::empty()),
        Some(par) => {
            if !probe.parent_exists {
                (p, Seq::<char>::empty())
            } else if probe.parent_has_marker {
                match parent_path_of(par) {
                    None => (par, out_name),
                    Some(gp) => {
                        if probe.grandparent_exists {
                            let pn = spec_dir_name(par);
                            if pn.len() == 0 {
                                (gp, out_name)
                            } else {
                                (gp, pn + seq!['.'] + out_name)
                            }
                        } else {
                            (par, out_name)
                        }
                    },
                }
            } else {
                (par, out_name)
            }
        },
    }
}

/// Search root and package name ignoring any nested-package layout: the
/// parent directory when it exists, else the output directory itself.
pub open spec fn spec_package_structure_legacy(p: Seq<char>, parent_exists: bool) -> (
    Seq<char>,
    Seq<char>,
) {
    match parent_path_of(p) {
        None => (p, Seq::<char>::empty()),
        Some(par) => {
            if parent_exists {
                (par, spec_out_name(p))
            } else {
                (p, Seq::<char>::empty())
            }
        },
    }
}

/// Executable form of [`parent_path_of`].
pub fn parent_path_vec(v: &Vec<char>) -> (r: Option<Vec<char>>)
    ensures
        match r {
            None => parent_path_of(v@) is None,
            Some(p) => parent_path_of(v@) == Some(p@),
        },
{
    let mut j: usize = v.len();
    while j > 0
        invariant
            0 <= j <= v@.len(),
            last_index_of(v@, '/', v@.len() - 1) == last_index_of(v@, '/', j - 1),
        decreases j,
    {
        if v[j - 1] == '/' {
            proof {
                assert(last_index_of(v@, '/', j - 1) == j - 1);
            }
            if j - 1 == 0 {
                if v.len() == 1 {
                    return None;
                }
                let mut root: Vec<char> = Vec::new();
                root.push('/');
                proof {
                    assert(root@ =~= seq!['/']);
                }
                return Some(root);
            }
            return Some(subvec(v, 0, j - 1));
        }
        j -= 1;
    }
    proof {
        assert(last_index_of(v@, '/', v@.len() - 1) == -1);
    }
    None
}

fn dir_name_vec(v: &Vec<char>) -> (r: Vec<char>)
    ensures
        r@ == spec_dir_name(v@),
{
    let segs = split_vec(v, '/');
    if segs.len() == 0 {
        proof {
            assert(Seq::<char>::empty() =~= spec_dir_name(v@));
        }
        Vec::new()
    } else {
        let last = subvec(&segs[segs.len() - 1], 0, segs[segs.len() - 1].len());
        proof {
            assert(last@ =~= crate::paths::views_of(segs@).last());
        }
        last
    }
}

fn out_name_vec(v: &Vec<char>) -> (r: Vec<char>)
    ensures
        r@ == spec_out_name(v@),
{
    let segs = split_vec(v, '/');
    if segs.len() == 0 {
        let mut g: Vec<char> = Vec::new();
        push_str_chars(&mut g, "generated");
        proof {
            assert(g@ =~= "generated"@);
        }
        g
    } else {
        let last = subvec(&segs[segs.len() - 1], 0, segs[segs.len() - 1].len());
        proof {
            assert(last@ =~= crate::paths::views_of(segs@).last());
        }
        last
    }
}

/// Determine the import search root and dotted package name for the output
/// directory, preferring a nested-package layout when the parent directory
/// is itself a package.
pub fn determine_package_structure(out_abs: &str, probe: DirProbe) -> (r: (String, String))
    ensures
        (r.0@, r.1@) == spec_package_structure(out_abs@, probe),
{
    let v = chars_of(out_abs);
    let out_name = out_name_vec(&v);
    match parent_path_vec(&v) {
        None => (string_from_chars(&v), String::new()),
        Some(par) => {
            if !probe.parent_exists {
                return (string_from_chars(&v), String::new());
            }
            if probe.parent_has_marker {
                match parent_path_vec(&par) {
                    None => return (string_from_chars(&par), string_from_chars(&out_name)),
                    Some(gp) => {
                        if probe.grandparent_exists {
                            let pn = dir_name_vec(&par);
                            if pn.len() == 0 {
                                return (string_from_chars(&gp), string_from_chars(&out_name));
                            }
                            let mut pkg = pn;
                            pkg.push('.');
                            push_all(&mut pkg, &out_name);
                            proof {
                                assert(pkg@ =~= spec_dir_name(par@) + seq!['.'] + spec_out_name(
                                    v@,
                                ));
                            }
                            return (string_from_chars(&gp), string_from_chars(&pkg));
                        }
                        return (string_from_chars(&par), string_from_chars(&out_name));
                    },
                }
            }
            (string_from_chars(&par), string_from_chars(&out_name))
        },
    }
}

/// Determine the import search root and package name without looking for a
/// nested-package layout: the parent directory when it exists, else the
/// output directory itself with no package qualification.
pub fn determine_package_structure_legacy(out_abs: &str, parent_exists: bool) -> (r: (
    String,
    String,
))
    ensures
        (r.0@, r.1@) == spec_package_structure_legacy(out_abs@, parent_exists),
{
    let v = chars_of(out_abs);
    match parent_path_vec(&v) {
        None => (string_from_chars(&v), String::new()),
        Some(par) => {
            if parent_exists {
                let out_name = out_name_vec(&v);
                (string_from_chars(&par), string_from_chars(&out_name))
            } else {
                (string_from_chars(&v), String::new())
            }
        },
    }
}

} // verus!
