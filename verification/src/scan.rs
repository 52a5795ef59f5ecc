//! The dry-run scan: counting candidate import lines without changing
//! anything.

use vstd::prelude::*;
use crate::chars::{
    chars_of, is_dotted_char, is_space_char, is_word_char, match_lit, occurs_at, scan_end,
    skip_dotted, skip_spaces, skip_word, subvec,
};
use crate::rewrite::{binding_suffix, has_binding_suffix, lines_acc, spec_lines, split_lines};

verus! {

/// Some prefix of the dotted run `l[i2..i3)` that ends at a dot or at the
/// run's end carries a binding suffix.
pub open spec fn run_has_candidate(l: Seq<char>, i2: int, i3: int) -> bool {
    exists|k: int|
        i2 < k <= i3 && (k == i3 || l[k] == '.') && has_binding_suffix(
            #[trigger] l.subrange(i2, k),
        )
}

/// The line starts with `import`, at the margin, naming a generated
/// binding module.
pub open spec fn counts_import_line(l: Seq<char>) -> bool {
    let i1 = "import"@.len() as int;
    let i2 = scan_end(l, i1, |c: char| is_space_char(c));
    let i3 = scan_end(l, i2, |c: char| is_dotted_char(c));
    &&& occurs_at(l, "import"@, 0)
    &&& i2 > i1
    &&& i3 > i2
    &&& run_has_candidate(l, i2, i3)
}

/// The line starts with `from P import N`, at the margin, with `N`
/// carrying a binding suffix.
pub open spec fn counts_from_line(l: Seq<char>) -> bool {
    let i1 = "from"@.len() as int;
    let i2 = scan_end(l, i1, |c: char| is_space_char(c));
    let i3 = scan_end(l, i2, |c: char| is_dotted_char(c));
    let i4 = scan_end(l, i3, |c: char| is_space_char(c));
    let i5 = i4 + "import"@.len();
    let i6 = scan_end(l, i5, |c: char| is_space_char(c));
    let i7 = scan_end(l, i6, |c: char| is_word_char(c));
    &&& occurs_at(l, "from"@, 0)
    &&& i2 > i1
    &&& i3 > i2
    &&& i4 > i3
    &&& occurs_at(l, "import"@, i4)
    &&& i6 > i5
    &&& i7 > i6
    &&& has_binding_suffix(l.subrange(i6, i7))
}

/// How many candidate import lines `ls[i..]` hold; a line that is both an
/// import form and a from form counts once for each pattern.
pub open spec fn spec_candidate_count(ls: Seq<Seq<char>>, i: int) -> int
    decreases ls.len() - i,
{
    if i < 0 || i >= ls.len() {
        0
    } else {
        (if counts_import_line(ls[i]) {
            1int
        } else {
            0int
        }) + (if counts_from_line(ls[i]) {
            1int
        } else {
            0int
        }) + spec_candidate_count(ls, i + 1)
    }
}

fn run_candidate_exec(l: &Vec<char>, i2: usize, i3: usize) -> (r: bool)
    requires
        i2 < i3 <= l@.len(),
    ensures
        r == run_has_candidate(l@, i2 as int, i3 as int),
{
    let mut k: usize = i2 + 1;
    while k < i3
        invariant
            i2 < k <= i3,
            i3 <= l@.len(),
            forall|j: int|
                i2 < j < k ==> !((j == i3 as int || l@[j] == '.') && has_binding_suffix(
                    #[trigger] l@.subrange(i2 as int, j),
                )),
        decreases i3 - k,
    {
        if l[k] == '.' {
            let piece = subvec(l, i2, k);
            if binding_suffix(&piece) {
                proof {
                    assert(l@[k as int] == '.' && has_binding_suffix(
                        l@.subrange(i2 as int, k as int),
                    ));
                }
                return true;
            }
        }
        k += 1;
    }
    let whole = subvec(l, i2, i3);
    let r = binding_suffix(&whole);
    proof {
        if r {
            assert((i3 as int == i3 as int) && has_binding_suffix(
                l@.subrange(i2 as int, i3 as int),
            ));
        }
    }
    r
}

fn line_counts_exec(l: &Vec<char>) -> (r: (bool, bool))
    ensures
        r.0 == counts_import_line(l@),
        r.1 == counts_from_line(l@),
{
    proof {
        reveal_strlit("import");
        reveal_strlit("from");
    }
    let n = l.len();
    let imp = {
        if !match_lit(l, 0, "import") {
            false
        } else {
            let i2 = skip_spaces(l, 6);
            proof {
                crate::chars::lemma_scan_end_bounds(l@, 6, |c: char| is_space_char(c));
            }
            if i2 <= 6 {
                false
            } else {
                let i3 = skip_dotted(l, i2);
                proof {
                    crate::chars::lemma_scan_end_bounds(l@, i2 as int, |c: char| is_dotted_char(c));
                }
                if i3 <= i2 {
                    false
                } else {
                    run_candidate_exec(l, i2, i3)
                }
            }
        }
    };
    let frm = {
        if !match_lit(l, 0, "from") {
            false
        } else {
            let i2 = skip_spaces(l, 4);
            proof {
                crate::chars::lemma_scan_end_bounds(l@, 4, |c: char| is_space_char(c));
            }
            if i2 <= 4 {
                false
            } else {
                let i3 = skip_dotted(l, i2);
                proof {
                    crate::chars::lemma_scan_end_bounds(l@, i2 as int, |c: char| is_dotted_char(c));
                }
                if i3 <= i2 {
                    false
                } else {
                    let i4 = skip_spaces(l, i3);
                    proof {
                        crate::chars::lemma_scan_end_bounds(
                            l@,
                            i3 as int,
                            |c: char| is_space_char(c),
                        );
                    }
                    if i4 <= i3 || !match_lit(l, i4, "import") {
                        false
                    } else {
                        let i5 = i4 + 6;
                        let i6 = skip_spaces(l, i5);
                        proof {
                            crate::chars::lemma_scan_end_bounds(
                                l@,
                                i5 as int,
                                |c: char| is_space_char(c),
                            );
                        }
                        if i6 <= i5 {
                            false
                        } else {
                            let i7 = skip_word(l, i6);
                            proof {
                                crate::chars::lemma_scan_end_bounds(
                                    l@,
                                    i6 as int,
                                    |c: char| is_word_char(c),
                                );
                            }
                            if i7 <= i6 {
                                false
                            } else {
                                let name = subvec(l, i6, i7);
                                binding_suffix(&name)
                            }
                        }
                    }
                }
            }
        }
    };
    (imp, frm)
}

proof fn lemma_lines_count_bound(s: Seq<char>, i: int, cur: Seq<char>, acc: Seq<Seq<char>>)
    requires
        0 <= i <= s.len(),
    ensures
        lines_acc(s, i, cur, acc).len() <= acc.len() + (s.len() - i) + 1,
    decreases s.len() - i,
{
    if i < s.len() {
        if s[i] == '\n' {
            lemma_lines_count_bound(s, i + 1, Seq::empty(), acc.push(strip_cr_of(cur)));
        } else {
            lemma_lines_count_bound(s, i + 1, cur.push(s[i]), acc);
        }
    }
}

spec fn strip_cr_of(l: Seq<char>) -> Seq<char> {
    crate::rewrite::strip_cr(l)
}

/// Count the candidate import lines of one file, as the dry-run report
/// does.
pub fn count_import_candidates(content: &str) -> (r: usize)
    requires
        content@.len() < usize::MAX / 4,
    ensures
        r == spec_candidate_count(spec_lines(content@), 0),
{
    let cv = chars_of(content);
    let lines = split_lines(&cv);
    let ghost ls = spec_lines(content@);
    proof {
        lemma_lines_count_bound(content@, 0, Seq::empty(), Seq::empty());
    }
    let mut r: usize = 0;
    let mut i: usize = 0;
    while i < lines.len()
        invariant
            0 <= i <= lines@.len(),
            crate::paths::views_of(lines@) == ls,
            ls.len() <= content@.len() + 1,
            content@.len() < usize::MAX / 4,
            r <= 2 * i,
            r + spec_candidate_count(ls, i as int) == spec_candidate_count(ls, 0),
        decreases lines@.len() - i,
    {
        let (a, b) = line_counts_exec(&lines[i]);
        proof {
            assert(ls[i as int] == lines@[i as int]@);
        }
        if a {
            r += 1;
        }
        if b {
            r += 1;
        }
        i += 1;
    }
    r
}

} // verus!
