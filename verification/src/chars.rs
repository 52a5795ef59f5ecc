//! Character classes and utilities over character vectors.
//!
//! Text processing works on `Vec<char>`, whose view is a `Seq<char>`, the same
//! view type as `str`, so contracts can relate processed text to string
//! literals directly.

use vstd::prelude::*;
use vstd::string::*;

verus! {

/// Whitespace accepted inside a single line (a line never contains `'\n'`).
pub open spec fn is_space_char(c: char) -> bool {
    c == ' ' || c == '\t' || c == '\r' || c == '\u{b}' || c == '\u{c}'
}

/// Characters that can appear in an identifier.
pub open spec fn is_word_char(c: char) -> bool {
    ('a' <= c && c <= 'z') || ('A' <= c && c <= 'Z') || ('0' <= c && c <= '9') || c == '_'
}

/// Characters that can appear in a dotted module path.
pub open spec fn is_dotted_char(c: char) -> bool {
    is_word_char(c) || c == '.'
}

pub fn space_char(c: char) -> (r: bool)
    ensures
        r == is_space_char(c),
{
    c == ' ' || c == '\t' || c == '\r' || c == '\u{b}' || c == '\u{c}'
}

pub fn word_char(c: char) -> (r: bool)
    ensures
        r == is_word_char(c),
{
    ('a' <= c && c <= 'z') || ('A' <= c && c <= 'Z') || ('0' <= c && c <= '9') || c == '_'
}

pub fn dotted_char(c: char) -> (r: bool)
    ensures
        r == is_dotted_char(c),
{
    word_char(c) || c == '.'
}

/// First index at or after `i` where `p` no longer holds (or the end).
pub open spec fn scan_end(s: Seq<char>, i: int, p: spec_fn(char) -> bool) -> int
    decreases s.len() - i,
{
    if i < 0 || i >= s.len() {
        i
    } else if p(s[i]) {
        scan_end(s, i + 1, p)
    } else {
        i
    }
}

pub proof fn lemma_scan_end_bounds(s: Seq<char>, i: int, p: spec_fn(char) -> bool)
    requires
        0 <= i <= s.len(),
    ensures
        i <= scan_end(s, i, p) <= s.len(),
        forall|k: int| i <= k < scan_end(s, i, p) ==> p(s[k]),
        scan_end(s, i, p) < s.len() ==> !p(s[scan_end(s, i, p)]),
    decreases s.len() - i,
{
    if i < s.len() && p(s[i]) {
        lemma_scan_end_bounds(s, i + 1, p);
    }
}

fn scan_spaces(v: &Vec<char>, i: usize) -> (j: usize)
    requires
        i <= v@.len(),
    ensures
        j == scan_end(v@, i as int, |c: char| is_space_char(c)),
    decreases v@.len() - i,
{
    if i < v.len() && space_char(v[i]) {
        scan_spaces(v, i + 1)
    } else {
        i
    }
}

fn scan_dotted(v: &Vec<char>, i: usize) -> (j: usize)
    requires
        i <= v@.len(),
    ensures
        j == scan_end(v@, i as int, |c: char| is_dotted_char(c)),
    decreases v@.len() - i,
{
    if i < v.len() && dotted_char(v[i]) {
        scan_dotted(v, i + 1)
    } else {
        i
    }
}

fn scan_word(v: &Vec<char>, i: usize) -> (j: usize)
    requires
        i <= v@.len(),
    ensures
        j == scan_end(v@, i as int, |c: char| is_word_char(c)),
    decreases v@.len() - i,
{
    if i < v.len() && word_char(v[i]) {
        scan_word(v, i + 1)
    } else {
        i
    }
}

/// Wrappers with public names used by the line matcher.
pub fn skip_spaces(v: &Vec<char>, i: usize) -> (j: usize)
    requires
        i <= v@.len(),
    ensures
        j == scan_end(v@, i as int, |c: char| is_space_char(c)),
{
    scan_spaces(v, i)
}

pub fn skip_dotted(v: &Vec<char>, i: usize) -> (j: usize)
    requires
        i <= v@.len(),
    ensures
        j == scan_end(v@, i as int, |c: char| is_dotted_char(c)),
{
    scan_dotted(v, i)
}

pub fn skip_word(v: &Vec<char>, i: usize) -> (j: usize)
    requires
        i <= v@.len(),
    ensures
        j == scan_end(v@, i as int, |c: char| is_word_char(c)),
{
    scan_word(v, i)
}

/// `pat` occurs in `s` starting at position `i`.
pub open spec fn occurs_at(s: Seq<char>, pat: Seq<char>, i: int) -> bool {
    0 <= i && i + pat.len() <= s.len() && s.subrange(i, i + pat.len()) == pat
}

/// `pat` occurs somewhere in `s`.
pub open spec fn contains_seq(s: Seq<char>, pat: Seq<char>) -> bool {
    exists|i: int| occurs_at(s, pat, i)
}

/// Compare the characters of `v` starting at `i` against a pattern literal.
pub fn match_lit(v: &Vec<char>, i: usize, pat: &str) -> (r: bool)
    requires
        i <= v@.len(),
    ensures
        r == occurs_at(v@, pat@, i as int),
{
    let n = pat.unicode_len();
    if n > v.len() - i {
        return false;
    }
    let mut j: usize = 0;
    while j < n
        invariant
            0 <= j <= n,
            i + n <= v@.len(),
            v@.len() <= usize::MAX,
            n == pat@.len(),
            forall|k: int| 0 <= k < j ==> v@[i + k] == pat@[k],
        decreases n - j,
    {
        if v[i + j] != pat.get_char(j) {
            proof {
                assert(v@.subrange(i as int, i + n) != pat@) by {
                    assert(v@.subrange(i as int, i + n)[j as int] != pat@[j as int]);
                }
            }
            return false;
        }
        j += 1;
    }
    proof {
        assert(v@.subrange(i as int, i + n) =~= pat@);
    }
    true
}

/// `v` ends with the pattern literal.
pub fn ends_with_lit(v: &Vec<char>, pat: &str) -> (r: bool)
    ensures
        r == (v@.len() >= pat@.len() && v@.subrange(
            v@.len() - pat@.len(),
            v@.len() as int,
        ) == pat@),
{
    let n = pat.unicode_len();
    if n > v.len() {
        return false;
    }
    let r = match_lit(v, v.len() - n, pat);
    proof {
        assert(occurs_at(v@, pat@, v@.len() - pat@.len()) <==> v@.subrange(
            v@.len() - pat@.len(),
            v@.len() as int,
        ) == pat@);
    }
    r
}

/// `s` ends with `suf`.
pub open spec fn seq_ends_with(s: Seq<char>, suf: Seq<char>) -> bool {
    s.len() >= suf.len() && s.subrange(s.len() - suf.len(), s.len() as int) == suf
}

/// `v` ends with the pattern vector.
pub fn ends_with_vec(v: &Vec<char>, pat: &Vec<char>) -> (r: bool)
    ensures
        r == seq_ends_with(v@, pat@),
{
    let n = pat.len();
    if n > v.len() {
        return false;
    }
    let r = match_vec(v, v.len() - n, pat);
    proof {
        assert(occurs_at(v@, pat@, v@.len() - pat@.len()) <==> seq_ends_with(v@, pat@));
    }
    r
}

/// Compare the characters of `v` starting at `i` against another vector.
pub fn match_vec(v: &Vec<char>, i: usize, pat: &Vec<char>) -> (r: bool)
    requires
        i <= v@.len(),
    ensures
        r == occurs_at(v@, pat@, i as int),
{
    let n = pat.len();
    if n > v.len() - i {
        return false;
    }
    let mut j: usize = 0;
    while j < n
        invariant
            0 <= j <= n,
            i + n <= v@.len(),
            v@.len() <= usize::MAX,
            n == pat@.len(),
            forall|k: int| 0 <= k < j ==> v@[i + k] == pat@[k],
        decreases n - j,
    {
        if v[i + j] != pat[j] {
            proof {
                assert(v@.subrange(i as int, i + n) != pat@) by {
                    assert(v@.subrange(i as int, i + n)[j as int] != pat@[j as int]);
                }
            }
            return false;
        }
        j += 1;
    }
    proof {
        assert(v@.subrange(i as int, i + n) =~= pat@);
    }
    true
}

/// `v` contains `pat` as a contiguous run.
pub fn contains_vec(v: &Vec<char>, pat: &Vec<char>) -> (r: bool)
    ensures
        r == contains_seq(v@, pat@),
{
    if pat.len() > v.len() {
        proof {
            assert(forall|i: int| !occurs_at(v@, pat@, i));
        }
        return false;
    }
    if pat.len() == 0 {
        proof {
            assert(v@.subrange(0, 0) =~= pat@);
            assert(occurs_at(v@, pat@, 0));
        }
        return true;
    }
    let stop = v.len() - pat.len() + 1;
    let mut i: usize = 0;
    while i < stop
        invariant
            0 <= i <= stop,
            stop == v@.len() - pat@.len() + 1,
            0 < pat@.len() <= v@.len(),
            forall|k: int| 0 <= k < i ==> !occurs_at(v@, pat@, k),
        decreases stop - i,
    {
        if match_vec(v, i, pat) {
            return true;
        }
        i += 1;
    }
    proof {
        assert(forall|k: int| occurs_at(v@, pat@, k) ==> 0 <= k < stop);
    }
    false
}

/// The characters of a `&str`, in order.
pub fn chars_of(s: &str) -> (r: Vec<char>)
    ensures
        r@ == s@,
{
    let n = s.unicode_len();
    let mut r: Vec<char> = Vec::new();
    let mut i: usize = 0;
    while i < n
        invariant
            0 <= i <= n,
            n == s@.len(),
            r@ == s@.subrange(0, i as int),
        decreases n - i,
    {
        r.push(s.get_char(i));
        i += 1;
    }
    proof {
        assert(r@ =~= s@);
    }
    r
}

/// Relies on `String`'s `FromIterator` over `char`: collecting an iterator of
/// characters yields the string of exactly those characters in order.
#[verifier::external_body]
pub fn string_from_chars(v: &Vec<char>) -> (r: String)
    ensures
        r@ == v@,
{
    v.iter().collect()
}

/// Append every character of `src` to `dst`.
pub fn push_all(dst: &mut Vec<char>, src: &Vec<char>)
    ensures
        final(dst)@ == old(dst)@ + src@,
{
    let mut i: usize = 0;
    while i < src.len()
        invariant
            0 <= i <= src@.len(),
            dst@ == old(dst)@ + src@.subrange(0, i as int),
        decreases src@.len() - i,
    {
        dst.push(src[i]);
        i += 1;
        proof {
            assert(old(dst)@ + src@.subrange(0, i as int) =~= (old(dst)@ + src@.subrange(
                0,
                i - 1,
            )).push(src@[i - 1]));
        }
    }
    proof {
        assert(src@.subrange(0, src@.len() as int) =~= src@);
    }
}

/// Append every character of a string literal to `dst`.
pub fn push_str_chars(dst: &mut Vec<char>, s: &str)
    ensures
        final(dst)@ == old(dst)@ + s@,
{
    let n = s.unicode_len();
    let mut i: usize = 0;
    while i < n
        invariant
            0 <= i <= n,
            n == s@.len(),
            dst@ == old(dst)@ + s@.subrange(0, i as int),
        decreases n - i,
    {
        dst.push(s.get_char(i));
        i += 1;
        proof {
            assert(old(dst)@ + s@.subrange(0, i as int) =~= (old(dst)@ + s@.subrange(0, i - 1)).push(
                s@[i - 1],
            ));
        }
    }
    proof {
        assert(s@.subrange(0, n as int) =~= s@);
    }
}

/// Copy of the characters of `v` in positions `[a, b)`.
pub fn subvec(v: &Vec<char>, a: usize, b: usize) -> (r: Vec<char>)
    requires
        a <= b <= v@.len(),
    ensures
        r@ == v@.subrange(a as int, b as int),
{
    let mut r: Vec<char> = Vec::new();
    let mut i: usize = a;
    while i < b
        invariant
            a <= i <= b <= v@.len(),
            r@ == v@.subrange(a as int, i as int),
        decreases b - i,
    {
        r.push(v[i]);
        i += 1;
        proof {
            assert(v@.subrange(a as int, i as int) =~= v@.subrange(a as int, i - 1).push(
                v@[i - 1],
            ));
        }
    }
    r
}

/// The two vectors hold the same characters.
pub fn vecs_eq(a: &Vec<char>, b: &Vec<char>) -> (r: bool)
    ensures
        r == (a@ == b@),
{
    if a.len() != b.len() {
        return false;
    }
    let mut i: usize = 0;
    while i < a.len()
        invariant
            0 <= i <= a@.len(),
            a@.len() == b@.len(),
            forall|k: int| 0 <= k < i ==> a@[k] == b@[k],
        decreases a@.len() - i,
    {
        if a[i] != b[i] {
            return false;
        }
        i += 1;
    }
    proof {
        assert(a@ =~= b@);
    }
    true
}

/// Decimal digit character for a value below ten.
pub open spec fn digit_char(d: int) -> char {
    if d == 0 {
        '0'
    } else if d == 1 {
        '1'
    } else if d == 2 {
        '2'
    } else if d == 3 {
        '3'
    } else if d == 4 {
        '4'
    } else if d == 5 {
        '5'
    } else if d == 6 {
        '6'
    } else if d == 7 {
        '7'
    } else if d == 8 {
        '8'
    } else {
        '9'
    }
}

/// Decimal rendering of a non-negative integer.
pub open spec fn dec_digits(n: int) -> Seq<char>
    decreases n,
{
    if n < 10 {
        seq![digit_char(n)]
    } else {
        dec_digits(n / 10).push(digit_char(n % 10))
    }
}

/// Decimal rendering of an integer, with a leading minus sign if negative.
pub open spec fn dec_int(n: int) -> Seq<char> {
    if n < 0 {
        seq!['-'] + dec_digits(-n)
    } else {
        dec_digits(n)
    }
}

fn push_dec_u64(dst: &mut Vec<char>, n: u64)
    ensures
        final(dst)@ == old(dst)@ + dec_digits(n as int),
    decreases n,
{
    if n < 10 {
        let d: u64 = n;
        let c: char = if d == 0 {
            '0'
        } else if d == 1 {
            '1'
        } else if d == 2 {
            '2'
        } else if d == 3 {
            '3'
        } else if d == 4 {
            '4'
        } else if d == 5 {
            '5'
        } else if d == 6 {
            '6'
        } else if d == 7 {
            '7'
        } else if d == 8 {
            '8'
        } else {
            '9'
        };
        proof {
            assert(c == digit_char(n as int));
        }
        dst.push(c);
        proof {
            assert(old(dst)@ + dec_digits(n as int) =~= old(dst)@.push(digit_char(n as int)));
        }
    } else {
        push_dec_u64(dst, n / 10);
        let d: u64 = n % 10;
        let c: char = if d == 0 {
            '0'
        } else if d == 1 {
            '1'
        } else if d == 2 {
            '2'
        } else if d == 3 {
            '3'
        } else if d == 4 {
            '4'
        } else if d == 5 {
            '5'
        } else if d == 6 {
            '6'
        } else if d == 7 {
            '7'
        } else if d == 8 {
            '8'
        } else {
            '9'
        };
        proof {
            assert(c == digit_char(n as int % 10));
        }
        dst.push(c);
        proof {
            assert(old(dst)@ + dec_digits(n as int) =~= (old(dst)@ + dec_digits(
                n as int / 10,
            )).push(digit_char(n as int % 10)));
        }
    }
}

/// Append the decimal rendering of a `usize`.
pub fn push_dec_usize(dst: &mut Vec<char>, n: usize)
    ensures
        final(dst)@ == old(dst)@ + dec_digits(n as int),
{
    push_dec_u64(dst, n as u64);
}

/// Append the decimal rendering of an `i32`, as `format!` would print it.
pub fn push_dec_i32(dst: &mut Vec<char>, n: i32)
    ensures
        final(dst)@ == old(dst)@ + dec_int(n as int),
{
    if n < 0 {
        dst.push('-');
        let m: u64 = (-(n as i64)) as u64;
        proof {
            assert(m as int == -(n as int));
        }
        push_dec_u64(dst, m);
        proof {
            assert(dst@ =~= old(dst)@ + dec_int(n as int));
        }
    } else {
        push_dec_u64(dst, n as u64);
    }
}

/// Decimal rendering of a `usize`.
pub fn dec_of_usize(n: usize) -> (r: String)
    ensures
        r@ == dec_int(n as int),
{
    let mut v: Vec<char> = Vec::new();
    push_dec_u64(&mut v, n as u64);
    string_from_chars(&v)
}

/// Decimal rendering of an `i32`, as `format!` would print it.
pub fn dec_of_i32(n: i32) -> (r: String)
    ensures
        r@ == dec_int(n as int),
{
    let mut v: Vec<char> = Vec::new();
    if n < 0 {
        v.push('-');
        let m: u64 = (-(n as i64)) as u64;
        proof {
            assert(m as int == -(n as int));
        }
        push_dec_u64(&mut v, m);
        proof {
            assert(v@ =~= dec_int(n as int));
        }
    } else {
        push_dec_u64(&mut v, n as u64);
    }
    string_from_chars(&v)
}

} // verus!
