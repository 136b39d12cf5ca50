//! Character classes and case-insensitive scanning over sequences of
//! characters.  These are the building blocks of the SVG text scanners.

use vstd::prelude::*;

verus! {

/// ASCII whitespace: the characters the scanners treat as blank.
pub open spec fn is_blank(c: char) -> bool {
    c == ' ' || c == '\t' || c == '\n' || c == '\r' || c == '\x0b' || c == '\x0c'
}

/// A decimal digit.
pub open spec fn is_digit(c: char) -> bool {
    '0' as u32 <= c as u32 && c as u32 <= '9' as u32
}

/// A character of a numeric token: a digit or a dot.
pub open spec fn is_num_char(c: char) -> bool {
    is_digit(c) || c == '.'
}

/// The code point of `c` with an ASCII upper-case letter folded to lower case.
pub open spec fn lower_code(c: char) -> u32 {
    if 'A' as u32 <= c as u32 && c as u32 <= 'Z' as u32 {
        (c as u32 + 32) as u32
    } else {
        c as u32
    }
}

/// Case-insensitive equality on characters (ASCII letters only).
pub open spec fn ci_eq(a: char, b: char) -> bool {
    lower_code(a) == lower_code(b)
}

/// `pat` occurs at position `i` of `s`, compared case-insensitively.
pub open spec fn matches_ci(s: Seq<char>, i: int, pat: Seq<char>) -> bool {
    &&& 0 <= i
    &&& i + pat.len() <= s.len()
    &&& forall|j: int| 0 <= j < pat.len() ==> ci_eq(s[i + j], #[trigger] pat[j])
}

/// The first position at or after `i` where `pat` occurs in `s`,
/// compared case-insensitively.
pub open spec fn find_ci(s: Seq<char>, pat: Seq<char>, i: int) -> Option<int>
    decreases s.len() - i,
{
    if i < 0 || i + pat.len() > s.len() {
        None
    } else if matches_ci(s, i, pat) {
        Some(i)
    } else {
        find_ci(s, pat, i + 1)
    }
}

/// The end of the run of blank characters that starts at `i`: the first
/// position at or after `i` that is past the end or not blank.
pub open spec fn blank_run_end(s: Seq<char>, i: int) -> int
    decreases s.len() - i,
{
    if i < 0 || i >= s.len() {
        i
    } else if is_blank(s[i]) {
        blank_run_end(s, i + 1)
    } else {
        i
    }
}

/// The end of the run of numeric-token characters that starts at `i`.
pub open spec fn num_run_end(s: Seq<char>, i: int) -> int
    decreases s.len() - i,
{
    if i < 0 || i >= s.len() {
        i
    } else if is_num_char(s[i]) {
        num_run_end(s, i + 1)
    } else {
        i
    }
}

pub fn blank_x(c: char) -> (r: bool)
    ensures
        r == is_blank(c),
{
    c == ' ' || c == '\t' || c == '\n' || c == '\r' || c == '\x0b' || c == '\x0c'
}

pub fn digit_x(c: char) -> (r: bool)
    ensures
        r == is_digit(c),
{
    '0' as u32 <= c as u32 && c as u32 <= '9' as u32
}

pub fn num_char_x(c: char) -> (r: bool)
    ensures
        r == is_num_char(c),
{
    digit_x(c) || c == '.'
}

pub fn lower_code_x(c: char) -> (r: u32)
    ensures
        r == lower_code(c),
{
    if 'A' as u32 <= c as u32 && c as u32 <= 'Z' as u32 {
        c as u32 + 32
    } else {
        c as u32
    }
}

pub fn ci_eq_x(a: char, b: char) -> (r: bool)
    ensures
        r == ci_eq(a, b),
{
    lower_code_x(a) == lower_code_x(b)
}

/// Whether `pat` occurs at position `i` of `s`, case-insensitively.
pub fn matches_ci_at(s: &Vec<char>, i: usize, pat: &Vec<char>) -> (r: bool)
    ensures
        r == matches_ci(s@, i as int, pat@),
{
    let n = s.len();
    if i > n || n - i < pat.len() {
        return false;
    }
    let mut j: usize = 0;
    while j < pat.len()
        invariant
            n == s@.len(),
            i + pat@.len() <= n,
            0 <= j <= pat@.len(),
            forall|k: int| 0 <= k < j ==> ci_eq(s@[i + k], #[trigger] pat@[k]),
        decreases pat@.len() - j,
    {
        assert(i + j < n);
        if !ci_eq_x(s[i + j], pat[j]) {
            return false;
        }
        j += 1;
    }
    true
}

/// The first occurrence of `pat` in `s` at or after `from`,
/// case-insensitively.
pub fn find_ci_from(s: &Vec<char>, pat: &Vec<char>, from: usize) -> (r: Option<usize>)
    requires
        from <= s@.len(),
    ensures
        match r {
            Some(k) => find_ci(s@, pat@, from as int) == Some(k as int) && from <= k
                && k + pat@.len() <= s@.len(),
            None => find_ci(s@, pat@, from as int) is None,
        },
{
    let mut p: usize = from;
    loop
        invariant
            from <= p <= s@.len(),
            find_ci(s@, pat@, from as int) == find_ci(s@, pat@, p as int),
        decreases s@.len() - p,
    {
        if s.len() - p < pat.len() {
            assert(find_ci(s@, pat@, p as int) is None);
            return None;
        }
        if matches_ci_at(s, p, pat) {
            assert(find_ci(s@, pat@, p as int) == Some(p as int));
            return Some(p);
        }
        assert(find_ci(s@, pat@, p as int) == find_ci(s@, pat@, p + 1 as int));
        p += 1;
    }
}

/// The end of the blank run starting at `from`.
pub fn blank_run_end_x(s: &Vec<char>, from: usize) -> (r: usize)
    requires
        from <= s@.len(),
    ensures
        r as int == blank_run_end(s@, from as int),
        from <= r <= s@.len(),
{
    let mut p: usize = from;
    loop
        invariant
            from <= p <= s@.len(),
            blank_run_end(s@, from as int) == blank_run_end(s@, p as int),
        decreases s@.len() - p,
    {
        if p >= s.len() {
            return p;
        }
        if !blank_x(s[p]) {
            return p;
        }
        p += 1;
    }
}

/// The end of the numeric-token run starting at `from`.
pub fn num_run_end_x(s: &Vec<char>, from: usize) -> (r: usize)
    requires
        from <= s@.len(),
    ensures
        r as int == num_run_end(s@, from as int),
        from <= r <= s@.len(),
{
    let mut p: usize = from;
    loop
        invariant
            from <= p <= s@.len(),
            num_run_end(s@, from as int) == num_run_end(s@, p as int),
        decreases s@.len() - p,
    {
        if p >= s.len() {
            return p;
        }
        if !num_char_x(s[p]) {
            return p;
        }
        p += 1;
    }
}

} // verus!
