//! The SVG normalizer.  A raw source document is reduced to a fragment on
//! the shared canvas: the view box is read, the outer container tag is
//! stripped, color attributes are rewritten to the inherit-from-context
//! token, and the inner markup is wrapped in a uniform scale group when the
//! source's own coordinate space differs from the canvas.

use vstd::prelude::*;
use crate::chars::{
    blank_run_end, blank_run_end_x, ci_eq, find_ci, find_ci_from, matches_ci, matches_ci_at,
    num_run_end, num_run_end_x,
};
use crate::num::{
    dec_eq, dec_max, dec_max_x, dec_wf, parse_dec_spec, parse_decimal, pow10, pow10_x, scale_chars,
    scale_str_spec, Decimal, MANT_CAP,
};
use crate::strings::{chars_of, string_of};

verus! {

/// The pattern of the view box attribute's name.
pub open spec fn viewbox_pat() -> Seq<char> {
    seq!['v', 'i', 'e', 'w', 'b', 'o', 'x']
}

pub open spec fn svg_open_pat() -> Seq<char> {
    seq!['<', 's', 'v', 'g']
}

pub open spec fn svg_close_pat() -> Seq<char> {
    seq!['<', '/', 's', 'v', 'g', '>']
}

pub open spec fn quote_pat() -> Seq<char> {
    seq!['"']
}

pub open spec fn gt_pat() -> Seq<char> {
    seq!['>']
}

pub open spec fn fill_pat() -> Seq<char> {
    seq!['f', 'i', 'l', 'l']
}

pub open spec fn stroke_pat() -> Seq<char> {
    seq!['s', 't', 'r', 'o', 'k', 'e']
}

/// The attribute value that leaves the color untouched.
pub open spec fn none_pat() -> Seq<char> {
    seq!['n', 'o', 'n', 'e']
}

/// The inherit-from-context token, lower-cased for comparison.
pub open spec fn currentcolor_pat() -> Seq<char> {
    seq!['c', 'u', 'r', 'r', 'e', 'n', 't', 'c', 'o', 'l', 'o', 'r']
}

/// What replaces a rewritten color value: `="currentColor"`.
pub open spec fn inherit_value() -> Seq<char> {
    seq!['=', '"', 'c', 'u', 'r', 'r', 'e', 'n', 't', 'C', 'o', 'l', 'o', 'r', '"']
}

/// Case-insensitive equality of two character sequences.
pub open spec fn ci_seq_eq(a: Seq<char>, b: Seq<char>) -> bool {
    a.len() == b.len() && matches_ci(a, 0, b)
}

/// A color attribute at position `p`: the name, optional blanks, `=`,
/// optional blanks, then a non-empty quoted value without inner quotes.
/// Yields the position one past the closing quote, and the value's bounds.
pub open spec fn attr_match_at(s: Seq<char>, name: Seq<char>, p: int) -> Option<(int, int, int)> {
    if matches_ci(s, p, name) {
        let k1 = blank_run_end(s, p + name.len());
        if k1 < s.len() && s[k1] == '=' {
            let k2 = blank_run_end(s, k1 + 1);
            if k2 < s.len() && s[k2] == '"' {
                let vs = k2 + 2;
                match find_ci(s, quote_pat(), k2 + 1) {
                    Some(q) => if q >= vs {
                        Some((q + 1, k2 + 1, q))
                    } else {
                        None
                    },
                    None => None,
                }
            } else {
                None
            }
        } else {
            None
        }
    } else {
        None
    }
}

/// Every occurrence of the attribute rewritten: values equal to `none` or
/// to the inherit token (case-insensitively) stay, every other value is
/// replaced by the inherit token; text outside matches is copied.
pub open spec fn rewrite_attr(s: Seq<char>, name: Seq<char>, p: int) -> Seq<char>
    decreases s.len() - p,
{
    if p < 0 || p >= s.len() {
        Seq::empty()
    } else {
        match attr_match_at(s, name, p) {
            Some((end, vs, ve)) => {
                if end > p && end <= s.len() {
                    let v = s.subrange(vs, ve);
                    if ci_seq_eq(v, none_pat()) || ci_seq_eq(v, currentcolor_pat()) {
                        s.subrange(p, end) + rewrite_attr(s, name, end)
                    } else {
                        name + inherit_value() + rewrite_attr(s, name, end)
                    }
                } else {
                    seq![s[p]] + rewrite_attr(s, name, p + 1)
                }
            },
            None => seq![s[p]] + rewrite_attr(s, name, p + 1),
        }
    }
}

/// The document with the first outer `<svg ...>` opening tag removed.
pub open spec fn strip_open(s: Seq<char>) -> Seq<char> {
    match find_ci(s, svg_open_pat(), 0) {
        None => s,
        Some(i) => match find_ci(s, gt_pat(), i + 4) {
            None => s,
            Some(g) => s.subrange(0, i) + s.subrange(g + 1, s.len() as int),
        },
    }
}

/// The document with the first `</svg>` closing tag removed.
pub open spec fn strip_close(s: Seq<char>) -> Seq<char> {
    match find_ci(s, svg_close_pat(), 0) {
        None => s,
        Some(i) => s.subrange(0, i) + s.subrange(i + 6, s.len() as int),
    }
}

/// The document with its outer container tags removed.
pub open spec fn strip_svg_outer_spec(s: Seq<char>) -> Seq<char> {
    strip_close(strip_open(s))
}

/// The `0 0 W H` tail of a view box value: a zero, blanks, a zero, blanks,
/// a numeric token, blanks, a second numeric token ending exactly at `q`.
pub open spec fn vb_tail_at(s: Seq<char>, j: int, q: int) -> Option<(int, int, int, int)> {
    if 0 <= j && j < q && q <= s.len() && s[j] == '0' {
        let r1 = blank_run_end(s, j + 1);
        if r1 > j + 1 && r1 < q && s[r1] == '0' {
            let r2 = blank_run_end(s, r1 + 1);
            if r2 > r1 + 1 {
                let we = num_run_end(s, r2);
                if we > r2 {
                    let r3 = blank_run_end(s, we);
                    if r3 > we {
                        let he = num_run_end(s, r3);
                        if he > r3 && he == q {
                            Some((r2, we, r3, he))
                        } else {
                            None
                        }
                    } else {
                        None
                    }
                } else {
                    None
                }
            } else {
                None
            }
        } else {
            None
        }
    } else {
        None
    }
}

/// The earliest `0 0 W H` tail inside the value span `[j, q)`.
pub open spec fn vb_tail_search(s: Seq<char>, j: int, q: int) -> Option<(int, int, int, int)>
    decreases q - j,
{
    if j < 0 || j >= q {
        None
    } else {
        match vb_tail_at(s, j, q) {
            Some(t) => Some(t),
            None => vb_tail_search(s, j + 1, q),
        }
    }
}

/// A whole view box attribute at position `p`: its name, `=`, a quoted
/// value whose closing quote is the first quote after the opening one,
/// holding an origin-anchored `0 0 W H` tail.  Yields the two raw tokens.
pub open spec fn vb_attr_at(s: Seq<char>, p: int) -> Option<(Seq<char>, Seq<char>)> {
    if matches_ci(s, p, viewbox_pat()) {
        let k1 = blank_run_end(s, p + 7);
        if k1 < s.len() && s[k1] == '=' {
            let k2 = blank_run_end(s, k1 + 1);
            if k2 < s.len() && s[k2] == '"' {
                match find_ci(s, quote_pat(), k2 + 1) {
                    Some(q) => match vb_tail_search(s, k2 + 1, q) {
                        Some((ws, we, hs, he)) => Some(
                            (s.subrange(ws, we), s.subrange(hs, he)),
                        ),
                        None => None,
                    },
                    None => None,
                }
            } else {
                None
            }
        } else {
            None
        }
    } else {
        None
    }
}

/// The leftmost view box attribute of the document, as raw tokens.
pub open spec fn find_viewbox(s: Seq<char>, p: int) -> Option<(Seq<char>, Seq<char>)>
    decreases s.len() - p,
{
    if p < 0 || p >= s.len() {
        None
    } else {
        match vb_attr_at(s, p) {
            Some(r) => Some(r),
            None => find_viewbox(s, p + 1),
        }
    }
}

/// The declared width and height of the document's view box: the parsed
/// numeric values of the two tokens.  A token the exact reader rejects
/// makes the whole view box malformed, the same as having none at all.
pub open spec fn spec_parse_viewbox(s: Seq<char>) -> Option<(Decimal, Decimal)> {
    match find_viewbox(s, 0) {
        None => None,
        Some((wt, ht)) => match parse_dec_spec(wt) {
            None => None,
            Some(w) => match parse_dec_spec(ht) {
                None => None,
                Some(h) => Some((w, h)),
            },
        },
    }
}

/// The scale numerator and denominator: `canvas / basis` cross-multiplied
/// onto a common power-of-ten denominator.
pub open spec fn scale_num(canvas: Decimal, basis: Decimal) -> int {
    canvas.mant * pow10(basis.frac as nat)
}

pub open spec fn scale_den(canvas: Decimal, basis: Decimal) -> int {
    basis.mant * pow10(canvas.frac as nat)
}

/// No rescaling happens when the basis is numerically zero or already
/// equals the canvas exactly.
pub open spec fn scale_is_one(canvas: Decimal, basis: Decimal) -> bool {
    basis.mant == 0 || scale_num(canvas, basis) == scale_den(canvas, basis)
}

pub open spec fn g_open_pre() -> Seq<char> {
    seq![
        '<',
        'g',
        ' ',
        't',
        'r',
        'a',
        'n',
        's',
        'f',
        'o',
        'r',
        'm',
        '=',
        '"',
        's',
        'c',
        'a',
        'l',
        'e',
        '(',
    ]
}

pub open spec fn g_open_post() -> Seq<char> {
    seq![')', '"', '>']
}

pub open spec fn g_close_pat() -> Seq<char> {
    seq!['<', '/', 'g', '>']
}

/// The normalized fragment: outer tags stripped, colors rewritten, and a
/// scale wrapper added exactly when the source's own maximal dimension
/// differs from the canvas.  An absent or malformed view box counts as
/// already being at canvas size.
pub open spec fn spec_normalize_svg(s: Seq<char>, canvas: Decimal) -> Seq<char> {
    let dims = match spec_parse_viewbox(s) {
        Some(d) => d,
        None => (canvas, canvas),
    };
    let basis = dec_max(dims.0, dims.1);
    let inner = rewrite_attr(rewrite_attr(strip_svg_outer_spec(s), fill_pat(), 0), stroke_pat(), 0);
    if scale_is_one(canvas, basis) {
        inner
    } else {
        g_open_pre() + scale_str_spec(
            scale_num(canvas, basis) as nat,
            scale_den(canvas, basis) as nat,
        ) + g_open_post() + inner + g_close_pat()
    }
}

/// Appends `s[a..b]` to `out`.
fn push_range(out: &mut Vec<char>, s: &Vec<char>, a: usize, b: usize)
    requires
        a <= b <= s@.len(),
    ensures
        final(out)@ == old(out)@ + s@.subrange(a as int, b as int),
{
    let mut i: usize = a;
    assert(out@ =~= out@ + s@.subrange(a as int, a as int));
    while i < b
        invariant
            a <= i <= b <= s@.len(),
            out@ == old(out)@ + s@.subrange(a as int, i as int),
        decreases b - i,
    {
        out.push(s[i]);
        assert(out@ =~= old(out)@ + s@.subrange(a as int, i + 1 as int));
        i += 1;
    }
}

/// Appends every element of `p` to `out`.
fn push_all(out: &mut Vec<char>, p: &Vec<char>)
    ensures
        final(out)@ == old(out)@ + p@,
{
    let ghost n = p@.len();
    push_range(out, p, 0, p.len());
    assert(p@.subrange(0, n as int) =~= p@);
}

/// The color attribute match at `p`, if any.
fn attr_match_at_x(s: &Vec<char>, name: &Vec<char>, p: usize) -> (r: Option<(usize, usize, usize)>)
    requires
        p <= s@.len(),
    ensures
        match r {
            Some(t) => attr_match_at(s@, name@, p as int) == Some(
                ((t.0 as int, t.1 as int, t.2 as int)),
            ) && p < t.0 <= s@.len() && t.1 <= t.2 < t.0,
            None => attr_match_at(s@, name@, p as int) is None,
        },
{
    if !matches_ci_at(s, p, name) {
        return None;
    }
    let n = s.len();
    assert(p + name@.len() <= n);
    let k1 = blank_run_end_x(s, p + name.len());
    if !(k1 < s.len() && s[k1] == '=') {
        return None;
    }
    let k2 = blank_run_end_x(s, k1 + 1);
    if !(k2 < s.len() && s[k2] == '"') {
        return None;
    }
    let quote: Vec<char> = vec!['"'];
    assert(quote@ =~= quote_pat());
    match find_ci_from(s, &quote, k2 + 1) {
        Some(q) => {
            if q >= k2 + 2 {
                Some((q + 1, k2 + 1, q))
            } else {
                None
            }
        },
        None => None,
    }
}

/// Whether `s[a..b]` equals `pat` case-insensitively.
fn ci_range_eq(s: &Vec<char>, a: usize, b: usize, pat: &Vec<char>) -> (r: bool)
    requires
        a <= b <= s@.len(),
    ensures
        r == ci_seq_eq(s@.subrange(a as int, b as int), pat@),
{
    let ghost v = s@.subrange(a as int, b as int);
    if b - a != pat.len() {
        return false;
    }
    let mut j: usize = 0;
    while j < pat.len()
        invariant
            a <= b <= s@.len(),
            v == s@.subrange(a as int, b as int),
            b - a == pat@.len(),
            0 <= j <= pat@.len(),
            forall|k: int| 0 <= k < j ==> ci_eq(v[k], #[trigger] pat@[k]),
        decreases pat@.len() - j,
    {
        if !crate::chars::ci_eq_x(s[a + j], pat[j]) {
            assert(v[j as int] == s@[a + j]);
            return false;
        }
        assert(v[j as int] == s@[a + j]);
        j += 1;
    }
    assert(matches_ci(v, 0, pat@));
    true
}

/// One pass of color-attribute rewriting over the whole document.
fn rewrite_attr_x(s: &Vec<char>, name: &Vec<char>, none_v: &Vec<char>, cc_v: &Vec<char>) -> (r: Vec<
    char,
>)
    requires
        none_v@ == none_pat(),
        cc_v@ == currentcolor_pat(),
    ensures
        r@ == rewrite_attr(s@, name@, 0),
{
    let mut out: Vec<char> = Vec::new();
    let mut p: usize = 0;
    while p < s.len()
        invariant
            0 <= p <= s@.len(),
            none_v@ == none_pat(),
            cc_v@ == currentcolor_pat(),
            rewrite_attr(s@, name@, 0) == out@ + rewrite_attr(s@, name@, p as int),
        decreases s@.len() - p,
    {
        match attr_match_at_x(s, name, p) {
            Some((end, vs, ve)) => {
                if ci_range_eq(s, vs, ve, none_v) || ci_range_eq(s, vs, ve, cc_v) {
                    push_range(&mut out, s, p, end);
                    assert(rewrite_attr(s@, name@, p as int) == s@.subrange(p as int, end as int)
                        + rewrite_attr(s@, name@, end as int));
                } else {
                    push_all(&mut out, name);
                    let inherit: Vec<char> = vec![
                        '=',
                        '"',
                        'c',
                        'u',
                        'r',
                        'r',
                        'e',
                        'n',
                        't',
                        'C',
                        'o',
                        'l',
                        'o',
                        'r',
                        '"',
                    ];
                    assert(inherit@ =~= inherit_value());
                    push_all(&mut out, &inherit);
                    assert(rewrite_attr(s@, name@, p as int) == name@ + inherit_value()
                        + rewrite_attr(s@, name@, end as int));
                }
                p = end;
            },
            None => {
                out.push(s[p]);
                assert(rewrite_attr(s@, name@, p as int) == seq![s@[p as int]] + rewrite_attr(
                    s@,
                    name@,
                    p + 1 as int,
                ));
                p = p + 1;
            },
        }
    }
    assert(rewrite_attr(s@, name@, p as int) =~= Seq::<char>::empty());
    assert(out@ =~= out@ + rewrite_attr(s@, name@, p as int));
    out
}

/// The document with its outer container tags removed, on characters.
fn strip_svg_outer_chars(s: &Vec<char>) -> (r: Vec<char>)
    ensures
        r@ == strip_svg_outer_spec(s@),
{
    let open_pat: Vec<char> = vec!['<', 's', 'v', 'g'];
    assert(open_pat@ =~= svg_open_pat());
    let gt: Vec<char> = vec!['>'];
    assert(gt@ =~= gt_pat());
    let close_pat: Vec<char> = vec!['<', '/', 's', 'v', 'g', '>'];
    assert(close_pat@ =~= svg_close_pat());

    let mut opened: Vec<char> = Vec::new();
    match find_ci_from(s, &open_pat, 0) {
        None => {
            push_range(&mut opened, s, 0, s.len());
            assert(opened@ =~= s@);
        },
        Some(i) => {
            let n = s.len();
            assert(i + svg_open_pat().len() <= n);
            match find_ci_from(s, &gt, i + 4) {
                None => {
                    push_range(&mut opened, s, 0, s.len());
                    assert(opened@ =~= s@);
                },
                Some(g) => {
                    assert(g + gt_pat().len() <= n);
                    push_range(&mut opened, s, 0, i);
                    push_range(&mut opened, s, g + 1, s.len());
                    assert(opened@ == s@.subrange(0, i as int) + s@.subrange(
                        g + 1 as int,
                        s@.len() as int,
                    ));
                },
            }
        },
    }
    assert(opened@ == strip_open(s@));

    let mut closed: Vec<char> = Vec::new();
    match find_ci_from(&opened, &close_pat, 0) {
        None => {
            push_range(&mut closed, &opened, 0, opened.len());
            assert(closed@ =~= opened@);
        },
        Some(i) => {
            push_range(&mut closed, &opened, 0, i);
            push_range(&mut closed, &opened, i + 6, opened.len());
            assert(closed@ == opened@.subrange(0, i as int) + opened@.subrange(
                i + 6 as int,
                opened@.len() as int,
            ));
        },
    }
    assert(closed@ == strip_close(opened@));
    closed
}

/// The `0 0 W H` tail at `j` ending at `q`, if any.
fn vb_tail_at_x(s: &Vec<char>, j: usize, q: usize) -> (r: Option<(usize, usize, usize, usize)>)
    requires
        j <= q <= s@.len(),
    ensures
        match r {
            Some(t) => vb_tail_at(s@, j as int, q as int) == Some(
                ((t.0 as int, t.1 as int, t.2 as int, t.3 as int)),
            ) && j <= t.0 <= t.1 <= t.2 <= t.3 <= q && t.0 < t.1 && t.2 < t.3,
            None => vb_tail_at(s@, j as int, q as int) is None,
        },
{
    if !(j < q && s[j] == '0') {
        return None;
    }
    let r1 = blank_run_end_x(s, j + 1);
    if !(r1 > j + 1 && r1 < q && s[r1] == '0') {
        return None;
    }
    let r2 = blank_run_end_x(s, r1 + 1);
    if !(r2 > r1 + 1) {
        return None;
    }
    let we = num_run_end_x(s, r2);
    if !(we > r2) {
        return None;
    }
    let r3 = blank_run_end_x(s, we);
    if !(r3 > we) {
        return None;
    }
    let he = num_run_end_x(s, r3);
    if he > r3 && he == q {
        Some((r2, we, r3, he))
    } else {
        None
    }
}

/// The earliest tail match inside the value span.
fn vb_tail_search_x(s: &Vec<char>, j: usize, q: usize) -> (r: Option<(usize, usize, usize, usize)>)
    requires
        j <= q <= s@.len(),
    ensures
        match r {
            Some(t) => vb_tail_search(s@, j as int, q as int) == Some(
                ((t.0 as int, t.1 as int, t.2 as int, t.3 as int)),
            ) && j <= t.0 <= t.1 <= t.2 <= t.3 <= q && t.0 < t.1 && t.2 < t.3,
            None => vb_tail_search(s@, j as int, q as int) is None,
        },
{
    let mut p: usize = j;
    loop
        invariant
            j <= p <= q <= s@.len(),
            vb_tail_search(s@, j as int, q as int) == vb_tail_search(s@, p as int, q as int),
        decreases q - p,
    {
        if p >= q {
            assert(vb_tail_search(s@, p as int, q as int) is None);
            return None;
        }
        match vb_tail_at_x(s, p, q) {
            Some(t) => {
                assert(vb_tail_search(s@, p as int, q as int) == Some(
                    ((t.0 as int, t.1 as int, t.2 as int, t.3 as int)),
                ));
                return Some(t);
            },
            None => {
                assert(vb_tail_search(s@, p as int, q as int) == vb_tail_search(
                    s@,
                    p + 1 as int,
                    q as int,
                ));
                p += 1;
            },
        }
    }
}

/// The view box attribute match at `p`, as token bounds.
fn vb_attr_at_x(s: &Vec<char>, p: usize) -> (r: Option<(usize, usize, usize, usize)>)
    requires
        p <= s@.len(),
    ensures
        match r {
            Some(t) => vb_attr_at(s@, p as int) == Some(
                (s@.subrange(t.0 as int, t.1 as int), s@.subrange(t.2 as int, t.3 as int)),
            ) && t.0 <= t.1 <= t.2 <= t.3 <= s@.len(),
            None => vb_attr_at(s@, p as int) is None,
        },
{
    let vb: Vec<char> = vec!['v', 'i', 'e', 'w', 'b', 'o', 'x'];
    assert(vb@ =~= viewbox_pat());
    if !matches_ci_at(s, p, &vb) {
        return None;
    }
    let n = s.len();
    assert(p + viewbox_pat().len() <= n);
    let k1 = blank_run_end_x(s, p + 7);
    if !(k1 < s.len() && s[k1] == '=') {
        return None;
    }
    let k2 = blank_run_end_x(s, k1 + 1);
    if !(k2 < s.len() && s[k2] == '"') {
        return None;
    }
    let quote: Vec<char> = vec!['"'];
    assert(quote@ =~= quote_pat());
    match find_ci_from(s, &quote, k2 + 1) {
        Some(q) => {
            match vb_tail_search_x(s, k2 + 1, q) {
                Some(t) => Some(t),
                None => None,
            }
        },
        None => None,
    }
}

/// The raw width and height tokens of the leftmost view box attribute.
fn find_viewbox_x(s: &Vec<char>) -> (r: Option<(usize, usize, usize, usize)>)
    ensures
        match r {
            Some(t) => find_viewbox(s@, 0) == Some(
                (s@.subrange(t.0 as int, t.1 as int), s@.subrange(t.2 as int, t.3 as int)),
            ) && t.0 <= t.1 <= t.2 <= t.3 <= s@.len(),
            None => find_viewbox(s@, 0) is None,
        },
{
    let mut p: usize = 0;
    loop
        invariant
            0 <= p <= s@.len(),
            find_viewbox(s@, 0) == find_viewbox(s@, p as int),
        decreases s@.len() - p,
    {
        if p >= s.len() {
            assert(find_viewbox(s@, p as int) is None);
            return None;
        }
        match vb_attr_at_x(s, p) {
            Some(t) => {
                assert(find_viewbox(s@, p as int) == vb_attr_at(s@, p as int));
                return Some(t);
            },
            None => {
                assert(find_viewbox(s@, p as int) == find_viewbox(s@, p + 1 as int));
                p += 1;
            },
        }
    }
}

/// The declared view box dimensions of a raw document: `Some` exactly
/// when a view box in the origin-anchored `0 0 W H` form is present and
/// both tokens read as numbers; anything less is a malformed view box.
pub fn parse_viewbox(raw: &str) -> (r: Option<(Decimal, Decimal)>)
    ensures
        r == spec_parse_viewbox(raw@),
        r is Some ==> dec_wf(r->Some_0.0) && dec_wf(r->Some_0.1),
{
    let s = chars_of(raw);
    match find_viewbox_x(&s) {
        None => None,
        Some((ws, we, hs, he)) => {
            match parse_decimal(&s, ws, we) {
                None => None,
                Some(w) => match parse_decimal(&s, hs, he) {
                    None => None,
                    Some(h) => Some((w, h)),
                },
            }
        },
    }
}

/// The document with its outer container tags removed.
pub fn strip_svg_outer(raw: &str) -> (r: String)
    ensures
        r@ == strip_svg_outer_spec(raw@),
{
    let s = chars_of(raw);
    let stripped = strip_svg_outer_chars(&s);
    string_of(&stripped)
}

/// Every fill and stroke attribute whose value is not `none` and not the
/// inherit token rewritten to the inherit token.
pub fn normalize_colors_to_current(inner: &str) -> (r: String)
    ensures
        r@ == rewrite_attr(rewrite_attr(inner@, fill_pat(), 0), stroke_pat(), 0),
{
    let s = chars_of(inner);
    let rewritten = rewrite_colors_chars(&s);
    string_of(&rewritten)
}

/// Both color-attribute passes, on characters.
fn rewrite_colors_chars(s: &Vec<char>) -> (r: Vec<char>)
    ensures
        r@ == rewrite_attr(rewrite_attr(s@, fill_pat(), 0), stroke_pat(), 0),
{
    let none_v: Vec<char> = vec!['n', 'o', 'n', 'e'];
    assert(none_v@ =~= none_pat());
    let cc_v: Vec<char> = vec!['c', 'u', 'r', 'r', 'e', 'n', 't', 'c', 'o', 'l', 'o', 'r'];
    assert(cc_v@ =~= currentcolor_pat());
    let fill_v: Vec<char> = vec!['f', 'i', 'l', 'l'];
    assert(fill_v@ =~= fill_pat());
    let stroke_v: Vec<char> = vec!['s', 't', 'r', 'o', 'k', 'e'];
    assert(stroke_v@ =~= stroke_pat());
    let pass1 = rewrite_attr_x(s, &fill_v, &none_v, &cc_v);
    rewrite_attr_x(&pass1, &stroke_v, &none_v, &cc_v)
}

/// The normalized fragment of one raw document against the shared canvas.
pub fn normalize_svg(raw: &str, target_canvas: &Decimal) -> (r: String)
    requires
        dec_wf(*target_canvas),
    ensures
        r@ == spec_normalize_svg(raw@, *target_canvas),
{
    let s = chars_of(raw);
    let dims = match parse_viewbox(raw) {
        Some(d) => d,
        None => (*target_canvas, *target_canvas),
    };
    let basis = dec_max_x(&dims.0, &dims.1);

    let stripped = strip_svg_outer_chars(&s);
    let inner = rewrite_colors_chars(&stripped);

    if basis.mant == 0 {
        return string_of(&inner);
    }
    let pn = pow10_x(basis.frac);
    let pd = pow10_x(target_canvas.frac);
    proof {
        vstd::arithmetic::mul::lemma_mul_upper_bound(
            target_canvas.mant as int,
            MANT_CAP as int,
            pn as int,
            MANT_CAP as int,
        );
        vstd::arithmetic::mul::lemma_mul_upper_bound(
            basis.mant as int,
            MANT_CAP as int,
            pd as int,
            MANT_CAP as int,
        );
    }
    let p: u128 = (target_canvas.mant as u128) * (pn as u128);
    let q: u128 = (basis.mant as u128) * (pd as u128);
    if p == q {
        return string_of(&inner);
    }
    assert(q > 0) by {
        vstd::arithmetic::mul::lemma_mul_strictly_positive(basis.mant as int, pd as int);
    }
    let scale = scale_chars(p, q);
    let mut out: Vec<char> = Vec::new();
    let pre: Vec<char> = vec![
        '<',
        'g',
        ' ',
        't',
        'r',
        'a',
        'n',
        's',
        'f',
        'o',
        'r',
        'm',
        '=',
        '"',
        's',
        'c',
        'a',
        'l',
        'e',
        '(',
    ];
    assert(pre@ =~= g_open_pre());
    let post: Vec<char> = vec![')', '"', '>'];
    assert(post@ =~= g_open_post());
    let gclose: Vec<char> = vec!['<', '/', 'g', '>'];
    assert(gclose@ =~= g_close_pat());
    push_all(&mut out, &pre);
    push_all(&mut out, &scale);
    push_all(&mut out, &post);
    push_all(&mut out, &inner);
    push_all(&mut out, &gclose);
    assert(out@ =~= spec_normalize_svg(raw@, *target_canvas));
    string_of(&out)
}

/// A document whose view box already spans the canvas is not rescaled:
/// its normalized fragment is the stripped, color-rewritten inner markup
/// with no wrapper around it.
pub proof fn lemma_no_scale_at_native_size(s: Seq<char>, canvas: Decimal, w: Decimal, h: Decimal)
    requires
        spec_parse_viewbox(s) == Some((w, h)),
        dec_eq(dec_max(w, h), canvas),
    ensures
        spec_normalize_svg(s, canvas) == rewrite_attr(
            rewrite_attr(strip_svg_outer_spec(s), fill_pat(), 0),
            stroke_pat(),
            0,
        ),
{
    let basis = dec_max(w, h);
    assert(scale_num(canvas, basis) == scale_den(canvas, basis));
}

/// A document whose view box differs from the canvas is wrapped in a
/// group element carrying the exact rational scale factor.
pub proof fn lemma_scale_wrapper(s: Seq<char>, canvas: Decimal, w: Decimal, h: Decimal)
    requires
        spec_parse_viewbox(s) == Some((w, h)),
        dec_max(w, h).mant != 0,
        !dec_eq(dec_max(w, h), canvas),
    ensures
        spec_normalize_svg(s, canvas) == g_open_pre() + scale_str_spec(
            scale_num(canvas, dec_max(w, h)) as nat,
            scale_den(canvas, dec_max(w, h)) as nat,
        ) + g_open_post() + rewrite_attr(
            rewrite_attr(strip_svg_outer_spec(s), fill_pat(), 0),
            stroke_pat(),
            0,
        ) + g_close_pat(),
{
    let basis = dec_max(w, h);
    assert(scale_num(canvas, basis) != scale_den(canvas, basis));
}

/// An absent or malformed view box is non-fatal: the document counts as
/// already being at canvas size, so normalization applies no scale
/// wrapper, whatever the canvas.
pub proof fn lemma_degenerate_viewbox_no_wrapper(s: Seq<char>, canvas: Decimal)
    requires
        spec_parse_viewbox(s) is None,
    ensures
        spec_normalize_svg(s, canvas) == rewrite_attr(
            rewrite_attr(strip_svg_outer_spec(s), fill_pat(), 0),
            stroke_pat(),
            0,
        ),
{
    assert(scale_is_one(canvas, dec_max(canvas, canvas)));
}

/// Normalizing an empty document yields an empty fragment, whatever the
/// canvas: a missing source file degrades to an empty slot, never an error.
pub proof fn lemma_normalize_empty(canvas: Decimal)
    ensures
        spec_normalize_svg(Seq::<char>::empty(), canvas) == Seq::<char>::empty(),
{
    let e = Seq::<char>::empty();
    assert(find_viewbox(e, 0) is None);
    assert(find_ci(e, svg_open_pat(), 0) is None);
    assert(strip_open(e) == e);
    assert(find_ci(e, svg_close_pat(), 0) is None);
    assert(strip_close(e) == e);
    assert(rewrite_attr(e, fill_pat(), 0) =~= e);
    assert(rewrite_attr(e, stroke_pat(), 0) =~= e);
    assert(scale_is_one(canvas, dec_max(canvas, canvas)));
}

} // verus!
