//! Exact decimal scalars.  View box dimensions and the shared canvas are
//! decimal numerals in the source text; they are held exactly as a mantissa
//! and a power-of-ten denominator, compared by cross multiplication, and the
//! rescaling factor is rendered as an exact or truncated decimal string.

use vstd::prelude::*;
use crate::chars::is_digit;

verus! {

/// One decimal digit's worth of headroom below this cap keeps every
/// mantissa strictly under fifteen digits.
pub const MANT_CAP: u64 = 1_000_000_000_000_000;

/// A non-negative decimal scalar: `mant / 10^frac`.
#[derive(Debug, Clone, Copy, PartialEq, Eq, Structural)]
pub struct Decimal {
    pub mant: u64,
    pub frac: u32,
}

/// Well-formed scalars keep the mantissa under fifteen digits so that
/// cross multiplication stays far from overflow.
pub open spec fn dec_wf(d: Decimal) -> bool {
    d.mant < MANT_CAP && d.frac <= 15
}

pub open spec fn pow10(e: nat) -> nat
    decreases e,
{
    if e == 0 {
        1
    } else {
        10 * pow10((e - 1) as nat)
    }
}

pub proof fn lemma_pow10_15()
    ensures
        pow10(15) == MANT_CAP as nat,
{
    reveal_with_fuel(pow10, 17);
}

pub proof fn lemma_pow10_bound(e: nat)
    requires
        e <= 15,
    ensures
        0 < pow10(e) <= MANT_CAP,
    decreases e,
{
    lemma_pow10_15();
    lemma_pow10_mono(e, 15);
}

pub proof fn lemma_pow10_mono(a: nat, b: nat)
    requires
        a <= b,
    ensures
        pow10(a) <= pow10(b),
        0 < pow10(a),
    decreases b,
{
    if a == b {
        lemma_pow10_pos(a);
    } else {
        lemma_pow10_mono(a, (b - 1) as nat);
    }
}

pub proof fn lemma_pow10_pos(e: nat)
    ensures
        0 < pow10(e),
    decreases e,
{
    if e > 0 {
        lemma_pow10_pos((e - 1) as nat);
    }
}

/// `10^e` as a machine integer.
pub fn pow10_x(e: u32) -> (r: u64)
    requires
        e <= 15,
    ensures
        r as nat == pow10(e as nat),
        0 < r <= MANT_CAP,
{
    proof {
        lemma_pow10_bound(e as nat);
    }
    let mut r: u64 = 1;
    let mut i: u32 = 0;
    while i < e
        invariant
            0 <= i <= e <= 15,
            r as nat == pow10(i as nat),
            0 < r,
        decreases e - i,
    {
        proof {
            lemma_pow10_bound(i as nat);
            lemma_pow10_bound((i + 1) as nat);
        }
        r = r * 10;
        i += 1;
    }
    r
}

/// `a <= b` as rationals, by cross multiplication.
pub open spec fn dec_le(a: Decimal, b: Decimal) -> bool {
    a.mant * pow10(b.frac as nat) <= b.mant * pow10(a.frac as nat)
}

/// `a == b` as rationals, by cross multiplication.
pub open spec fn dec_eq(a: Decimal, b: Decimal) -> bool {
    a.mant * pow10(b.frac as nat) == b.mant * pow10(a.frac as nat)
}

/// The larger of the two scalars.
pub open spec fn dec_max(a: Decimal, b: Decimal) -> Decimal {
    if dec_le(a, b) {
        b
    } else {
        a
    }
}

/// Whether `a <= b` holds as exact rationals.
pub fn dec_le_x(a: &Decimal, b: &Decimal) -> (r: bool)
    requires
        dec_wf(*a),
        dec_wf(*b),
    ensures
        r == dec_le(*a, *b),
{
    let pa = pow10_x(b.frac);
    let pb = pow10_x(a.frac);
    proof {
        vstd::arithmetic::mul::lemma_mul_upper_bound(
            a.mant as int,
            MANT_CAP as int,
            pa as int,
            MANT_CAP as int,
        );
        vstd::arithmetic::mul::lemma_mul_upper_bound(
            b.mant as int,
            MANT_CAP as int,
            pb as int,
            MANT_CAP as int,
        );
    }
    (a.mant as u128) * (pa as u128) <= (b.mant as u128) * (pb as u128)
}

/// The larger of two scalars.
pub fn dec_max_x(a: &Decimal, b: &Decimal) -> (r: Decimal)
    requires
        dec_wf(*a),
        dec_wf(*b),
    ensures
        r == dec_max(*a, *b),
        dec_wf(r),
{
    if dec_le_x(a, b) {
        *b
    } else {
        *a
    }
}

/// The numeric value of a digit character.
pub open spec fn digit_val(c: char) -> int {
    c as u32 - '0' as u32
}

/// How many digit characters a numeral holds.
pub open spec fn digit_count(s: Seq<char>) -> nat
    decreases s.len(),
{
    if s.len() == 0 {
        0
    } else {
        digit_count(s.drop_last()) + if is_digit(s.last()) {
            1 as nat
        } else {
            0 as nat
        }
    }
}

/// How many dot characters a numeral holds.
pub open spec fn dot_count(s: Seq<char>) -> nat
    decreases s.len(),
{
    if s.len() == 0 {
        0
    } else {
        dot_count(s.drop_last()) + if s.last() == '.' {
            1 as nat
        } else {
            0 as nat
        }
    }
}

/// The digits of the numeral read as one integer, the dot ignored.
pub open spec fn mant_val(s: Seq<char>) -> int
    decreases s.len(),
{
    if s.len() == 0 {
        0
    } else if is_digit(s.last()) {
        mant_val(s.drop_last()) * 10 + digit_val(s.last())
    } else {
        mant_val(s.drop_last())
    }
}

/// How many digits stand after the first dot.
pub open spec fn frac_count(s: Seq<char>) -> nat
    decreases s.len(),
{
    if s.len() == 0 {
        0
    } else {
        frac_count(s.drop_last()) + if is_digit(s.last()) && dot_count(s.drop_last()) >= 1 {
            1 as nat
        } else {
            0 as nat
        }
    }
}

/// A numeral of digits and at most one dot, with one to fifteen digits,
/// read exactly; anything else is malformed.
pub open spec fn parse_dec_spec(s: Seq<char>) -> Option<Decimal> {
    if dot_count(s) <= 1 && 1 <= digit_count(s) && digit_count(s) <= 15 {
        Some(Decimal { mant: mant_val(s) as u64, frac: frac_count(s) as u32 })
    } else {
        None
    }
}

/// The mantissa of a numeral stays under one digit per digit character.
pub proof fn lemma_mant_val_bound(s: Seq<char>)
    ensures
        0 <= mant_val(s) < pow10(digit_count(s)),
    decreases s.len(),
{
    if s.len() == 0 {
        assert(pow10(0) == 1);
    } else {
        lemma_mant_val_bound(s.drop_last());
        if is_digit(s.last()) {
            assert(digit_count(s) == digit_count(s.drop_last()) + 1);
            assert(pow10(digit_count(s)) == 10 * pow10(digit_count(s.drop_last())));
            assert(0 <= digit_val(s.last()) <= 9);
        }
    }
}

/// Fraction digits never outnumber digits.
pub proof fn lemma_frac_le_digits(s: Seq<char>)
    ensures
        frac_count(s) <= digit_count(s),
    decreases s.len(),
{
    if s.len() > 0 {
        lemma_frac_le_digits(s.drop_last());
    }
}

/// A numeral, read exactly as a decimal scalar.
pub fn parse_decimal(s: &Vec<char>, from: usize, to: usize) -> (r: Option<Decimal>)
    requires
        from <= to <= s@.len(),
    ensures
        r == parse_dec_spec(s@.subrange(from as int, to as int)),
        r is Some ==> dec_wf(r->Some_0),
{
    let ghost whole = s@.subrange(from as int, to as int);
    let mut mant: u64 = 0;
    let mut digits: usize = 0;
    let mut dots: usize = 0;
    let mut frac: u32 = 0;
    let mut i: usize = from;
    proof {
        assert(whole.subrange(0, 0) =~= Seq::<char>::empty());
    }
    while i < to
        invariant
            from <= i <= to <= s@.len(),
            whole == s@.subrange(from as int, to as int),
            digits == digit_count(whole.subrange(0, i - from)),
            dots == dot_count(whole.subrange(0, i - from)),
            digits <= i - from,
            dots <= i - from,
            mant < MANT_CAP,
            frac as int <= digits as int,
            frac <= 15,
            (digit_count(whole.subrange(0, i - from)) <= 15 && dot_count(
                whole.subrange(0, i - from),
            ) <= 1) ==> (mant == mant_val(whole.subrange(0, i - from)) && frac == frac_count(
                whole.subrange(0, i - from),
            )),
        decreases to - i,
    {
        let ghost pre = whole.subrange(0, i - from);
        let ghost post = whole.subrange(0, i + 1 - from);
        proof {
            assert(post.drop_last() =~= pre);
            assert(post.last() == s@[i as int]);
        }
        let c = s[i];
        if crate::chars::digit_x(c) {
            if digits < 15 && dots <= 1 {
                let d = (c as u32 - '0' as u32) as u64;
                proof {
                    if digits as nat == digit_count(pre) && digit_count(pre) <= 15 && dot_count(
                        pre,
                    ) <= 1 {
                        lemma_mant_val_bound(pre);
                        lemma_pow10_mono(digit_count(pre), 14);
                        assert(10 * pow10(14) == pow10(15));
                        lemma_pow10_15();
                    }
                }
                if mant <= (MANT_CAP - 1) / 10 {
                    mant = mant * 10 + d;
                } else {
                    mant = 0;
                }
                if dots >= 1 {
                    frac += 1;
                }
            }
            digits += 1;
        } else if c == '.' {
            dots += 1;
        }
        i += 1;
    }
    proof {
        assert(whole.subrange(0, to - from) =~= whole);
    }
    if dots <= 1 && 1 <= digits && digits <= 15 {
        proof {
            lemma_mant_val_bound(whole);
            lemma_frac_le_digits(whole);
        }
        Some(Decimal { mant, frac })
    } else {
        None
    }
}

/// The character for one digit value.
pub open spec fn digit_char(d: int) -> char {
    if d == 0 {
        '0'
    } else if d == 1 {
        '1'
    } else if d == 2 {
        '2'
    } else if d == 3 {
        '3'
    } else if d == 4 {
        '4'
    } else if d == 5 {
        '5'
    } else if d == 6 {
        '6'
    } else if d == 7 {
        '7'
    } else if d == 8 {
        '8'
    } else {
        '9'
    }
}

fn digit_char_x(d: u128) -> (r: char)
    requires
        d <= 9,
    ensures
        r == digit_char(d as int),
{
    if d == 0 {
        '0'
    } else if d == 1 {
        '1'
    } else if d == 2 {
        '2'
    } else if d == 3 {
        '3'
    } else if d == 4 {
        '4'
    } else if d == 5 {
        '5'
    } else if d == 6 {
        '6'
    } else if d == 7 {
        '7'
    } else if d == 8 {
        '8'
    } else {
        '9'
    }
}

/// The decimal digits of `n`, most significant first.
pub open spec fn digits_of(n: nat) -> Seq<char>
    decreases n,
{
    if n < 10 {
        seq![digit_char(n as int)]
    } else {
        digits_of(n / 10).push(digit_char((n % 10) as int))
    }
}

/// Appends the decimal digits of `n`.
pub fn push_digits(out: &mut Vec<char>, n: u128)
    ensures
        final(out)@ == old(out)@ + digits_of(n as nat),
    decreases n,
{
    if n < 10 {
        out.push(digit_char_x(n));
        assert(out@ =~= old(out)@ + digits_of(n as nat));
    } else {
        push_digits(out, n / 10);
        out.push(digit_char_x(n % 10));
        assert(out@ =~= old(out)@ + digits_of(n as nat));
    }
}

/// Up to `k` fraction digits of `r / q` by long division, stopping when
/// the remainder runs out, so the digits never end in zero.
pub open spec fn frac_digits_spec(r: nat, q: nat, k: nat) -> Seq<char>
    decreases k,
{
    if k == 0 || r == 0 || q == 0 {
        Seq::empty()
    } else {
        seq![digit_char(((r * 10) / q) as int)] + frac_digits_spec((r * 10) % q, q, (k - 1) as nat)
    }
}

/// The largest denominator a scale fraction can carry: both sides of the
/// fraction are products of two well-formed scalars' components.
pub const FRAC_CAP_HI: u128 = 1_000_000_000_000_000_000_000_000_000_000;

/// Appends up to `k` fraction digits of `r / q`.
fn push_frac_digits(out: &mut Vec<char>, r: u128, q: u128, k: u32)
    requires
        0 < q <= FRAC_CAP_HI,
        r < q,
    ensures
        final(out)@ == old(out)@ + frac_digits_spec(r as nat, q as nat, k as nat),
    decreases k,
{
    if k == 0 || r == 0 {
        assert(out@ =~= old(out)@ + frac_digits_spec(r as nat, q as nat, k as nat));
    } else {
        proof {
            assert((r as int * 10) / (q as int) < 10 && (r as int * 10) % (q as int) < q as int)
                by (nonlinear_arith)
                requires
                    0 < q as int,
                    (r as int) < (q as int),
            ;
        }
        let d = (r * 10) / q;
        out.push(digit_char_x(d));
        push_frac_digits(out, (r * 10) % q, q, k - 1);
        assert(out@ =~= old(out)@ + frac_digits_spec(r as nat, q as nat, k as nat));
    }
}

/// The decimal rendering of the fraction `p / q`: the integer part, then,
/// if the remainder is not zero, a dot and up to seven fraction digits.
pub open spec fn scale_str_spec(p: nat, q: nat) -> Seq<char> {
    digits_of(p / q) + if p % q == 0 {
        Seq::<char>::empty()
    } else {
        seq!['.'] + frac_digits_spec(p % q, q, 7)
    }
}

/// Renders `p / q` as a decimal numeral string.
pub fn scale_chars(p: u128, q: u128) -> (r: Vec<char>)
    requires
        0 < q <= FRAC_CAP_HI,
    ensures
        r@ == scale_str_spec(p as nat, q as nat),
{
    let mut out: Vec<char> = Vec::new();
    push_digits(&mut out, p / q);
    let rem = p % q;
    if rem != 0 {
        out.push('.');
        proof {
            assert((p as int) % (q as int) < q as int) by (nonlinear_arith)
                requires
                    0 < q as int,
            ;
        }
        push_frac_digits(&mut out, rem, q, 7);
    }
    assert(out@ =~= scale_str_spec(p as nat, q as nat));
    out
}

/// The scalar truncated to a whole number.
pub open spec fn dec_floor(d: Decimal) -> int {
    (d.mant as int) / (pow10(d.frac as nat) as int)
}

/// The scalar truncated to a whole number.
pub fn dec_floor_x(d: &Decimal) -> (r: u64)
    requires
        dec_wf(*d),
    ensures
        r as int == dec_floor(*d),
{
    let p = pow10_x(d.frac);
    d.mant / p
}

} // verus!
