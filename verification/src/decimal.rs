//! Exact decimal numbers.
//!
//! A `Dec` holds a value `mant / 10^scale`, negated when `neg` is set.  All
//! dimension strings of the document (`width`, `height`, the spacing options)
//! are parsed into this form, so every later computation is exact integer
//! arithmetic; no rounding enters the pipeline.

use vstd::prelude::*;
use vstd::string::StrSliceExecFns;

verus! {

/// Largest number of digits a parsed numeral may carry.  Twelve digits keep
/// every product that the pipeline later forms inside `u128`.
pub const MAX_DIGITS: u32 = 12;

/// An exact decimal number: `(-1)^neg * mant / 10^scale`.
#[derive(Clone, Copy, Debug, PartialEq, Eq, Structural)]
pub struct Dec {
    pub neg: bool,
    pub mant: u64,
    pub scale: u32,
}

pub open spec fn pow10(e: nat) -> nat
    decreases e,
{
    if e == 0 {
        1
    } else {
        10 * pow10((e - 1) as nat)
    }
}

/// Well-formed decimals: the mantissa stays under `10^13` (one factor of ten
/// above the parser's bound, to leave room for the centimetre conversion) and
/// the scale under thirteen.
pub open spec fn dec_wf(d: Dec) -> bool {
    d.mant < pow10(13) && d.scale <= 13
}

/// The numerator of the value of `d`.
pub open spec fn dec_num(d: Dec) -> int {
    if d.neg {
        -(d.mant as int)
    } else {
        d.mant as int
    }
}

/// The denominator of the value of `d`.
pub open spec fn dec_den(d: Dec) -> int {
    pow10(d.scale as nat) as int
}

pub open spec fn is_digit_char(c: char) -> bool {
    48 <= c as int && c as int <= 57
}

pub open spec fn digit_val(c: char) -> int {
    c as int - 48
}

pub open spec fn digit_or_dot(c: char) -> bool {
    is_digit_char(c) || c == '.'
}

pub open spec fn all_digit_or_dot(s: Seq<char>) -> bool
    decreases s.len(),
{
    if s.len() == 0 {
        true
    } else {
        all_digit_or_dot(s.drop_last()) && digit_or_dot(s.last())
    }
}

/// How many decimal points `s` holds.
pub open spec fn ndots(s: Seq<char>) -> int
    decreases s.len(),
{
    if s.len() == 0 {
        0
    } else {
        ndots(s.drop_last()) + if s.last() == '.' {
            1int
        } else {
            0int
        }
    }
}

/// How many digits `s` holds.
pub open spec fn ndigits(s: Seq<char>) -> int
    decreases s.len(),
{
    if s.len() == 0 {
        0
    } else {
        ndigits(s.drop_last()) + if is_digit_char(s.last()) {
            1int
        } else {
            0int
        }
    }
}

/// The integer written by the digits of `s`, the decimal point ignored.
pub open spec fn mant_of(s: Seq<char>) -> int
    decreases s.len(),
{
    if s.len() == 0 {
        0
    } else if s.last() == '.' {
        mant_of(s.drop_last())
    } else {
        10 * mant_of(s.drop_last()) + digit_val(s.last())
    }
}

/// How many digits of `s` stand after its decimal point.
pub open spec fn scale_of(s: Seq<char>) -> int
    decreases s.len(),
{
    if s.len() == 0 {
        0
    } else if s.last() == '.' {
        0
    } else if ndots(s) > 0 {
        1 + scale_of(s.drop_last())
    } else {
        0
    }
}

/// An unsigned decimal numeral: digits with at most one decimal point among
/// them, and at least one digit.
pub open spec fn is_dec_body(s: Seq<char>) -> bool {
    all_digit_or_dot(s) && ndots(s) <= 1 && ndigits(s) >= 1
}

/// The numeral with a leading sign, if any, stripped.
pub open spec fn lit_body(s: Seq<char>) -> Seq<char> {
    if s.len() > 0 && (s[0] == '+' || s[0] == '-') {
        s.skip(1)
    } else {
        s
    }
}

pub open spec fn lit_neg(s: Seq<char>) -> bool {
    s.len() > 0 && s[0] == '-'
}

/// A decimal literal: an optional sign followed by an unsigned numeral.
pub open spec fn is_dec_lit(s: Seq<char>) -> bool {
    is_dec_body(lit_body(s))
}

/// Whether the numeral is small enough for this parser.
pub open spec fn dec_fits(s: Seq<char>) -> bool {
    ndigits(lit_body(s)) <= MAX_DIGITS
}

pub proof fn lemma_pow10_values()
    ensures
        pow10(12) == 1_000_000_000_000,
        pow10(13) == 10_000_000_000_000,
        pow10(30) == 1_000_000_000_000_000_000_000_000_000_000,
{
    reveal_with_fuel(pow10, 31);
}

pub proof fn lemma_pow10_le(a: nat, b: nat)
    requires
        a <= b,
    ensures
        pow10(a) <= pow10(b),
        pow10(a) >= 1,
    decreases b,
{
    if b > 0 {
        if a == b {
            lemma_pow10_le((a - 1) as nat, (b - 1) as nat);
        } else {
            lemma_pow10_le(a, (b - 1) as nat);
        }
    }
}

/// Every character of a string of digits and dots is a digit or a dot.
proof fn lemma_all_digit_or_dot_at(s: Seq<char>, k: int)
    requires
        all_digit_or_dot(s),
        0 <= k < s.len(),
    ensures
        digit_or_dot(s[k]),
    decreases s.len(),
{
    if k < s.len() - 1 {
        lemma_all_digit_or_dot_at(s.drop_last(), k);
    }
}

/// Dots are not lost by taking a prefix.
proof fn lemma_ndots_take(s: Seq<char>, k: int)
    requires
        0 <= k <= s.len(),
    ensures
        ndots(s.take(k)) <= ndots(s),
        ndots(s) >= 0,
    decreases s.len(),
{
    if s.len() == 0 {
        assert(s.take(k) =~= s);
    } else if k == s.len() {
        assert(s.take(k) =~= s);
        lemma_ndots_take(s.drop_last(), s.len() - 1);
    } else {
        assert(s.take(k) =~= s.drop_last().take(k));
        lemma_ndots_take(s.drop_last(), k);
    }
}

/// Digits are not lost by taking a prefix.
proof fn lemma_ndigits_take(s: Seq<char>, k: int)
    requires
        0 <= k <= s.len(),
    ensures
        ndigits(s.take(k)) <= ndigits(s),
        ndigits(s) >= 0,
    decreases s.len(),
{
    if s.len() == 0 {
        assert(s.take(k) =~= s);
    } else if k == s.len() {
        assert(s.take(k) =~= s);
        lemma_ndigits_take(s.drop_last(), s.len() - 1);
    } else {
        assert(s.take(k) =~= s.drop_last().take(k));
        lemma_ndigits_take(s.drop_last(), k);
    }
}

fn is_digit_exec(c: char) -> (b: bool)
    ensures
        b == is_digit_char(c),
{
    let u = c as u32;
    48 <= u && u <= 57
}

/// Parses a decimal literal: an optional `+` or `-` sign, then digits with at
/// most one `.` among them and at least one digit.  Returns `None` when the
/// string is not of that shape, or when it spells more than `MAX_DIGITS`
/// digits.
pub fn parse_decimal(s: &str) -> (r: Option<Dec>)
    ensures
        r is Some <==> is_dec_lit(s@) && dec_fits(s@),
        r is Some ==> {
            let d = r.unwrap();
            &&& d.neg == lit_neg(s@)
            &&& d.mant as int == mant_of(lit_body(s@))
            &&& d.scale as int == scale_of(lit_body(s@))
            &&& d.mant < pow10(12)
            &&& d.scale <= 12
        },
{
    proof {
        lemma_pow10_values();
    }
    let n = s.unicode_len();
    let mut i: usize = 0;
    let mut neg = false;
    if n > 0 {
        let c0 = s.get_char(0);
        if c0 == '+' {
            i = 1;
        } else if c0 == '-' {
            neg = true;
            i = 1;
        }
    }
    let start = i;
    let ghost body = lit_body(s@);
    proof {
        assert(s@.skip(start as int) =~= body);
    }
    let mut mant: u64 = 0;
    let mut scale: u32 = 0;
    let mut digits: u32 = 0;
    let mut seen_dot = false;
    proof {
        assert(s@.subrange(start as int, start as int) =~= Seq::<char>::empty());
    }
    while i < n
        invariant
            start <= i <= n,
            n == s@.len(),
            body == s@.skip(start as int),
            body == lit_body(s@),
            start <= 1,
            all_digit_or_dot(s@.subrange(start as int, i as int)),
            ndots(s@.subrange(start as int, i as int)) == if seen_dot {
                1int
            } else {
                0int
            },
            ndigits(s@.subrange(start as int, i as int)) == digits as int,
            digits <= MAX_DIGITS,
            mant as int == mant_of(s@.subrange(start as int, i as int)),
            mant < pow10(digits as nat),
            pow10(MAX_DIGITS as nat) == 1_000_000_000_000,
            scale as int == scale_of(s@.subrange(start as int, i as int)),
            scale <= digits,
        decreases n - i,
    {
        let ghost pref = s@.subrange(start as int, i as int);
        let ghost pref1 = s@.subrange(start as int, i + 1);
        proof {
            assert(pref1.drop_last() =~= pref);
            assert(pref1.last() == s@[i as int]);
        }
        let c = s.get_char(i);
        if c == '.' {
            if seen_dot {
                proof {
                    assert(ndots(pref1) == 2);
                    assert(pref1 =~= body.take(i + 1 - start));
                    lemma_ndots_take(body, i + 1 - start);
                }
                return None;
            }
            seen_dot = true;
        } else if is_digit_exec(c) {
            if digits == MAX_DIGITS {
                proof {
                    assert(ndigits(pref1) == MAX_DIGITS + 1);
                    assert(pref1 =~= body.take(i + 1 - start));
                    lemma_ndigits_take(body, i + 1 - start);
                }
                return None;
            }
            let d = (c as u32 - 48) as u64;
            proof {
                lemma_pow10_le(digits as nat, MAX_DIGITS as nat);
                assert(pow10((digits + 1) as nat) == 10 * pow10(digits as nat));
            }
            mant = mant * 10 + d;
            digits = digits + 1;
            if seen_dot {
                scale = scale + 1;
            }
        } else {
            proof {
                if is_dec_lit(s@) {
                    assert(body[i - start] == s@[i as int]);
                    lemma_all_digit_or_dot_at(body, i - start);
                }
            }
            return None;
        }
        i = i + 1;
    }
    proof {
        assert(s@.subrange(start as int, i as int) =~= body);
    }
    if digits == 0 {
        return None;
    }
    proof {
        lemma_pow10_le(digits as nat, MAX_DIGITS as nat);
        lemma_pow10_le(MAX_DIGITS as nat, 13);
    }
    Some(Dec { neg, mant, scale })
}

/// Multiplies a parsed decimal by ten, exactly; this is the centimetre to
/// millimetre conversion.  The result relates to the argument by
/// `value(r) == 10 * value(d)`, stated by cross-multiplication.
pub fn dec_times_10(d: Dec) -> (r: Dec)
    requires
        d.mant < pow10(12),
        d.scale <= 12,
    ensures
        dec_wf(r),
        r.neg == d.neg,
        dec_num(r) * dec_den(d) == 10 * dec_num(d) * dec_den(r),
        d.scale > 0 ==> r.mant == d.mant && r.scale == d.scale - 1,
        d.scale == 0 ==> r.mant == 10 * d.mant && r.scale == 0,
{
    proof {
        lemma_pow10_values();
    }
    if d.scale > 0 {
        let r = Dec { neg: d.neg, mant: d.mant, scale: d.scale - 1 };
        proof {
            lemma_pow10_le(d.scale as nat, 13);
            assert(pow10(d.scale as nat) == 10 * pow10((d.scale - 1) as nat));
            let n = dec_num(d);
            let p = pow10((d.scale - 1) as nat) as int;
            assert(n * (10 * p) == 10 * n * p) by (nonlinear_arith);
        }
        r
    } else {
        let r = Dec { neg: d.neg, mant: d.mant * 10, scale: 0 };
        r
    }
}

} // verus!
