//! The `viewBox` parser.
//!
//! The attribute is trimmed of surrounding whitespace and split on single
//! spaces; the four resulting tokens are the integers min-x, min-y, width and
//! height of the view box.  A token that is not an integer in `i32` range is
//! an error, as is any count of tokens other than four.

use vstd::prelude::*;
use vstd::string::StrSliceExecFns;
use crate::decimal::{is_digit_char, digit_val, lit_body, lit_neg, mant_of};

verus! {

/// The view box of the document: origin and extent, in user units.
#[derive(Clone, Copy, Debug, PartialEq, Eq, Structural)]
pub struct ViewBox {
    pub min_x: i32,
    pub min_y: i32,
    pub width: i32,
    pub height: i32,
}

/// Why a `viewBox` attribute was rejected.
#[derive(Clone, Copy, Debug, PartialEq, Eq, Structural)]
pub enum ViewBoxError {
    /// A token is not an integer in `i32` range.
    BadInt,
    /// The attribute does not hold exactly four tokens.
    WrongCount,
}

/// The whitespace characters an XML document may carry around a value.
pub open spec fn is_space(c: char) -> bool {
    c == ' ' || c == '\t' || c == '\n' || c == '\r'
}

pub open spec fn trim_front(s: Seq<char>) -> Seq<char>
    decreases s.len(),
{
    if s.len() > 0 && is_space(s[0]) {
        trim_front(s.skip(1))
    } else {
        s
    }
}

pub open spec fn trim_back(s: Seq<char>) -> Seq<char>
    decreases s.len(),
{
    if s.len() > 0 && is_space(s.last()) {
        trim_back(s.drop_last())
    } else {
        s
    }
}

pub open spec fn trimmed(s: Seq<char>) -> Seq<char> {
    trim_back(trim_front(s))
}

/// The segments of `s` between single space characters; an empty `s` yields
/// one empty token, and adjacent spaces yield empty tokens, as splitting on
/// every single occurrence of the separator does.
pub open spec fn split_sp(s: Seq<char>) -> Seq<Seq<char>>
    decreases s.len(),
{
    if s.len() == 0 {
        seq![Seq::empty()]
    } else {
        let rest = split_sp(s.drop_last());
        if s.last() == ' ' {
            rest.push(Seq::empty())
        } else {
            rest.update(rest.len() - 1, rest.last().push(s.last()))
        }
    }
}

/// The tokens of a `viewBox` attribute.
pub open spec fn vb_tokens(s: Seq<char>) -> Seq<Seq<char>> {
    split_sp(trimmed(s))
}

pub open spec fn all_digits(s: Seq<char>) -> bool
    decreases s.len(),
{
    if s.len() == 0 {
        true
    } else {
        all_digits(s.drop_last()) && is_digit_char(s.last())
    }
}

/// An integer literal: an optional sign followed by at least one digit.
pub open spec fn is_int_lit(t: Seq<char>) -> bool {
    lit_body(t).len() >= 1 && all_digits(lit_body(t))
}

/// The value an integer literal spells.
pub open spec fn int_val(t: Seq<char>) -> int {
    if lit_neg(t) {
        -mant_of(lit_body(t))
    } else {
        mant_of(lit_body(t))
    }
}

/// An acceptable token: an integer literal whose value fits in `i32`.
pub open spec fn i32_ok(t: Seq<char>) -> bool {
    is_int_lit(t) && -0x8000_0000 <= int_val(t) <= 0x7fff_ffff
}

proof fn lemma_trim_front_idx(s: Seq<char>, a: int)
    requires
        0 <= a <= s.len(),
        forall|k: int| 0 <= k < a ==> is_space(s[k]),
        a < s.len() ==> !is_space(s[a]),
    ensures
        trim_front(s) == s.skip(a),
    decreases a,
{
    if a == 0 {
        assert(trim_front(s) =~= s.skip(0));
    } else {
        assert(is_space(s[0]));
        let t = s.skip(1);
        assert forall|k: int| 0 <= k < a - 1 implies is_space(t[k]) by {
            assert(t[k] == s[k + 1]);
        }
        if a - 1 < t.len() {
            assert(t[a - 1] == s[a]);
        }
        lemma_trim_front_idx(t, a - 1);
        assert(t.skip(a - 1) =~= s.skip(a));
    }
}

proof fn lemma_trim_back_idx(s: Seq<char>, b: int)
    requires
        0 <= b <= s.len(),
        forall|k: int| b <= k < s.len() ==> is_space(s[k]),
        b > 0 ==> !is_space(s[b - 1]),
    ensures
        trim_back(s) == s.take(b),
    decreases s.len() - b,
{
    if b == s.len() {
        if s.len() == 0 {
            assert(trim_back(s) =~= s.take(b));
        } else {
            assert(!is_space(s.last()));
            assert(trim_back(s) =~= s.take(b));
        }
    } else {
        assert(is_space(s[s.len() - 1]));
        let t = s.drop_last();
        assert forall|k: int| b <= k < t.len() implies is_space(t[k]) by {
            assert(t[k] == s[k]);
        }
        lemma_trim_back_idx(t, b);
        assert(t.take(b) =~= s.take(b));
    }
}

proof fn lemma_all_digits_at(s: Seq<char>, k: int)
    requires
        all_digits(s),
        0 <= k < s.len(),
    ensures
        is_digit_char(s[k]),
    decreases s.len(),
{
    if k < s.len() - 1 {
        lemma_all_digits_at(s.drop_last(), k);
    }
}

fn is_space_exec(c: char) -> (b: bool)
    ensures
        b == is_space(c),
{
    c == ' ' || c == '\t' || c == '\n' || c == '\r'
}

fn is_digit_exec(c: char) -> (b: bool)
    ensures
        b == is_digit_char(c),
{
    let u = c as u32;
    48 <= u && u <= 57
}

/// Parses one token as an `i32`: an optional sign, then digits only, and a
/// value inside `i32` range; anything else yields `None`.
pub fn parse_i32(t: &str) -> (r: Option<i32>)
    ensures
        r is Some <==> i32_ok(t@),
        r is Some ==> r.unwrap() as int == int_val(t@),
{
    let n = t.unicode_len();
    let mut i: usize = 0;
    let mut neg = false;
    if n > 0 {
        let c0 = t.get_char(0);
        if c0 == '+' {
            i = 1;
        } else if c0 == '-' {
            neg = true;
            i = 1;
        }
    }
    let start = i;
    let ghost body = lit_body(t@);
    proof {
        assert(t@.skip(start as int) =~= body);
    }
    let mut acc: u64 = 0;
    let mut ovf = false;
    while i < n
        invariant
            start <= i <= n,
            n == t@.len(),
            body == t@.skip(start as int),
            body == lit_body(t@),
            start <= 1,
            all_digits(t@.subrange(start as int, i as int)),
            !ovf ==> acc as int == mant_of(t@.subrange(start as int, i as int)) && acc
                <= 0x8000_0000,
            ovf ==> mant_of(t@.subrange(start as int, i as int)) > 0x8000_0000,
        decreases n - i,
    {
        let ghost pref = t@.subrange(start as int, i as int);
        let ghost pref1 = t@.subrange(start as int, i + 1);
        proof {
            assert(pref1.drop_last() =~= pref);
            assert(pref1.last() == t@[i as int]);
        }
        let c = t.get_char(i);
        if !is_digit_exec(c) {
            proof {
                if is_int_lit(t@) {
                    assert(body[i - start] == t@[i as int]);
                    lemma_all_digits_at(body, i - start);
                }
            }
            return None;
        }
        let d = (c as u32 - 48) as u64;
        proof {
            assert(mant_of(pref1) == 10 * mant_of(pref) + digit_val(t@[i as int]));
        }
        if !ovf {
            let nacc = acc * 10 + d;
            if nacc > 0x8000_0000 {
                ovf = true;
            } else {
                acc = nacc;
            }
        } else {
            proof {
                assert(mant_of(pref) > 0x8000_0000);
                assert(10 * mant_of(pref) + digit_val(t@[i as int]) > 0x8000_0000);
            }
        }
        i = i + 1;
    }
    proof {
        assert(t@.subrange(start as int, i as int) =~= body);
    }
    if i == start {
        return None;
    }
    if ovf {
        return None;
    }
    if neg {
        let v: i64 = -(acc as i64);
        Some(v as i32)
    } else {
        if acc == 0x8000_0000 {
            return None;
        }
        Some(acc as i32)
    }
}

/// Parses a `viewBox` attribute.
///
/// The attribute is accepted exactly when, after trimming, it splits on
/// single spaces into four tokens that each parse as an `i32`; the four
/// values fill the `ViewBox` in order.  Every token is read before the count
/// is judged, so a bad token is reported ahead of a wrong token count.
pub fn parse_view_box(s: &str) -> (r: Result<ViewBox, ViewBoxError>)
    ensures
        r is Ok <==> vb_tokens(s@).len() == 4 && (forall|k: int|
            0 <= k < 4 ==> i32_ok(#[trigger] vb_tokens(s@)[k])),
        r is Ok ==> {
            let vb = r.unwrap();
            &&& vb.min_x as int == int_val(vb_tokens(s@)[0])
            &&& vb.min_y as int == int_val(vb_tokens(s@)[1])
            &&& vb.width as int == int_val(vb_tokens(s@)[2])
            &&& vb.height as int == int_val(vb_tokens(s@)[3])
        },
        r == Err::<ViewBox, ViewBoxError>(ViewBoxError::BadInt) <==> exists|k: int|
            0 <= k < vb_tokens(s@).len() && !i32_ok(#[trigger] vb_tokens(s@)[k]),
        r == Err::<ViewBox, ViewBoxError>(ViewBoxError::WrongCount) <==> (forall|k: int|
            0 <= k < vb_tokens(s@).len() ==> i32_ok(#[trigger] vb_tokens(s@)[k]))
            && vb_tokens(s@).len() != 4,
{
    let n = s.unicode_len();
    let mut a: usize = 0;
    while a < n && is_space_exec(s.get_char(a))
        invariant
            a <= n,
            n == s@.len(),
            forall|k: int| 0 <= k < a ==> is_space(s@[k]),
        decreases n - a,
    {
        a = a + 1;
    }
    let mut b: usize = n;
    while b > a && is_space_exec(s.get_char(b - 1))
        invariant
            a <= b <= n,
            n == s@.len(),
            forall|k: int| b <= k < n ==> is_space(s@[k]),
        decreases b,
    {
        b = b - 1;
    }
    let ghost t = s@.subrange(a as int, b as int);
    proof {
        lemma_trim_front_idx(s@, a as int);
        let u = s@.skip(a as int);
        assert forall|k: int| b - a <= k < u.len() implies is_space(u[k]) by {
            assert(u[k] == s@[k + a]);
        }
        if b > a {
            assert(u[b - a - 1] == s@[b - 1]);
        }
        lemma_trim_back_idx(u, b - a);
        assert(u.take(b - a) =~= t);
        assert(trimmed(s@) == t);
    }
    let mut spans: Vec<(usize, usize)> = Vec::new();
    let mut lo: usize = a;
    let mut i: usize = a;
    while i < b
        invariant
            a <= lo <= i <= b <= n,
            n == s@.len(),
            t == s@.subrange(a as int, b as int),
            split_sp(t.take(i - a)).len() == spans@.len() + 1,
            forall|k: int| 0 <= k < spans@.len() ==> {
                &&& a <= #[trigger] spans@[k].0 <= spans@[k].1 <= b
                &&& split_sp(t.take(i - a))[k] == s@.subrange(
                    spans@[k].0 as int,
                    spans@[k].1 as int,
                )
            },
            split_sp(t.take(i - a)).last() == s@.subrange(lo as int, i as int),
        decreases b - i,
    {
        let ghost p = t.take(i - a);
        let ghost p1 = t.take(i + 1 - a);
        proof {
            assert(p1.drop_last() =~= p);
            assert(p1.last() == t[i - a]);
            assert(t[i - a] == s@[i as int]);
        }
        let c = s.get_char(i);
        if c == ' ' {
            spans.push((lo, i));
            lo = i + 1;
            proof {
                assert(split_sp(p1) == split_sp(p).push(Seq::<char>::empty()));
                assert(s@.subrange(lo as int, lo as int) =~= Seq::<char>::empty());
            }
        } else {
            proof {
                let rest = split_sp(p);
                assert(split_sp(p1) == rest.update(rest.len() - 1, rest.last().push(t[i - a])));
                assert(s@.subrange(lo as int, i as int).push(s@[i as int]) =~= s@.subrange(
                    lo as int,
                    i + 1,
                ));
            }
        }
        i = i + 1;
    }
    proof {
        assert(t.take(b - a) =~= t);
    }
    spans.push((lo, b));
    let ghost toks = vb_tokens(s@);
    proof {
        assert(toks == split_sp(t));
        assert(toks.len() == spans@.len());
        assert(toks.last() == s@.subrange(lo as int, b as int));
        assert(forall|k: int| 0 <= k < spans@.len() ==> #[trigger] toks[k] == s@.subrange(
            spans@[k].0 as int,
            spans@[k].1 as int,
        ));
    }
    let m = spans.len();
    let mut vals: Vec<i32> = Vec::new();
    let mut j: usize = 0;
    while j < m
        invariant
            0 <= j <= m,
            m == spans@.len(),
            m == toks.len(),
            toks == vb_tokens(s@),
            n == s@.len(),
            forall|k: int| 0 <= k < m ==> a <= #[trigger] spans@[k].0 <= spans@[k].1 <= b,
            a <= b <= n,
            forall|k: int| 0 <= k < m ==> #[trigger] toks[k] == s@.subrange(
                spans@[k].0 as int,
                spans@[k].1 as int,
            ),
            vals@.len() == j,
            forall|k: int| 0 <= k < j ==> i32_ok(#[trigger] toks[k]) && vals@[k] as int == int_val(
                toks[k],
            ),
        decreases m - j,
    {
        let (tlo, thi) = spans[j];
        let tok = s.substring_char(tlo, thi);
        match parse_i32(tok) {
            None => {
                proof {
                    assert(toks[j as int] == s@.subrange(
                        spans@[j as int].0 as int,
                        spans@[j as int].1 as int,
                    ));
                    assert(!i32_ok(vb_tokens(s@)[j as int]));
                }
                return Err(ViewBoxError::BadInt);
            },
            Some(v) => {
                vals.push(v);
            },
        }
        j = j + 1;
    }
    if m != 4 {
        return Err(ViewBoxError::WrongCount);
    }
    Ok(ViewBox { min_x: vals[0], min_y: vals[1], width: vals[2], height: vals[3] })
}

} // verus!
