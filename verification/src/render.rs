//! Decimal rendering of exact values.
//!
//! Attribute strings of the output document are produced here: an integer is
//! written in the usual decimal notation, and a `Dec`-style value is written
//! with its fraction stripped of trailing zeroes and the decimal point dropped
//! when the fraction is empty, so `100` renders as `"100"` and `375/10^2` as
//! `"3.75"`.

use vstd::prelude::*;
use vstd::string::StringExecFns;
use crate::decimal::pow10;

verus! {

pub open spec fn digit_char(d: int) -> char {
    if d == 0 {
        '0'
    } else if d == 1 {
        '1'
    } else if d == 2 {
        '2'
    } else if d == 3 {
        '3'
    } else if d == 4 {
        '4'
    } else if d == 5 {
        '5'
    } else if d == 6 {
        '6'
    } else if d == 7 {
        '7'
    } else if d == 8 {
        '8'
    } else {
        '9'
    }
}

/// The decimal digits of `n`, most significant first.
pub open spec fn digits_str(n: nat) -> Seq<char>
    decreases n,
{
    if n < 10 {
        seq![digit_char(n as int)]
    } else {
        digits_str(n / 10).push(digit_char((n % 10) as int))
    }
}

/// The lowest `s` decimal digits of `m`, most significant first; leading
/// zeroes are kept, so this renders a fraction part exactly `s` digits wide.
pub open spec fn frac_str(m: nat, s: nat) -> Seq<char>
    decreases s,
{
    if s == 0 {
        Seq::empty()
    } else {
        frac_str(m / 10, (s - 1) as nat).push(digit_char((m % 10) as int))
    }
}

/// An integer in decimal notation, with a leading minus sign when negative.
pub open spec fn int_str(v: int) -> Seq<char> {
    if v < 0 {
        seq!['-'] + digits_str((-v) as nat)
    } else {
        digits_str(v as nat)
    }
}

/// Strips trailing zeroes of the fraction: the value `m / 10^s` is unchanged.
pub open spec fn norm(m: nat, s: nat) -> (nat, nat)
    decreases s,
{
    if s == 0 || m % 10 != 0 {
        (m, s)
    } else {
        norm(m / 10, (s - 1) as nat)
    }
}

/// An unsigned decimal value `m / 10^s`, already normalized.
pub open spec fn dec_body_str(m: nat, s: nat) -> Seq<char> {
    if s == 0 {
        digits_str(m)
    } else {
        digits_str(m / pow10(s)) + seq!['.'] + frac_str(m, s)
    }
}

/// The rendering of `(-1)^neg * m / 10^s`: normalized, signed only when the
/// value is strictly negative.
pub open spec fn dec_str(neg: bool, m: nat, s: nat) -> Seq<char> {
    let (nm, ns) = norm(m, s);
    if neg && nm > 0 {
        seq!['-'] + dec_body_str(nm, ns)
    } else {
        dec_body_str(nm, ns)
    }
}

fn digit_lit(d: u128) -> (r: &'static str)
    requires
        d < 10,
    ensures
        r@ == seq![digit_char(d as int)],
{
    proof {
        reveal_strlit("0");
        reveal_strlit("1");
        reveal_strlit("2");
        reveal_strlit("3");
        reveal_strlit("4");
        reveal_strlit("5");
        reveal_strlit("6");
        reveal_strlit("7");
        reveal_strlit("8");
        reveal_strlit("9");
    }
    match d {
        0 => {
            proof {
                assert("0"@ =~= seq![digit_char(0)]);
            }
            "0"
        },
        1 => {
            proof {
                assert("1"@ =~= seq![digit_char(1)]);
            }
            "1"
        },
        2 => {
            proof {
                assert("2"@ =~= seq![digit_char(2)]);
            }
            "2"
        },
        3 => {
            proof {
                assert("3"@ =~= seq![digit_char(3)]);
            }
            "3"
        },
        4 => {
            proof {
                assert("4"@ =~= seq![digit_char(4)]);
            }
            "4"
        },
        5 => {
            proof {
                assert("5"@ =~= seq![digit_char(5)]);
            }
            "5"
        },
        6 => {
            proof {
                assert("6"@ =~= seq![digit_char(6)]);
            }
            "6"
        },
        7 => {
            proof {
                assert("7"@ =~= seq![digit_char(7)]);
            }
            "7"
        },
        8 => {
            proof {
                assert("8"@ =~= seq![digit_char(8)]);
            }
            "8"
        },
        _ => {
            proof {
                assert("9"@ =~= seq![digit_char(9)]);
            }
            "9"
        },
    }
}

/// Writes `n` in decimal.
pub fn u128_to_string(n: u128) -> (r: String)
    ensures
        r@ == digits_str(n as nat),
    decreases n,
{
    if n < 10 {
        let mut r = String::new();
        r.append(digit_lit(n));
        proof {
            assert(r@ =~= digits_str(n as nat));
        }
        r
    } else {
        let mut r = u128_to_string(n / 10);
        r.append(digit_lit(n % 10));
        proof {
            assert(r@ =~= digits_str(n as nat));
        }
        r
    }
}

/// Writes the lowest `s` digits of `m`, a fraction part.
fn frac_to_string(m: u128, s: u32) -> (r: String)
    ensures
        r@ == frac_str(m as nat, s as nat),
    decreases s,
{
    if s == 0 {
        let r = String::new();
        proof {
            assert(r@ =~= frac_str(m as nat, 0));
        }
        r
    } else {
        let mut r = frac_to_string(m / 10, s - 1);
        r.append(digit_lit(m % 10));
        proof {
            assert(r@ =~= frac_str(m as nat, s as nat));
        }
        r
    }
}

/// Writes a signed integer in decimal.
pub fn i128_to_string(v: i128) -> (r: String)
    requires
        v != i128::MIN,
    ensures
        r@ == int_str(v as int),
{
    if v < 0 {
        let mut r = String::new();
        proof {
            reveal_strlit("-");
        }
        r.append("-");
        let digits = u128_to_string((-v) as u128);
        r.append(digits.as_str());
        proof {
            assert(r@ =~= int_str(v as int));
        }
        r
    } else {
        u128_to_string(v as u128)
    }
}

pub fn pow10_u128(e: u32) -> (r: u128)
    requires
        e <= 30,
    ensures
        r as nat == pow10(e as nat),
        r >= 1,
{
    proof {
        crate::decimal::lemma_pow10_values();
    }
    let mut k: u32 = 0;
    let mut r: u128 = 1;
    while k < e
        invariant
            k <= e,
            e <= 30,
            r as nat == pow10(k as nat),
            r >= 1,
            pow10(30) == 1_000_000_000_000_000_000_000_000_000_000,
        decreases e - k,
    {
        proof {
            crate::decimal::lemma_pow10_le((k + 1) as nat, 30);
            assert(pow10((k + 1) as nat) == 10 * pow10(k as nat));
        }
        r = r * 10;
        k = k + 1;
    }
    r
}

/// Writes the value `(-1)^neg * m / 10^s` in decimal, normalized.
pub fn dec_to_string(neg: bool, m: u128, s: u32) -> (r: String)
    requires
        s <= 30,
    ensures
        r@ == dec_str(neg, m as nat, s as nat),
{
    let ghost m0 = m as nat;
    let ghost s0 = s as nat;
    let mut m = m;
    let mut s = s;
    while s > 0 && m % 10 == 0
        invariant
            s <= 30,
            norm(m as nat, s as nat) == norm(m0, s0),
        decreases s,
    {
        m = m / 10;
        s = s - 1;
    }
    proof {
        assert(norm(m as nat, s as nat) == (m as nat, s as nat));
    }
    let mut r = String::new();
    if neg && m > 0 {
        proof {
            reveal_strlit("-");
        }
        r.append("-");
    }
    if s == 0 {
        let digits = u128_to_string(m);
        r.append(digits.as_str());
    } else {
        let p = pow10_u128(s);
        let ip = u128_to_string(m / p);
        r.append(ip.as_str());
        proof {
            reveal_strlit(".");
        }
        r.append(".");
        let fp = frac_to_string(m, s);
        r.append(fp.as_str());
    }
    proof {
        assert(r@ =~= dec_str(neg, m0, s0));
    }
    r
}

} // verus!
