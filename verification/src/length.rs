//! The length parser.
//!
//! A dimension string carries a two-character unit suffix, `mm` or `cm`, in
//! front of which stands a decimal numeral.  The parsed value is normalized
//! to millimetres: a `cm` value is multiplied by ten, exactly.

use vstd::prelude::*;
use vstd::string::StrSliceExecFns;
use crate::decimal::{
    Dec, dec_den, dec_num, dec_times_10, dec_fits, dec_wf, is_dec_lit, lit_body, lit_neg, mant_of,
    parse_decimal, pow10, scale_of, lemma_pow10_le,
};

verus! {

/// Why a dimension string was rejected.
#[derive(Clone, Copy, Debug, PartialEq, Eq, Structural)]
pub enum LengthError {
    /// The string does not end in `mm` or `cm`.
    BadSuffix,
    /// The part before the suffix is not a decimal numeral this tool accepts.
    BadNumber,
}

pub open spec fn mm_suffix(s: Seq<char>) -> bool {
    s.len() >= 2 && s[s.len() - 2] == 'm' && s[s.len() - 1] == 'm'
}

pub open spec fn cm_suffix(s: Seq<char>) -> bool {
    s.len() >= 2 && s[s.len() - 2] == 'c' && s[s.len() - 1] == 'm'
}

/// The numeral standing before the unit suffix.
pub open spec fn len_prefix(s: Seq<char>) -> Seq<char> {
    s.take(s.len() - 2)
}

/// Whether the whole dimension string is accepted.
pub open spec fn length_ok(s: Seq<char>) -> bool {
    (mm_suffix(s) || cm_suffix(s)) && is_dec_lit(len_prefix(s)) && dec_fits(len_prefix(s))
}

/// The numerator of the value written before the suffix.
pub open spec fn prefix_num(s: Seq<char>) -> int {
    if lit_neg(len_prefix(s)) {
        -mant_of(lit_body(len_prefix(s)))
    } else {
        mant_of(lit_body(len_prefix(s)))
    }
}

/// The denominator of the value written before the suffix.
pub open spec fn prefix_den(s: Seq<char>) -> int {
    pow10(scale_of(lit_body(len_prefix(s))) as nat) as int
}

/// The sign of the parsed length.
pub open spec fn length_neg(s: Seq<char>) -> bool {
    lit_neg(len_prefix(s))
}

/// The mantissa of the parsed length, after normalization to millimetres.
pub open spec fn length_mant(s: Seq<char>) -> int {
    if cm_suffix(s) && scale_of(lit_body(len_prefix(s))) == 0 {
        10 * mant_of(lit_body(len_prefix(s)))
    } else {
        mant_of(lit_body(len_prefix(s)))
    }
}

/// The scale of the parsed length, after normalization to millimetres.
pub open spec fn length_scale(s: Seq<char>) -> int {
    if cm_suffix(s) && scale_of(lit_body(len_prefix(s))) > 0 {
        scale_of(lit_body(len_prefix(s))) - 1
    } else if cm_suffix(s) {
        0
    } else {
        scale_of(lit_body(len_prefix(s)))
    }
}

/// The error a rejected dimension string is reported with.
pub open spec fn spec_length_err(s: Seq<char>) -> LengthError {
    if !(mm_suffix(s) || cm_suffix(s)) {
        LengthError::BadSuffix
    } else {
        LengthError::BadNumber
    }
}

/// Parses a dimension string into exact millimetres.
///
/// A `"{n}mm"` string yields the value `n` itself and a `"{n}cm"` string the
/// value `10 * n`; both facts are stated by cross-multiplication against the
/// numeral written in the string.  Every other string is rejected: a missing
/// or unknown suffix as `BadSuffix`, an unparseable numeral as `BadNumber`.
pub fn parse_length(s: &str) -> (r: Result<Dec, LengthError>)
    ensures
        r is Ok <==> length_ok(s@),
        r is Ok ==> dec_wf(r.unwrap()),
        r is Ok && mm_suffix(s@) ==> dec_num(r.unwrap()) * prefix_den(s@) == prefix_num(s@)
            * dec_den(r.unwrap()),
        r is Ok && cm_suffix(s@) ==> dec_num(r.unwrap()) * prefix_den(s@) == 10 * prefix_num(s@)
            * dec_den(r.unwrap()),
        r is Ok ==> {
            let d = r.unwrap();
            &&& d.neg == length_neg(s@)
            &&& d.mant as int == length_mant(s@)
            &&& d.scale as int == length_scale(s@)
        },
        r is Err ==> r.unwrap_err() == spec_length_err(s@),
{
    let n = s.unicode_len();
    if n < 2 {
        return Err(LengthError::BadSuffix);
    }
    let c1 = s.get_char(n - 2);
    let c2 = s.get_char(n - 1);
    let is_mm = c1 == 'm' && c2 == 'm';
    let is_cm = c1 == 'c' && c2 == 'm';
    if !is_mm && !is_cm {
        return Err(LengthError::BadSuffix);
    }
    let prefix = s.substring_char(0, n - 2);
    proof {
        assert(prefix@ =~= len_prefix(s@));
    }
    match parse_decimal(prefix) {
        None => Err(LengthError::BadNumber),
        Some(d) => {
            proof {
                lemma_pow10_le(12, 13);
            }
            if is_cm {
                Ok(dec_times_10(d))
            } else {
                Ok(d)
            }
        },
    }
}

/// Parses a spacing option.  A missing option, and one that is not an
/// accepted decimal numeral, both fall back to zero; a well-formed numeral
/// yields its exact value.
pub fn parse_offset(s: Option<&str>) -> (d: Dec)
    ensures
        dec_wf(d),
        d.mant < pow10(12),
        d.scale <= 12,
        match s {
            None => d.neg == false && d.mant == 0 && d.scale == 0,
            Some(t) => {
                if is_dec_lit(t@) && dec_fits(t@) {
                    &&& d.neg == lit_neg(t@)
                    &&& d.mant as int == mant_of(lit_body(t@))
                    &&& d.scale as int == scale_of(lit_body(t@))
                } else {
                    d.neg == false && d.mant == 0 && d.scale == 0
                }
            },
        },
{
    proof {
        crate::decimal::lemma_pow10_values();
        lemma_pow10_le(0, 12);
    }
    match s {
        None => Dec { neg: false, mant: 0, scale: 0 },
        Some(t) => match parse_decimal(t) {
            None => Dec { neg: false, mant: 0, scale: 0 },
            Some(d) => d,
        },
    }
}

} // verus!
