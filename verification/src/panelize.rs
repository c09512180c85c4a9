//! The pipeline: dimensions and view box are parsed, the children filtered,
//! the grid built and the root attributes rewritten, with the first failure
//! reported as the result.

use vstd::prelude::*;
use vstd::string::StringExecFns;
use crate::decimal::{
    Dec, pow10, is_dec_lit, dec_fits, lit_neg, lit_body, mant_of, scale_of, lemma_pow10_values,
    lemma_pow10_le,
};
use crate::length::{
    LengthError, parse_length, parse_offset, length_ok, length_neg, length_mant, length_scale,
    spec_length_err,
};
use crate::viewbox::{ViewBox, ViewBoxError, parse_view_box, vb_tokens, i32_ok, int_val};
use crate::node::{Node, nodes_view, filtered, filter_children};
use crate::grid::{Rat, Group, rat_wf, offset_to_vb, make_groups, abs_val, lemma_mul_lt};
use crate::render::{dec_str, int_str, dec_to_string, i128_to_string};

verus! {

/// The first failure of the pipeline.
#[derive(Clone, Copy, Debug, PartialEq, Eq)]
pub enum PanelError {
    /// The root element has no `width` attribute.
    MissingWidth,
    /// The root element has no `height` attribute.
    MissingHeight,
    /// The root element has no `viewBox` attribute.
    MissingViewBox,
    /// The `width` attribute is not a well-formed length.
    BadWidth(LengthError),
    /// The `height` attribute is not a well-formed length.
    BadHeight(LengthError),
    /// The `viewBox` attribute is not four integers.
    BadViewBox(ViewBoxError),
    /// The document width is zero, so spacing cannot be rescaled.
    ZeroWidth,
    /// The document height is zero, so spacing cannot be rescaled.
    ZeroHeight,
}

/// The panelized document: the rewritten root attributes, the spacing in
/// view-box units, and the groups of the grid.
#[derive(Debug, PartialEq, Eq)]
pub struct OutputDoc {
    pub width: String,
    pub height: String,
    pub view_box: String,
    pub x_offset_vb: Rat,
    pub y_offset_vb: Rat,
    pub groups: Vec<Group>,
}

pub open spec fn opt_view(o: Option<&str>) -> Option<Seq<char>> {
    match o {
        Option::Some(t) => Option::Some(t@),
        Option::None => Option::None,
    }
}

/// The sign a spacing option parses to; anything unusable counts as zero.
pub open spec fn off_neg(t: Option<Seq<char>>) -> bool {
    match t {
        Option::Some(u) => is_dec_lit(u) && dec_fits(u) && lit_neg(u),
        Option::None => false,
    }
}

/// The mantissa a spacing option parses to; anything unusable counts as zero.
pub open spec fn off_mant(t: Option<Seq<char>>) -> int {
    match t {
        Option::Some(u) => if is_dec_lit(u) && dec_fits(u) {
            mant_of(lit_body(u))
        } else {
            0
        },
        Option::None => 0,
    }
}

/// The scale a spacing option parses to; anything unusable counts as zero.
pub open spec fn off_scale(t: Option<Seq<char>>) -> int {
    match t {
        Option::Some(u) => if is_dec_lit(u) && dec_fits(u) {
            scale_of(lit_body(u))
        } else {
            0
        },
        Option::None => 0,
    }
}

/// A `viewBox` attribute that parses: four tokens, each an `i32`.
pub open spec fn vb_ok(s: Seq<char>) -> bool {
    vb_tokens(s).len() == 4 && (forall|k: int| 0 <= k < 4 ==> i32_ok(#[trigger] vb_tokens(s)[k]))
}

/// The error a rejected `viewBox` attribute is reported with.
pub open spec fn spec_vb_err(s: Seq<char>) -> ViewBoxError {
    if exists|k: int| 0 <= k < vb_tokens(s).len() && !i32_ok(#[trigger] vb_tokens(s)[k]) {
        ViewBoxError::BadInt
    } else {
        ViewBoxError::WrongCount
    }
}

/// Whether the whole input is accepted.
pub open spec fn inputs_ok(
    w: Option<Seq<char>>,
    h: Option<Seq<char>>,
    vb: Option<Seq<char>>,
) -> bool {
    &&& w is Some && length_ok(w.unwrap()) && length_mant(w.unwrap()) != 0
    &&& h is Some && length_ok(h.unwrap()) && length_mant(h.unwrap()) != 0
    &&& vb is Some && vb_ok(vb.unwrap())
}

/// Writes `"{value * factor}mm"` for a parsed dimension.
fn scaled_len_attr(d: &Dec, factor: u32) -> (s: String)
    requires
        d.mant < pow10(13),
        d.scale <= 13,
    ensures
        s@ == dec_str(d.neg, (d.mant * factor) as nat, d.scale as nat) + "mm"@,
{
    proof {
        lemma_pow10_values();
        lemma_mul_lt(d.mant as int, factor as int, pow10(13) as int, 0x1_0000_0000);
    }
    let m: u128 = d.mant as u128 * factor as u128;
    let mut s = dec_to_string(d.neg, m, d.scale);
    proof {
        reveal_strlit("mm");
    }
    s.append("mm");
    s
}

/// Writes `"{minx} {miny} {width * x} {height * y}"` for the view box of the
/// grid: the origin unchanged, the extent scaled.
fn grid_view_box_attr(vb: &ViewBox, x: u32, y: u32) -> (s: String)
    ensures
        s@ == int_str(vb.min_x as int) + seq![' '] + int_str(vb.min_y as int) + seq![' ']
            + int_str((vb.width as int) * (x as int)) + seq![' '] + int_str(
            (vb.height as int) * (y as int),
        ),
{
    proof {
        assert((vb.width as int) * (x as int) < 0x8000_0000_0000_0000 && (vb.width as int) * (
        x as int) > -0x8000_0000_0000_0000) by (nonlinear_arith)
            requires
                -0x8000_0000 <= (vb.width as int) < 0x8000_0000,
                0 <= (x as int) < 0x1_0000_0000,
        ;
        assert((vb.height as int) * (y as int) < 0x8000_0000_0000_0000 && (vb.height as int) * (
        y as int) > -0x8000_0000_0000_0000) by (nonlinear_arith)
            requires
                -0x8000_0000 <= (vb.height as int) < 0x8000_0000,
                0 <= (y as int) < 0x1_0000_0000,
        ;
        reveal_strlit(" ");
        assert(" "@ =~= seq![' ']);
    }
    let w2: i128 = vb.width as i128 * x as i128;
    let h2: i128 = vb.height as i128 * y as i128;
    let mut s = i128_to_string(vb.min_x as i128);
    s.append(" ");
    let t1 = i128_to_string(vb.min_y as i128);
    s.append(t1.as_str());
    s.append(" ");
    let t2 = i128_to_string(w2);
    s.append(t2.as_str());
    s.append(" ");
    let t3 = i128_to_string(h2);
    s.append(t3.as_str());
    s
}

/// Panelizes a document.
///
/// The `width` and `height` attributes are parsed as lengths and the
/// `viewBox` as four integers; the children are filtered and replicated into
/// an `x` by `y` grid of groups, the spacing options are rescaled into
/// view-box units, and the three attributes are rewritten for the enlarged
/// canvas.  The first failing stage names the error, in the order width,
/// height, view box, zero extent.
pub fn panelize(
    width_s: Option<&str>,
    height_s: Option<&str>,
    view_box_s: Option<&str>,
    children: &Vec<Node>,
    x: u32,
    y: u32,
    x_off_s: Option<&str>,
    y_off_s: Option<&str>,
) -> (r: Result<OutputDoc, PanelError>)
    requires
        1 <= x,
        1 <= y,
        (x as int) * (y as int) <= usize::MAX as int,
    ensures
        r is Ok <==> inputs_ok(opt_view(width_s), opt_view(height_s), opt_view(view_box_s)),
        width_s is None ==> r == Err::<OutputDoc, PanelError>(PanelError::MissingWidth),
        width_s is Some && !length_ok(width_s.unwrap()@) ==> r == Err::<OutputDoc, PanelError>(
            PanelError::BadWidth(spec_length_err(width_s.unwrap()@)),
        ),
        width_s is Some && length_ok(width_s.unwrap()@) && height_s is None ==> r == Err::<
            OutputDoc,
            PanelError,
        >(PanelError::MissingHeight),
        width_s is Some && length_ok(width_s.unwrap()@) && height_s is Some && !length_ok(
            height_s.unwrap()@,
        ) ==> r == Err::<OutputDoc, PanelError>(
            PanelError::BadHeight(spec_length_err(height_s.unwrap()@)),
        ),
        width_s is Some && length_ok(width_s.unwrap()@) && height_s is Some && length_ok(
            height_s.unwrap()@,
        ) ==> {
            &&& view_box_s is None ==> r == Err::<OutputDoc, PanelError>(PanelError::MissingViewBox)
            &&& view_box_s is Some && !vb_ok(view_box_s.unwrap()@) ==> r == Err::<
                OutputDoc,
                PanelError,
            >(PanelError::BadViewBox(spec_vb_err(view_box_s.unwrap()@)))
            &&& view_box_s is Some && vb_ok(view_box_s.unwrap()@) && length_mant(
                width_s.unwrap()@,
            ) == 0 ==> r == Err::<OutputDoc, PanelError>(PanelError::ZeroWidth)
            &&& view_box_s is Some && vb_ok(view_box_s.unwrap()@) && length_mant(width_s.unwrap()@)
                != 0 && length_mant(height_s.unwrap()@) == 0 ==> r == Err::<OutputDoc, PanelError>(
                PanelError::ZeroHeight,
            )
        },
        r is Ok ==> {
            let o = r.unwrap();
            let w = width_s.unwrap()@;
            let h = height_s.unwrap()@;
            let v = view_box_s.unwrap()@;
            let xo = opt_view(x_off_s);
            let yo = opt_view(y_off_s);
            &&& o.width@ == dec_str(
                length_neg(w),
                (length_mant(w) * x) as nat,
                length_scale(w) as nat,
            ) + "mm"@
            &&& o.height@ == dec_str(
                length_neg(h),
                (length_mant(h) * y) as nat,
                length_scale(h) as nat,
            ) + "mm"@
            &&& o.view_box@ == int_str(int_val(vb_tokens(v)[0])) + seq![' '] + int_str(
                int_val(vb_tokens(v)[1]),
            ) + seq![' '] + int_str(int_val(vb_tokens(v)[2]) * x) + seq![' '] + int_str(
                int_val(vb_tokens(v)[3]) * y,
            )
            &&& rat_wf(o.x_offset_vb)
            &&& o.x_offset_vb.num == off_mant(xo) * abs_val(int_val(vb_tokens(v)[2])) * pow10(
                length_scale(w) as nat,
            )
            &&& o.x_offset_vb.den == pow10(off_scale(xo) as nat) * length_mant(w)
            &&& o.x_offset_vb.neg == ((off_neg(xo) != (int_val(vb_tokens(v)[2]) < 0)) != length_neg(w))
            &&& rat_wf(o.y_offset_vb)
            &&& o.y_offset_vb.num == off_mant(yo) * abs_val(int_val(vb_tokens(v)[3])) * pow10(
                length_scale(h) as nat,
            )
            &&& o.y_offset_vb.den == pow10(off_scale(yo) as nat) * length_mant(h)
            &&& o.y_offset_vb.neg == ((off_neg(yo) != (int_val(vb_tokens(v)[3]) < 0)) != length_neg(h))
            &&& o.groups@.len() == (x as int) * (y as int)
            &&& forall|i: int, j: int|
                0 <= i < x && 0 <= j < y ==> {
                    let g = #[trigger] o.groups@[i * (y as int) + j];
                    &&& g.col == i
                    &&& g.row == j
                    &&& nodes_view(g.children@) == filtered(nodes_view(children@))
                }
        },
{
    let ws = match width_s {
        Option::None => {
            return Err(PanelError::MissingWidth);
        },
        Option::Some(t) => t,
    };
    let w = match parse_length(ws) {
        Err(e) => {
            return Err(PanelError::BadWidth(e));
        },
        Ok(d) => d,
    };
    let hs = match height_s {
        Option::None => {
            return Err(PanelError::MissingHeight);
        },
        Option::Some(t) => t,
    };
    let h = match parse_length(hs) {
        Err(e) => {
            return Err(PanelError::BadHeight(e));
        },
        Ok(d) => d,
    };
    let vs = match view_box_s {
        Option::None => {
            return Err(PanelError::MissingViewBox);
        },
        Option::Some(t) => t,
    };
    let vb = match parse_view_box(vs) {
        Err(e) => {
            return Err(PanelError::BadViewBox(e));
        },
        Ok(b) => b,
    };
    if w.mant == 0 {
        return Err(PanelError::ZeroWidth);
    }
    if h.mant == 0 {
        return Err(PanelError::ZeroHeight);
    }
    let xo = parse_offset(x_off_s);
    let yo = parse_offset(y_off_s);
    proof {
        lemma_pow10_values();
        lemma_pow10_le(12, 13);
    }
    let xr = offset_to_vb(&xo, vb.width, &w);
    let yr = offset_to_vb(&yo, vb.height, &h);
    let kept = filter_children(children);
    let groups = make_groups(&kept, x, y);
    let width_out = scaled_len_attr(&w, x);
    let height_out = scaled_len_attr(&h, y);
    let view_box_out = grid_view_box_attr(&vb, x, y);
    Ok(
        OutputDoc {
            width: width_out,
            height: height_out,
            view_box: view_box_out,
            x_offset_vb: xr,
            y_offset_vb: yr,
            groups,
        },
    )
}

} // verus!
