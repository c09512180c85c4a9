//! Grid replication.
//!
//! Spacing options are given in millimetres but apply inside the view box, so
//! they are first rescaled by `view_box_extent / document_extent`; the result
//! is an exact rational.  The replicator then produces one group per grid
//! cell, column-major with the row index varying fastest, each holding a deep
//! copy of the filtered children.

use vstd::prelude::*;
use crate::decimal::{Dec, pow10, lemma_pow10_le};
use crate::node::{Node, nodes_view, clone_nodes};

verus! {

/// An exact nonnegative rational with a sign: `(-1)^neg * num / den`.
#[derive(Clone, Copy, Debug, PartialEq, Eq, Structural)]
pub struct Rat {
    pub neg: bool,
    pub num: u128,
    pub den: u128,
}

pub open spec fn rat_wf(r: Rat) -> bool {
    r.den >= 1
}

/// The signed numerator of `r`.
pub open spec fn rat_num(r: Rat) -> int {
    if r.neg {
        -(r.num as int)
    } else {
        r.num as int
    }
}

pub open spec fn abs_val(v: int) -> int {
    if v < 0 {
        -v
    } else {
        v
    }
}

pub proof fn lemma_mul_lt(a: int, b: int, c: int, d: int)
    requires
        0 <= a < c,
        0 <= b < d,
    ensures
        a * b < c * d,
{
    assert(a * b < c * d) by (nonlinear_arith)
        requires
            0 <= a < c,
            0 <= b < d,
    ;
}

pub proof fn lemma_mul_ge_one(a: int, b: int)
    requires
        a >= 1,
        b >= 1,
    ensures
        a * b >= 1,
{
    assert(a * b >= 1) by (nonlinear_arith)
        requires
            a >= 1,
            b >= 1,
    ;
}

/// Converts a millimetre spacing into view-box units, exactly:
/// the value of the result is `off * vb_len / dim`.
pub fn offset_to_vb(off: &Dec, vb_len: i32, dim: &Dec) -> (r: Rat)
    requires
        off.mant < pow10(13),
        off.scale <= 13,
        1 <= dim.mant < pow10(13),
        dim.scale <= 13,
    ensures
        rat_wf(r),
        r.num == off.mant * abs_val(vb_len as int) * pow10(dim.scale as nat),
        r.den == pow10(off.scale as nat) * dim.mant,
        r.neg == ((off.neg != (vb_len < 0)) != dim.neg),
{
    proof {
        crate::decimal::lemma_pow10_values();
        lemma_pow10_le(off.scale as nat, 13);
        lemma_pow10_le(dim.scale as nat, 13);
    }
    let p_dim = crate::render::pow10_u128(dim.scale);
    let p_off = crate::render::pow10_u128(off.scale);
    let va: u64 = if vb_len < 0 {
        (-(vb_len as i64)) as u64
    } else {
        vb_len as u64
    };
    proof {
        lemma_mul_lt(off.mant as int, va as int, pow10(13) as int, 0x1_0000_0000);
        lemma_mul_lt(
            (off.mant * va) as int,
            p_dim as int,
            pow10(13) as int * 0x1_0000_0000,
            pow10(13) as int + 1,
        );
        lemma_mul_lt(p_off as int, dim.mant as int, pow10(13) as int + 1, pow10(13) as int);
        lemma_mul_ge_one(p_off as int, dim.mant as int);
    }
    let num = off.mant as u128 * va as u128 * p_dim;
    let den = p_off * dim.mant as u128;
    let mut neg = off.neg;
    if vb_len < 0 {
        neg = !neg;
    }
    if dim.neg {
        neg = !neg;
    }
    Rat { neg, num, den }
}

/// One grid cell: its column, its row, and its own copy of the content.
#[derive(Debug, PartialEq, Eq)]
pub struct Group {
    pub col: u32,
    pub row: u32,
    pub children: Vec<Node>,
}

pub proof fn lemma_mul_le_mono(a: int, b: int, c: int)
    requires
        a <= b,
        c >= 0,
    ensures
        a * c <= b * c,
{
    assert(a * c <= b * c) by (nonlinear_arith)
        requires
            a <= b,
            c >= 0,
    ;
}

/// The grid is enumerated row-major with the row index varying fastest:
/// every position `k` of the group sequence is the cell
/// `(k / y, k % y)`, so together with the cell-indexed description of
/// `make_groups` the whole sequence is the Cartesian product of the column
/// and row ranges, the column being the outer loop.
pub proof fn lemma_row_major_index(x: int, y: int, k: int)
    requires
        1 <= x,
        1 <= y,
        0 <= k < x * y,
    ensures
        0 <= k / y < x,
        0 <= k % y < y,
        k == (k / y) * y + (k % y),
{
    assert(0 <= k % y < y && k == (k / y) * y + (k % y) && 0 <= k / y) by (nonlinear_arith)
        requires
            1 <= y,
            0 <= k,
    ;
    assert(k / y < x) by (nonlinear_arith)
        requires
            1 <= y,
            0 <= k < x * y,
            0 <= k % y < y,
            k == (k / y) * y + (k % y),
    ;
}

/// Builds the `x * y` groups of the grid, in order: the column index is the
/// outer loop, the row index the inner one, so the group of cell `(i, j)`
/// stands at position `i * y + j`.  Every group carries a deep copy of the
/// same children.
#[verifier::loop_isolation(false)]
pub fn make_groups(children: &Vec<Node>, x: u32, y: u32) -> (gs: Vec<Group>)
    requires
        1 <= x,
        1 <= y,
        (x as int) * (y as int) <= usize::MAX as int,
    ensures
        gs@.len() == (x as int) * (y as int),
        forall|i: int, j: int|
            0 <= i < x && 0 <= j < y ==> {
                let g = #[trigger] gs@[i * (y as int) + j];
                &&& g.col == i
                &&& g.row == j
                &&& nodes_view(g.children@) == nodes_view(children@)
            },
{
    let mut gs: Vec<Group> = Vec::new();
    let mut i: u32 = 0;
    while i < x
        invariant
            0 <= i <= x,
            gs@.len() == (i as int) * (y as int),
            forall|a: int, b: int|
                0 <= a < i && 0 <= b < y ==> {
                    let g = #[trigger] gs@[a * (y as int) + b];
                    &&& g.col == a
                    &&& g.row == b
                    &&& nodes_view(g.children@) == nodes_view(children@)
                },
        decreases x - i,
    {
        let mut j: u32 = 0;
        while j < y
            invariant
                0 <= i < x,
                0 <= j <= y,
                gs@.len() == (i as int) * (y as int) + j,
                forall|a: int, b: int|
                    0 <= a < i && 0 <= b < y ==> {
                        let g = #[trigger] gs@[a * (y as int) + b];
                        &&& g.col == a
                        &&& g.row == b
                        &&& nodes_view(g.children@) == nodes_view(children@)
                    },
                forall|b: int|
                    0 <= b < j ==> {
                        let g = #[trigger] gs@[(i as int) * (y as int) + b];
                        &&& g.col == i
                        &&& g.row == b
                        &&& nodes_view(g.children@) == nodes_view(children@)
                    },
            decreases y - j,
        {
            proof {
                lemma_mul_le_mono(i as int + 1, x as int, y as int);
                assert((i as int + 1) * (y as int) == (i as int) * (y as int) + y) by (
                nonlinear_arith);
            }
            let copy = clone_nodes(children);
            gs.push(Group { col: i, row: j, children: copy });
            proof {
                assert forall|a: int, b: int| 0 <= a < i && 0 <= b < y implies {
                    let g = #[trigger] gs@[a * (y as int) + b];
                    &&& g.col == a
                    &&& g.row == b
                    &&& nodes_view(g.children@) == nodes_view(children@)
                } by {
                    lemma_mul_le_mono(a + 1, i as int, y as int);
                    assert((a + 1) * (y as int) == a * (y as int) + y) by (nonlinear_arith);
                    assert(a * (y as int) + b < (i as int) * (y as int) + j + 1);
                }
            }
            j = j + 1;
        }
        proof {
            assert((i as int + 1) * (y as int) == (i as int) * (y as int) + y) by (nonlinear_arith);
        }
        i = i + 1;
    }
    gs
}

} // verus!
