//! Address-grid module: computes which cells of an infinite, multi-resolution
//! byte-address grid are visible in a pixel viewport.
//!
//! Each grid level is a periodic strip of cells: at a level of `byte_size`
//! bytes per cell, cell `i` covers byte addresses `[i*byte_size,
//! (i+1)*byte_size)` and is `byte_size * cell_width` pixels wide.  Only the
//! cells that intersect the viewport are materialized, restarting from the
//! current scroll position every frame.  The viewport is measured in whole
//! pixels; the host rounds its scroll coordinates before calling in.

use crate::layout::LayoutResult;
use vstd::arithmetic::div_mod::lemma_div_pos_is_pos;
use vstd::arithmetic::div_mod::lemma_fundamental_div_mod;
use vstd::arithmetic::div_mod::lemma_fundamental_div_mod_converse;
use vstd::arithmetic::div_mod::lemma_mod_division_less_than_divisor;
use vstd::arithmetic::mul::lemma_mul_inequality;
use vstd::arithmetic::mul::lemma_mul_nonnegative;
use vstd::arithmetic::mul::lemma_mul_is_associative;
use vstd::arithmetic::mul::lemma_mul_is_commutative;
use vstd::arithmetic::mul::lemma_mul_is_distributive_add_other_way;
use vstd::arithmetic::mul::lemma_mul_strictly_positive;
use vstd::arithmetic::mul::lemma_mul_upper_bound;
use vstd::prelude::*;

verus! {

/// Largest pixel coordinate the grid accepts, so that every intermediate
/// product fits in `i64`.
pub const MAX_VIEW: i64 = 0x1000_0000_0000;

/// Largest pixel width of a one-byte cell the grid accepts.
pub const MAX_CELL_WIDTH: i64 = 0x1_0000;

/// Largest bytes-per-cell value the grid accepts (it comfortably exceeds any
/// total structure size the layout engine can produce).
pub const MAX_BYTE_SIZE: i64 = 0x8000_0000;

/// One visible cell of a grid level: its index on the infinite strip, the
/// pixel position of its left edge relative to the viewport start, its pixel
/// width, and the byte address where it begins.
#[derive(Clone, Copy, PartialEq, Eq, Structural, Debug)]
pub struct GridCell {
    pub index: i64,
    pub x: i64,
    pub width: i64,
    pub address: i64,
}

/// Integer division of `a` by `b` rounded to the nearest quotient, ties
/// upward: the integer form of `round(a / b)`.
pub open spec fn spec_round_div(a: int, b: int) -> int {
    (2 * a + b) / (2 * b)
}

/// Index of the first cell a viewport starting at `view_start` shows: one
/// whole cell of lookback below the rounded quotient, so the leftmost
/// partially visible cell is always included.
pub open spec fn spec_first_index(view_start: int, cw: int) -> int {
    spec_round_div(view_start, cw) - 1
}

/// Rounding to the nearest quotient lands on the floor quotient or one above
/// it.
proof fn lemma_round_div_bounds(a: int, b: int)
    requires
        0 <= a,
        0 < b,
    ensures
        a / b <= spec_round_div(a, b) <= a / b + 1,
{
    let f = a / b;
    let r = a % b;
    lemma_fundamental_div_mod(a, b);
    lemma_mod_division_less_than_divisor(a, b);
    assert((2 * b) * f == 2 * (b * f)) by {
        lemma_mul_is_associative(2, b, f);
    }
    if 2 * r + b < 2 * b {
        lemma_fundamental_div_mod_converse(2 * a + b, 2 * b, f, 2 * r + b);
    } else {
        assert((2 * b) * (f + 1) == (2 * b) * f + 2 * b) by {
            lemma_mul_is_distributive_add_other_way(2 * b, f, 1);
            lemma_mul_is_commutative(2 * b, f);
            lemma_mul_is_commutative(2 * b, f + 1);
        }
        lemma_fundamental_div_mod_converse(2 * a + b, 2 * b, f + 1, 2 * r - b);
    }
}

/// `r` is exactly the run of cells a viewport `[view_start, view_end)` shows
/// at a level of `byte_size` bytes per cell: consecutive indices starting at
/// the lookback index, each cell exactly `byte_size * cell_width` pixels
/// wide and contiguous with the next, left edges on exact multiples of the
/// cell width in absolute pixels (and of `byte_size` in byte addresses), the
/// first cell starting at or left of the viewport, every cell but the last
/// ending inside it, and the last ending beyond it.
pub open spec fn cells_ok(
    r: Seq<GridCell>,
    view_start: int,
    view_end: int,
    byte_size: int,
    cell_width: int,
) -> bool {
    let cw = byte_size * cell_width;
    &&& r.len() >= 1
    &&& r[0].index == spec_first_index(view_start, cw)
    &&& forall|k: int|
        0 <= k < r.len() ==> {
            &&& (#[trigger] r[k]).index == r[0].index + k
            &&& r[k].width == cw
            &&& r[k].x == r[k].index * cw - view_start
            &&& r[k].address == r[k].index * byte_size
        }
    &&& forall|k: int| 0 <= k < r.len() - 1 ==> (#[trigger] r[k]).x + cw == r[k + 1].x
    &&& r[0].x <= 0
    &&& forall|k: int|
        0 <= k < r.len() - 1 ==> ((#[trigger] r[k]).index + 1) * cw <= view_end
    &&& (r[r.len() - 1].index + 1) * cw > view_end
}

/// The ordered run of cells of one grid level visible in the pixel viewport
/// `[view_start, view_end)`, at `byte_size` bytes and `byte_size *
/// cell_width` pixels per cell.
pub fn visible_cells(view_start: i64, view_end: i64, byte_size: i64, cell_width: i64) -> (r: Vec<
    GridCell,
>)
    requires
        0 <= view_start <= view_end <= MAX_VIEW as int,
        0 < byte_size <= MAX_BYTE_SIZE as int,
        0 < cell_width <= MAX_CELL_WIDTH as int,
    ensures
        cells_ok(r@, view_start as int, view_end as int, byte_size as int, cell_width as int),
{
    proof {
        lemma_mul_strictly_positive(byte_size as int, cell_width as int);
        lemma_mul_upper_bound(
            byte_size as int,
            MAX_BYTE_SIZE as int,
            cell_width as int,
            MAX_CELL_WIDTH as int,
        );
        lemma_mul_inequality(1, cell_width as int, byte_size as int);
        lemma_mul_is_commutative(cell_width as int, byte_size as int);
    }
    let cw = byte_size * cell_width;
    let num = 2 * view_start + cw;
    let den = 2 * cw;
    let q = (num as u64) / (den as u64);
    proof {
        lemma_round_div_bounds(view_start as int, cw as int);
        lemma_div_pos_is_pos(view_start as int, cw as int);
        lemma_fundamental_div_mod(view_start as int, cw as int);
        lemma_mod_division_less_than_divisor(view_start as int, cw as int);
    }
    let i0 = (q as i64) - 1;
    let ghost i0s = spec_first_index(view_start as int, cw as int);
    proof {
        assert(i0 == i0s);
        let f = view_start as int / cw as int;
        lemma_mul_inequality(i0s, f, cw as int);
        lemma_mul_is_commutative(f, cw as int);
        lemma_mul_inequality(-1, i0s, cw as int);
        assert(i0s * cw <= view_start);
        assert(-(cw as int) <= i0s * cw);
        if f > 0 {
            vstd::arithmetic::mul::lemma_mul_increases(cw as int, f);
            lemma_mul_is_commutative(cw as int, f);
        }
        assert(i0s <= view_start);
    }
    let left0 = i0 * cw;
    proof {
        if i0 >= 0 {
            lemma_mul_inequality(byte_size as int, cw as int, i0 as int);
            lemma_mul_is_commutative(byte_size as int, i0 as int);
            lemma_mul_is_commutative(cw as int, i0 as int);
        } else {
            assert(i0 == -1);
        }
    }
    let mut cells: Vec<GridCell> = Vec::new();
    cells.push(GridCell { index: i0, x: left0 - view_start, width: cw, address: i0 * byte_size });
    let mut i = i0;
    let mut left = left0;
    while left + cw <= view_end
        invariant
            0 <= view_start <= view_end <= MAX_VIEW as int,
            0 < byte_size <= MAX_BYTE_SIZE as int,
            0 < cell_width <= MAX_CELL_WIDTH as int,
            cw == byte_size * cell_width,
            byte_size <= cw <= 0x8000_0000_0000i64,
            i0s == spec_first_index(view_start as int, cw as int),
            -1 <= i0s <= i,
            i <= view_end,
            i0s * cw <= view_start,
            left == i * cw,
            -(cw as int) <= left <= view_end,
            cells@.len() == i - i0s + 1,
            forall|k: int|
                0 <= k < cells@.len() ==> {
                    &&& (#[trigger] cells@[k]).index == i0s + k
                    &&& cells@[k].width == cw
                    &&& cells@[k].x == cells@[k].index * cw - view_start
                    &&& cells@[k].address == cells@[k].index * byte_size
                },
            forall|k: int|
                0 <= k < cells@.len() - 1 ==> ((#[trigger] cells@[k]).index + 1) * cw <= view_end,
        decreases view_end - left,
    {
        i = i + 1;
        left = left + cw;
        proof {
            lemma_mul_is_distributive_add_other_way(cw as int, i as int - 1, 1);
            assert(i as int * cw == (i as int - 1) * cw + cw);
            lemma_mul_inequality(byte_size as int, cw as int, i as int);
            lemma_mul_is_commutative(byte_size as int, i as int);
            lemma_mul_is_commutative(cw as int, i as int);
            if i > 0 {
                vstd::arithmetic::mul::lemma_mul_increases(cw as int, i as int);
            }
        }
        cells.push(GridCell { index: i, x: left - view_start, width: cw, address: i * byte_size });
    }
    proof {
        lemma_mul_is_distributive_add_other_way(cw as int, i as int, 1);
        assert((i as int + 1) * cw == i as int * cw + cw);
        assert forall|k: int|
            0 <= k < cells@.len() - 1 implies (#[trigger] cells@[k]).x + cw == cells@[k + 1].x by {
            lemma_mul_is_distributive_add_other_way(cw as int, i0s + k, 1);
        }
    }
    cells
}

/// The visible cells of the structure tier, whose bytes-per-cell equals the
/// structure's total size.  An empty structure (total size 0) has no cells
/// at all rather than a division by zero.
pub fn struct_tier_cells(
    total_size: usize,
    view_start: i64,
    view_end: i64,
    cell_width: i64,
) -> (r: Vec<GridCell>)
    requires
        total_size as int <= MAX_BYTE_SIZE as int,
        0 <= view_start <= view_end <= MAX_VIEW as int,
        0 < cell_width <= MAX_CELL_WIDTH as int,
    ensures
        total_size == 0 ==> r@.len() == 0,
        total_size > 0 ==> cells_ok(
            r@,
            view_start as int,
            view_end as int,
            total_size as int,
            cell_width as int,
        ),
{
    if total_size == 0 {
        Vec::new()
    } else {
        visible_cells(view_start, view_end, total_size as i64, cell_width)
    }
}

/// One block of the structure overlay drawn inside a structure-tier cell: a
/// field's or padding span's pixel extent and the byte address it starts at.
#[derive(Clone, Copy, PartialEq, Eq, Structural, Debug)]
pub struct OverlayBlock {
    pub is_padding: bool,
    pub field_index: usize,
    pub x0: i64,
    pub x1: i64,
    pub address: i64,
}

/// Largest pixel magnitude accepted for a cell's base position or address;
/// every coordinate `visible_cells` emits stays well inside it.
pub const MAX_BASE: i64 = 0x1_0000_0000_0000;

/// The overlay blocks of one structure-tier cell: one block per field slot
/// (in declaration order, first) and one per padding span (in address order,
/// after them), each placed at `cell_width` pixels per byte from the cell's
/// left edge `base_x`, with the byte address `base_address` plus the span's
/// offset.  Blocks never overlap on screen, so the emission order does not
/// affect the rendered result.
pub fn overlay_blocks(
    layout: &LayoutResult,
    base_x: i64,
    base_address: i64,
    cell_width: i64,
) -> (r: Vec<OverlayBlock>)
    requires
        layout.total_size as int <= MAX_BYTE_SIZE as int,
        forall|i: int|
            0 <= i < layout.fields@.len() ==> (#[trigger] layout.fields@[i]).offset
                + layout.fields@[i].size <= layout.total_size,
        forall|j: int|
            0 <= j < layout.padding@.len() ==> (#[trigger] layout.padding@[j]).start
                + layout.padding@[j].len <= layout.total_size,
        -MAX_BASE as int <= base_x <= MAX_BASE as int,
        -MAX_BASE as int <= base_address <= MAX_BASE as int,
        0 < cell_width <= MAX_CELL_WIDTH as int,
    ensures
        r@.len() == layout.fields@.len() + layout.padding@.len(),
        forall|i: int|
            0 <= i < layout.fields@.len() ==> {
                &&& !(#[trigger] r@[i]).is_padding
                &&& r@[i].field_index == i
                &&& r@[i].x0 == base_x + cell_width * layout.fields@[i].offset
                &&& r@[i].x1 == base_x + cell_width * (layout.fields@[i].offset
                    + layout.fields@[i].size)
                &&& r@[i].address == base_address + layout.fields@[i].offset
            },
        forall|j: int|
            0 <= j < layout.padding@.len() ==> {
                &&& (#[trigger] r@[layout.fields@.len() + j]).is_padding
                &&& r@[layout.fields@.len() + j].field_index == 0
                &&& r@[layout.fields@.len() + j].x0 == base_x + cell_width
                    * layout.padding@[j].start
                &&& r@[layout.fields@.len() + j].x1 == base_x + cell_width * (
                layout.padding@[j].start + layout.padding@[j].len)
                &&& r@[layout.fields@.len() + j].address == base_address
                    + layout.padding@[j].start
            },
{
    let mut blocks: Vec<OverlayBlock> = Vec::new();
    let nf = layout.fields.len();
    let np = layout.padding.len();
    let mut i: usize = 0;
    while i < nf
        invariant
            nf == layout.fields@.len(),
            layout.total_size as int <= MAX_BYTE_SIZE as int,
            forall|k: int|
                0 <= k < nf ==> (#[trigger] layout.fields@[k]).offset + layout.fields@[k].size
                    <= layout.total_size,
            -MAX_BASE as int <= base_x <= MAX_BASE as int,
            -MAX_BASE as int <= base_address <= MAX_BASE as int,
            0 < cell_width <= MAX_CELL_WIDTH as int,
            0 <= i <= nf,
            blocks@.len() == i,
            forall|k: int|
                0 <= k < i ==> {
                    &&& !(#[trigger] blocks@[k]).is_padding
                    &&& blocks@[k].field_index == k
                    &&& blocks@[k].x0 == base_x + cell_width * layout.fields@[k].offset
                    &&& blocks@[k].x1 == base_x + cell_width * (layout.fields@[k].offset
                        + layout.fields@[k].size)
                    &&& blocks@[k].address == base_address + layout.fields@[k].offset
                },
        decreases nf - i,
    {
        let slot = layout.fields[i];
        proof {
            lemma_mul_nonnegative(cell_width as int, slot.offset as int);
            lemma_mul_upper_bound(
                cell_width as int,
                MAX_CELL_WIDTH as int,
                slot.offset as int,
                MAX_BYTE_SIZE as int,
            );
            lemma_mul_nonnegative(cell_width as int, slot.offset as int + slot.size as int);
            lemma_mul_upper_bound(
                cell_width as int,
                MAX_CELL_WIDTH as int,
                slot.offset as int + slot.size as int,
                MAX_BYTE_SIZE as int,
            );
        }
        let x0 = base_x + cell_width * (slot.offset as i64);
        let x1 = base_x + cell_width * ((slot.offset + slot.size) as i64);
        blocks.push(
            OverlayBlock {
                is_padding: false,
                field_index: i,
                x0,
                x1,
                address: base_address + (slot.offset as i64),
            },
        );
        i = i + 1;
    }
    let mut j: usize = 0;
    while j < np
        invariant
            nf == layout.fields@.len(),
            np == layout.padding@.len(),
            layout.total_size as int <= MAX_BYTE_SIZE as int,
            forall|k: int|
                0 <= k < np ==> (#[trigger] layout.padding@[k]).start + layout.padding@[k].len
                    <= layout.total_size,
            -MAX_BASE as int <= base_x <= MAX_BASE as int,
            -MAX_BASE as int <= base_address <= MAX_BASE as int,
            0 < cell_width <= MAX_CELL_WIDTH as int,
            0 <= j <= np,
            blocks@.len() == nf + j,
            forall|k: int|
                0 <= k < nf ==> {
                    &&& !(#[trigger] blocks@[k]).is_padding
                    &&& blocks@[k].field_index == k
                    &&& blocks@[k].x0 == base_x + cell_width * layout.fields@[k].offset
                    &&& blocks@[k].x1 == base_x + cell_width * (layout.fields@[k].offset
                        + layout.fields@[k].size)
                    &&& blocks@[k].address == base_address + layout.fields@[k].offset
                },
            forall|k: int|
                0 <= k < j ==> {
                    &&& (#[trigger] blocks@[nf + k]).is_padding
                    &&& blocks@[nf + k].field_index == 0
                    &&& blocks@[nf + k].x0 == base_x + cell_width * layout.padding@[k].start
                    &&& blocks@[nf + k].x1 == base_x + cell_width * (layout.padding@[k].start
                        + layout.padding@[k].len)
                    &&& blocks@[nf + k].address == base_address + layout.padding@[k].start
                },
        decreases np - j,
    {
        let pad = layout.padding[j];
        proof {
            lemma_mul_nonnegative(cell_width as int, pad.start as int);
            lemma_mul_upper_bound(
                cell_width as int,
                MAX_CELL_WIDTH as int,
                pad.start as int,
                MAX_BYTE_SIZE as int,
            );
            lemma_mul_nonnegative(cell_width as int, pad.start as int + pad.len as int);
            lemma_mul_upper_bound(
                cell_width as int,
                MAX_CELL_WIDTH as int,
                pad.start as int + pad.len as int,
                MAX_BYTE_SIZE as int,
            );
        }
        let x0 = base_x + cell_width * (pad.start as i64);
        let x1 = base_x + cell_width * ((pad.start + pad.len) as i64);
        blocks.push(
            OverlayBlock {
                is_padding: true,
                field_index: 0,
                x0,
                x1,
                address: base_address + (pad.start as i64),
            },
        );
        j = j + 1;
    }
    blocks
}

/// Whether a cell gets the first of the two alternating band colors: cells
/// of even index do, so neighboring cells always differ.
pub fn cell_is_even(index: i64) -> (r: bool)
    ensures
        r == (index as int % 2 == 0),
{
    index % 2 == 0
}

/// Label size tier for a cell label: tier 0 is the largest type size and
/// tier 4 the smallest, shrinking as the index magnitude grows on the
/// finest-grained level so long addresses stay inside their cell.
pub open spec fn spec_label_tier(index: int, level: int) -> int {
    if index < 1000 || level > 0 {
        0
    } else if index < 10000 {
        1
    } else if index < 100000 {
        2
    } else if index < 1000000 {
        3
    } else {
        4
    }
}

/// Which of the five label size tiers the cell at `index` on grid level
/// `level` uses (level 0 is the one-byte level).
pub fn label_size_tier(index: i64, level: usize) -> (r: u8)
    ensures
        r as int == spec_label_tier(index as int, level as int),
{
    if index < 1000 || level > 0 {
        0
    } else if index < 10000 {
        1
    } else if index < 100000 {
        2
    } else if index < 1000000 {
        3
    } else {
        4
    }
}

} // verus!
