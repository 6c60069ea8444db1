//! Integer glyph geometry: the coordinate remapper that carries font-unit
//! points into the square output canvas, and the square padding of a glyph
//! bounding box that precedes it.
//!
//! All coordinates are signed integers (font units are integral, and the
//! output canvas is an integer grid); the remapped value is the floor of the
//! exact rational image, so a point inside the input rectangle always lands
//! inside the output rectangle.

use vstd::prelude::*;
use vstd::arithmetic::div_mod::{
    lemma_div_pos_is_pos, lemma_div_is_ordered, lemma_div_multiples_vanish,
};

verus! {

/// Every coordinate handled by the remapper lies within this bound.
pub const COORD_BOUND: i64 = 0x4000_0000;

/// Every raw bounding-box coordinate lies within this tighter bound, so that
/// square padding stays within `COORD_BOUND`.
pub const BBOX_BOUND: i64 = 0x1000_0000;

#[derive(Clone, Copy, Debug)]
pub struct Vector {
    pub x: i64,
    pub y: i64,
}

#[derive(Clone, Copy, Debug)]
pub struct Rect {
    pub start: Vector,
    pub end: Vector,
}

impl Default for Vector {
    /// The origin.
    fn default() -> (r: Vector)
        ensures
            r.x == 0,
            r.y == 0,
    {
        Vector { x: 0, y: 0 }
    }
}

impl Vector {
    /// The rectangle from the origin to this vector.
    pub fn into_absolute_rect(self) -> (r: Rect)
        ensures
            r.start.x == 0,
            r.start.y == 0,
            r.end == self,
    {
        Rect { start: Vector { x: 0, y: 0 }, end: self }
    }
}

pub open spec fn in_coord_range(v: int) -> bool {
    -COORD_BOUND <= v <= COORD_BOUND
}

pub open spec fn rect_in_range(r: Rect) -> bool {
    &&& in_coord_range(r.start.x as int)
    &&& in_coord_range(r.start.y as int)
    &&& in_coord_range(r.end.x as int)
    &&& in_coord_range(r.end.y as int)
}

/// A rectangle usable as a remap input or output: bounded, with positive
/// spans on both axes.
pub open spec fn rect_proper(r: Rect) -> bool {
    &&& rect_in_range(r)
    &&& r.start.x < r.end.x
    &&& r.start.y < r.end.y
}

/// Floor of the exact quotient `num / den` for a positive divisor.
pub open spec fn floor_div(num: int, den: int) -> int {
    if num >= 0 {
        num / den
    } else {
        -(((-num) + den - 1) / den)
    }
}

/// Floor division of a bounded numerator by a positive divisor.
pub fn div_floor(num: i64, den: i64) -> (q: i64)
    requires
        den > 0,
        -0x4000_0000_0000_0000 <= num <= 0x4000_0000_0000_0000,
    ensures
        q == floor_div(num as int, den as int),
        -0x4000_0000_0000_0000 <= q <= 0x4000_0000_0000_0000,
{
    if num >= 0 {
        let q = (num as u64) / (den as u64);
        proof {
            lemma_div_pos_is_pos(num as int, den as int);
            lemma_div_is_ordered(num as int, 0x4000_0000_0000_0000, den as int);
            lemma_div_multiples_vanish(0x4000_0000_0000_0000, den as int);
            assert(num as int / den as int <= 0x4000_0000_0000_0000int / den as int);
            assert((0x4000_0000_0000_0000int * (den as int)) / (den as int)
                == 0x4000_0000_0000_0000int);
            lemma_div_is_ordered(
                0x4000_0000_0000_0000,
                0x4000_0000_0000_0000int * den,
                den as int,
            );
            assert(0x4000_0000_0000_0000int <= 0x4000_0000_0000_0000int * den) by (
            nonlinear_arith)
                requires
                    den >= 1,
            ;
        }
        q as i64
    } else {
        let m = (-num) as u64;
        let d = den as u64;
        let q = (m + d - 1) / d;
        proof {
            let mi = m as int;
            let di = d as int;
            let qi = (mi + di - 1) / di;
            lemma_div_pos_is_pos(mi + di - 1, di);
            assert(mi + di - 1 <= mi * di) by (nonlinear_arith)
                requires
                    mi >= 1,
                    di >= 1,
            ;
            lemma_div_is_ordered(mi + di - 1, mi * di, di);
            lemma_div_multiples_vanish(mi, di);
            assert(qi <= mi);
        }
        -(q as i64)
    }
}

/// Remap of one axis coordinate: affine carry of `v` from
/// `[in_lo, in_hi]` onto `[out_lo, out_hi]`, rounded down.
pub open spec fn remap_coord(v: int, in_lo: int, in_hi: int, out_lo: int, out_hi: int) -> int {
    out_lo + floor_div((v - in_lo) * (out_hi - out_lo), in_hi - in_lo)
}

/// Remap of a point: the x axis is carried directly, the y axis is inverted,
/// font coordinates growing upward and canvas coordinates growing downward.
pub open spec fn remap_x_spec(x: int, input: Rect, output: Rect) -> int {
    remap_coord(
        x,
        input.start.x as int,
        input.end.x as int,
        output.start.x as int,
        output.end.x as int,
    )
}

pub open spec fn remap_y_spec(y: int, input: Rect, output: Rect) -> int {
    remap_coord(
        input.end.y - y,
        0,
        input.end.y - input.start.y,
        output.start.y as int,
        output.end.y as int,
    )
}

/// Carry the point `(x, y)` from the input rectangle onto the output
/// rectangle, inverting the y axis.
pub fn remap_point(x: i64, y: i64, input: &Rect, output: &Rect) -> (r: (i64, i64))
    requires
        rect_proper(*input),
        rect_proper(*output),
        in_coord_range(x as int),
        in_coord_range(y as int),
    ensures
        r.0 == remap_x_spec(x as int, *input, *output),
        r.1 == remap_y_spec(y as int, *input, *output),
        -0x4800_0000_0000_0000 <= r.0 <= 0x4800_0000_0000_0000,
        -0x4800_0000_0000_0000 <= r.1 <= 0x4800_0000_0000_0000,
{
    let dx: i64 = x - input.start.x;
    let ox: i64 = output.end.x - output.start.x;
    proof {
        assert(-0x4000_0000_0000_0000 <= dx as int * ox as int <= 0x4000_0000_0000_0000) by (
        nonlinear_arith)
            requires
                -0x8000_0000 <= dx as int <= 0x8000_0000,
                0 <= ox as int <= 0x8000_0000,
        ;
    }
    let num_x: i64 = dx * ox;
    let qx = div_floor(num_x, input.end.x - input.start.x);
    let rx = output.start.x + qx;
    let dy: i64 = input.end.y - y;
    let oy: i64 = output.end.y - output.start.y;
    proof {
        assert(-0x4000_0000_0000_0000 <= dy as int * oy as int <= 0x4000_0000_0000_0000) by (
        nonlinear_arith)
            requires
                -0x8000_0000 <= dy as int <= 0x8000_0000,
                0 <= oy as int <= 0x8000_0000,
        ;
    }
    let num_y: i64 = dy * oy;
    let qy = div_floor(num_y, input.end.y - input.start.y);
    let ry = output.start.y + qy;
    (rx, ry)
}

/// A point of the input rectangle lands in the output rectangle.
pub proof fn lemma_remap_coord_in_bounds(v: int, in_lo: int, in_hi: int, out_lo: int, out_hi: int)
    requires
        in_lo <= v <= in_hi,
        in_lo < in_hi,
        out_lo <= out_hi,
    ensures
        out_lo <= remap_coord(v, in_lo, in_hi, out_lo, out_hi) <= out_hi,
{
    let num = (v - in_lo) * (out_hi - out_lo);
    let den = in_hi - in_lo;
    assert((v - in_lo) * (out_hi - out_lo) >= 0) by (nonlinear_arith)
        requires
            v >= in_lo,
            out_hi >= out_lo,
    ;
    assert((v - in_lo) * (out_hi - out_lo) <= (in_hi - in_lo) * (out_hi - out_lo)) by (
    nonlinear_arith)
        requires
            in_lo <= v <= in_hi,
            out_hi >= out_lo,
    ;
    lemma_div_pos_is_pos(num, den);
    lemma_div_is_ordered(num, den * (out_hi - out_lo), den);
    lemma_div_multiples_vanish(out_hi - out_lo, den);
    assert(floor_div(num, den) <= out_hi - out_lo);
    assert(floor_div(num, den) >= 0);
}

/// The fixed square output canvas: the origin to `(512, 512)`.
pub open spec fn out_rect() -> Rect {
    Rect { start: Vector { x: 0, y: 0 }, end: Vector { x: 512, y: 512 } }
}

/// The raw glyph bounding box in font units; possibly degenerate, never
/// inverted.
#[derive(Clone, Copy, Debug)]
pub struct BBox {
    pub x_min: i64,
    pub y_min: i64,
    pub x_max: i64,
    pub y_max: i64,
}

pub open spec fn bbox_wf(b: BBox) -> bool {
    &&& -BBOX_BOUND <= b.x_min <= b.x_max <= BBOX_BOUND
    &&& -BBOX_BOUND <= b.y_min <= b.y_max <= BBOX_BOUND
}

/// The longer side of the box.
pub open spec fn max_dim(b: BBox) -> int {
    let w = b.x_max - b.x_min;
    let h = b.y_max - b.y_min;
    if w >= h {
        w
    } else {
        h
    }
}

/// The box padded to a square of side `max_dim`, the shorter axis extended by
/// half the difference on each side (the odd unit going to the far side),
/// preserving centre alignment.
pub open spec fn padded_rect_spec(b: BBox) -> Rect {
    let m = max_dim(b);
    let px = (m - (b.x_max - b.x_min)) / 2;
    let py = (m - (b.y_max - b.y_min)) / 2;
    Rect {
        start: Vector { x: (b.x_min - px) as i64, y: (b.y_min - py) as i64 },
        end: Vector {
            x: (b.x_min - px + m) as i64,
            y: (b.y_min - py + m) as i64,
        },
    }
}

/// Every point of the padded input rectangle of a well-formed,
/// non-degenerate bounding box is carried into the square output canvas:
/// both remapped coordinates lie between 0 and 512.
pub proof fn lemma_remap_into_canvas(x: int, y: int, b: BBox)
    requires
        bbox_wf(b),
        max_dim(b) > 0,
        padded_rect_spec(b).start.x <= x <= padded_rect_spec(b).end.x,
        padded_rect_spec(b).start.y <= y <= padded_rect_spec(b).end.y,
    ensures
        0 <= remap_x_spec(x, padded_rect_spec(b), out_rect()) <= 512,
        0 <= remap_y_spec(y, padded_rect_spec(b), out_rect()) <= 512,
{
    let r = padded_rect_spec(b);
    lemma_div_pos_is_pos(max_dim(b) - (b.x_max - b.x_min), 2);
    lemma_div_pos_is_pos(max_dim(b) - (b.y_max - b.y_min), 2);
    lemma_remap_coord_in_bounds(x, r.start.x as int, r.end.x as int, 0, 512);
    lemma_remap_coord_in_bounds(r.end.y - y, 0, r.end.y - r.start.y, 0, 512);
}

/// Pad the bounding box to a square input rectangle.
pub fn padded_input_rect(b: &BBox) -> (r: Rect)
    requires
        bbox_wf(*b),
    ensures
        r == padded_rect_spec(*b),
        rect_in_range(r),
        r.end.x - r.start.x == max_dim(*b),
        r.end.y - r.start.y == max_dim(*b),
        max_dim(*b) > 0 ==> rect_proper(r),
{
    let w: i64 = b.x_max - b.x_min;
    let h: i64 = b.y_max - b.y_min;
    let m: i64 = if w >= h {
        w
    } else {
        h
    };
    let px: i64 = (m - w) / 2;
    let py: i64 = (m - h) / 2;
    let r = Rect {
        start: Vector { x: b.x_min - px, y: b.y_min - py },
        end: Vector { x: b.x_min - px + m, y: b.y_min - py + m },
    };
    proof {
        lemma_div_pos_is_pos(m - w, 2);
        lemma_div_pos_is_pos(m - h, 2);
        lemma_div_is_ordered(m - w, 2 * m, 2);
        lemma_div_is_ordered(m - h, 2 * m, 2);
        lemma_div_multiples_vanish(m as int, 2);
    }
    r
}

} // verus!
