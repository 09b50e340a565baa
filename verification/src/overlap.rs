//! Areas of boxes and the comparison of their overlap ratio with a threshold.

use vstd::prelude::*;
use crate::fixed::UNIT;
use crate::mapper::{PixelBox, PIXEL_LIMIT};

verus! {

impl PixelBox {
    /// The area covered. A box whose width or height is not positive covers
    /// nothing.
    pub open spec fn area(&self) -> int {
        if self.width > 0 && self.height > 0 {
            self.width * self.height
        } else {
            0
        }
    }
}

/// Length that the intervals `[a_lo, a_lo + a_len)` and `[b_lo, b_lo + b_len)`
/// have in common. An interval of non-positive length is empty.
pub open spec fn shared_length(a_lo: int, a_len: int, b_lo: int, b_len: int) -> int {
    let lo = if a_lo >= b_lo {
        a_lo
    } else {
        b_lo
    };
    let hi = if a_lo + a_len <= b_lo + b_len {
        a_lo + a_len
    } else {
        b_lo + b_len
    };
    if hi > lo {
        hi - lo
    } else {
        0
    }
}

/// Area that two boxes have in common.
pub open spec fn intersection_area(a: PixelBox, b: PixelBox) -> int {
    shared_length(a.x as int, a.width as int, b.x as int, b.width as int) * shared_length(
        a.y as int,
        a.height as int,
        b.y as int,
        b.height as int,
    )
}

/// Area that two boxes cover together.
pub open spec fn union_area(a: PixelBox, b: PixelBox) -> int {
    a.area() + b.area() - intersection_area(a, b)
}

/// Whether the ratio of intersection to union of two boxes is greater than
/// `nms_thresh / UNIT`. The ratio is compared exactly, by cross
/// multiplication; two boxes that cover nothing never overlap.
pub open spec fn overlaps(a: PixelBox, b: PixelBox, nms_thresh: int) -> bool {
    intersection_area(a, b) * UNIT > nms_thresh * union_area(a, b)
}

/// The overlap of two boxes does not depend on their order.
pub proof fn lemma_overlaps_symmetric(a: PixelBox, b: PixelBox, nms_thresh: int)
    ensures
        overlaps(a, b, nms_thresh) == overlaps(b, a, nms_thresh),
{
    assert(shared_length(b.x as int, b.width as int, a.x as int, a.width as int) == shared_length(
        a.x as int,
        a.width as int,
        b.x as int,
        b.width as int,
    ));
    assert(shared_length(b.y as int, b.height as int, a.y as int, a.height as int)
        == shared_length(a.y as int, a.height as int, b.y as int, b.height as int));
}

/// The intersection is part of each box, so it is no larger than the union.
pub proof fn lemma_intersection_bounds(a: PixelBox, b: PixelBox)
    ensures
        0 <= intersection_area(a, b) <= a.area(),
        intersection_area(a, b) <= b.area(),
        intersection_area(a, b) <= union_area(a, b),
{
    let sx = shared_length(a.x as int, a.width as int, b.x as int, b.width as int);
    let sy = shared_length(a.y as int, a.height as int, b.y as int, b.height as int);
    assert(0 <= sx * sy) by (nonlinear_arith)
        requires
            0 <= sx,
            0 <= sy,
    ;
    if sx > 0 && sy > 0 {
        assert(sx * sy <= a.width * a.height) by (nonlinear_arith)
            requires
                0 < sx <= a.width,
                0 < sy <= a.height,
        ;
        assert(sx * sy <= b.width * b.height) by (nonlinear_arith)
            requires
                0 < sx <= b.width,
                0 < sy <= b.height,
        ;
    } else {
        assert(sx * sy == 0) by (nonlinear_arith)
            requires
                sx == 0 || sy == 0,
        ;
        assert(0 <= a.area()) by (nonlinear_arith)
            requires
                a.area() == 0 || (a.area() == a.width * a.height && a.width > 0 && a.height > 0),
        ;
        assert(0 <= b.area()) by (nonlinear_arith)
            requires
                b.area() == 0 || (b.area() == b.width * b.height && b.width > 0 && b.height > 0),
        ;
    }
}

/// Boxes that share no area overlap under no threshold that is not negative.
pub proof fn lemma_disjoint_never_overlap(a: PixelBox, b: PixelBox, nms_thresh: int)
    requires
        intersection_area(a, b) == 0,
        nms_thresh >= 0,
    ensures
        !overlaps(a, b, nms_thresh),
{
    lemma_intersection_bounds(a, b);
    assert(nms_thresh * union_area(a, b) >= 0) by (nonlinear_arith)
        requires
            nms_thresh >= 0,
            union_area(a, b) >= 0,
    ;
}

/// Length shared by two intervals.
fn shared(a_lo: i64, a_len: i64, b_lo: i64, b_len: i64) -> (s: i128)
    requires
        -PIXEL_LIMIT <= a_lo <= PIXEL_LIMIT,
        -PIXEL_LIMIT <= a_len <= PIXEL_LIMIT,
        -PIXEL_LIMIT <= b_lo <= PIXEL_LIMIT,
        -PIXEL_LIMIT <= b_len <= PIXEL_LIMIT,
    ensures
        s == shared_length(a_lo as int, a_len as int, b_lo as int, b_len as int),
        0 <= s <= PIXEL_LIMIT,
{
    let lo: i64 = if a_lo >= b_lo {
        a_lo
    } else {
        b_lo
    };
    let a_hi: i64 = a_lo + a_len;
    let b_hi: i64 = b_lo + b_len;
    let hi: i64 = if a_hi <= b_hi {
        a_hi
    } else {
        b_hi
    };
    if hi > lo {
        (hi - lo) as i128
    } else {
        0
    }
}

/// Area of one box.
fn area_of(b: &PixelBox) -> (a: i128)
    requires
        b.in_range(),
    ensures
        a == b.area(),
        0 <= a <= PIXEL_LIMIT * PIXEL_LIMIT,
{
    if b.width > 0 && b.height > 0 {
        assert(0 <= b.width * b.height <= PIXEL_LIMIT * PIXEL_LIMIT) by (nonlinear_arith)
            requires
                0 < b.width <= PIXEL_LIMIT,
                0 < b.height <= PIXEL_LIMIT,
        ;
        (b.width as i128) * (b.height as i128)
    } else {
        0
    }
}

/// Decides whether two boxes overlap by more than `nms_thresh / UNIT` of
/// their union.
pub fn exceeds_overlap(a: &PixelBox, b: &PixelBox, nms_thresh: i32) -> (r: bool)
    requires
        a.in_range(),
        b.in_range(),
    ensures
        r == overlaps(*a, *b, nms_thresh as int),
{
    let sx: i128 = shared(a.x, a.width, b.x, b.width);
    let sy: i128 = shared(a.y, a.height, b.y, b.height);
    let area_a: i128 = area_of(a);
    let area_b: i128 = area_of(b);
    proof {
        lemma_intersection_bounds(*a, *b);
        assert(0 <= sx * sy <= PIXEL_LIMIT * PIXEL_LIMIT) by (nonlinear_arith)
            requires
                0 <= sx <= PIXEL_LIMIT,
                0 <= sy <= PIXEL_LIMIT,
        ;
        assert(PIXEL_LIMIT * PIXEL_LIMIT == 0x40_0000_0000_0000_0000_0000_0000) by (nonlinear_arith)
            requires
                PIXEL_LIMIT == 0x8_0000_0000_0000,
        ;
    }
    let inter: i128 = sx * sy;
    let union: i128 = area_a + area_b - inter;
    let ghost t = nms_thresh as int;
    if nms_thresh >= UNIT {
        assert(t * union >= inter * UNIT) by (nonlinear_arith)
            requires
                t >= UNIT,
                union >= inter,
                inter >= 0,
                UNIT > 0,
        ;
        false
    } else if nms_thresh < 0 {
        assert(union > 0 ==> t * union < 0) by (nonlinear_arith)
            requires
                t < 0,
        ;
        assert(union == 0 ==> t * union == 0 && inter * UNIT == 0) by (nonlinear_arith)
            requires
                0 <= inter <= union,
        ;
        assert(inter * UNIT >= 0) by (nonlinear_arith)
            requires
                inter >= 0,
                UNIT > 0,
        ;
        union > 0
    } else {
        assert(0 <= inter * UNIT <= 0x40_0000_0000_0000_0000_0000_0000 * 10000) by (nonlinear_arith)
            requires
                0 <= inter <= 0x40_0000_0000_0000_0000_0000_0000,
                UNIT == 10000,
        ;
        assert(0 <= t * union <= 10000 * (2 * 0x40_0000_0000_0000_0000_0000_0000))
            by (nonlinear_arith)
            requires
                0 <= t < 10000,
                0 <= union <= 2 * 0x40_0000_0000_0000_0000_0000_0000,
        ;
        inter * (UNIT as i128) > (nms_thresh as i128) * union
    }
}

} // verus!
