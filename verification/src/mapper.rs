//! Rescaling of boxes from network input space to frame pixels.

use vstd::prelude::*;
use crate::fixed::{lemma_round_half_away_nearest, round_half_away, round_ratio, UNIT};
use crate::tensor::NetBox;

verus! {

/// Size of the current source frame, in pixels.
#[derive(Debug, Clone, Copy, PartialEq, Eq, Structural)]
pub struct MatInfo {
    pub width: u32,
    pub height: u32,
}

/// Resolution of the network's input, in pixels.
#[derive(Debug, Clone, Copy, PartialEq, Eq, Structural)]
pub struct NetworkInput {
    pub width: u32,
    pub height: u32,
}

/// A box in frame space, by corner and size, in whole pixels. Nothing keeps
/// it inside the frame: the corner may be negative and the box may reach
/// beyond the frame's extent.
#[derive(Debug, Clone, Copy, PartialEq, Eq, Structural)]
pub struct PixelBox {
    pub x: i64,
    pub y: i64,
    pub width: i64,
    pub height: i64,
}

/// No mapped coordinate or size exceeds this in magnitude.
pub const PIXEL_LIMIT: i64 = 0x8_0000_0000_0000;

impl PixelBox {
    /// No coordinate or size exceeds `PIXEL_LIMIT` in magnitude.
    pub open spec fn in_range(&self) -> bool {
        &&& -PIXEL_LIMIT <= self.x <= PIXEL_LIMIT
        &&& -PIXEL_LIMIT <= self.y <= PIXEL_LIMIT
        &&& -PIXEL_LIMIT <= self.width <= PIXEL_LIMIT
        &&& -PIXEL_LIMIT <= self.height <= PIXEL_LIMIT
    }

    /// Whether all four quantities are within `PIXEL_LIMIT`.
    pub fn is_in_range(&self) -> (b: bool)
        ensures
            b == self.in_range(),
    {
        -PIXEL_LIMIT <= self.x && self.x <= PIXEL_LIMIT && -PIXEL_LIMIT <= self.y && self.y
            <= PIXEL_LIMIT && -PIXEL_LIMIT <= self.width && self.width <= PIXEL_LIMIT
            && -PIXEL_LIMIT <= self.height && self.height <= PIXEL_LIMIT
    }
}

impl NetworkInput {
    /// Both sides are at least one pixel long.
    pub open spec fn valid(&self) -> bool {
        self.width > 0 && self.height > 0
    }

    /// Whether both sides are at least one pixel long.
    pub fn is_valid(&self) -> (b: bool)
        ensures
            b == self.valid(),
    {
        self.width > 0 && self.height > 0
    }
}

/// The low corner of a box along one axis: `(centre - size / 2) * frame / net`,
/// where `centre` and `size` count steps of `1 / UNIT`, rounded to whole
/// pixels.
pub open spec fn map_corner(centre: int, size: int, frame: int, net: int) -> int {
    round_half_away((2 * centre - size) * frame, 2 * net * UNIT)
}

/// The size of a box along one axis: `size * frame / net`, where `size`
/// counts steps of `1 / UNIT`, rounded to whole pixels.
pub open spec fn map_extent(size: int, frame: int, net: int) -> int {
    round_half_away(size * frame, net * UNIT)
}

/// The frame-space box of a network-space box. Each of the four quantities
/// is rounded by itself. For a valid network input all four lie within
/// `PIXEL_LIMIT`, so they are stored as they are.
pub open spec fn mapped(b: NetBox, frame: MatInfo, net: NetworkInput) -> PixelBox {
    PixelBox {
        x: map_corner(b.cx as int, b.w as int, frame.width as int, net.width as int) as i64,
        y: map_corner(b.cy as int, b.h as int, frame.height as int, net.height as int) as i64,
        width: map_extent(b.w as int, frame.width as int, net.width as int) as i64,
        height: map_extent(b.h as int, frame.height as int, net.height as int) as i64,
    }
}

/// A rounded ratio is bounded by the numerator's bound divided by the least
/// denominator, plus one.
proof fn lemma_round_bounded(num: int, den: int, bound: int, least: int)
    requires
        0 < least <= den,
        -bound * least <= num <= bound * least,
        bound >= 0,
    ensures
        -bound - 1 <= round_half_away(num, den) <= bound + 1,
{
    let q = round_half_away(num, den);
    lemma_round_half_away_nearest(num, den);
    if q > bound + 1 {
        assert((q - 1) * den >= (bound + 1) * least) by (nonlinear_arith)
            requires
                q - 1 >= bound + 1,
                bound >= 0,
                0 < least <= den,
        ;
        assert((bound + 1) * least == bound * least + least) by (nonlinear_arith);
        assert((q - 1) * den == q * den - den) by (nonlinear_arith);
    }
    if q < -bound - 1 {
        assert((q + 1) * den <= (-bound - 1) * least) by (nonlinear_arith)
            requires
                q + 1 <= -bound - 1,
                bound >= 0,
                0 < least <= den,
        ;
        assert((-bound - 1) * least == -bound * least - least) by (nonlinear_arith);
        assert((q + 1) * den == q * den + den) by (nonlinear_arith);
    }
}

/// Along one axis every mapped corner and size lies within `PIXEL_LIMIT`.
pub proof fn lemma_axis_in_range(centre: i32, size: i32, frame: u32, net: u32)
    requires
        net > 0,
    ensures
        -PIXEL_LIMIT <= map_corner(centre as int, size as int, frame as int, net as int)
            <= PIXEL_LIMIT,
        -PIXEL_LIMIT <= map_extent(size as int, frame as int, net as int) <= PIXEL_LIMIT,
        2 * net * UNIT == 2 * (net * UNIT),
        0 < net * UNIT <= 0xffff_ffff * 10000,
{
    let bound: int = 0x7_0000_0000_0000;
    assert(-bound * 20000 <= (2 * centre - size) * frame <= bound * 20000) by (nonlinear_arith)
        requires
            -0x8000_0000 <= centre <= 0x7fff_ffff,
            -0x8000_0000 <= size <= 0x7fff_ffff,
            0 <= frame <= 0xffff_ffff,
            bound == 0x7_0000_0000_0000,
    ;
    assert(-bound * 10000 <= size * frame <= bound * 10000) by (nonlinear_arith)
        requires
            -0x8000_0000 <= size <= 0x7fff_ffff,
            0 <= frame <= 0xffff_ffff,
            bound == 0x7_0000_0000_0000,
    ;
    assert(2 * net * UNIT >= 20000 && net * UNIT >= 10000 && net * UNIT <= 0xffff_ffff * 10000)
        by (nonlinear_arith)
        requires
            1 <= net <= 0xffff_ffff,
            UNIT == 10000,
    ;
    assert(2 * net * UNIT == 2 * (net * UNIT)) by (nonlinear_arith);
    lemma_round_bounded((2 * centre - size) * frame, 2 * net * UNIT, bound, 20000);
    lemma_round_bounded(size * frame, net * UNIT, bound, 10000);
}

/// A mapped box lies within `PIXEL_LIMIT`, and its fields are the rounded
/// quantities themselves.
pub proof fn lemma_mapped_in_range(b: NetBox, frame: MatInfo, net: NetworkInput)
    requires
        net.valid(),
    ensures
        mapped(b, frame, net).in_range(),
        mapped(b, frame, net).x == map_corner(
            b.cx as int,
            b.w as int,
            frame.width as int,
            net.width as int,
        ),
        mapped(b, frame, net).y == map_corner(
            b.cy as int,
            b.h as int,
            frame.height as int,
            net.height as int,
        ),
        mapped(b, frame, net).width == map_extent(b.w as int, frame.width as int, net.width as int),
        mapped(b, frame, net).height == map_extent(
            b.h as int,
            frame.height as int,
            net.height as int,
        ),
{
    lemma_axis_in_range(b.cx, b.w, frame.width, net.width);
    lemma_axis_in_range(b.cy, b.h, frame.height, net.height);
}

/// Maps one axis: the rounded corner and the rounded size.
fn map_axis(centre: i32, size: i32, frame: u32, net: u32) -> (res: (i64, i64))
    requires
        net > 0,
    ensures
        res.0 == map_corner(centre as int, size as int, frame as int, net as int),
        res.1 == map_extent(size as int, frame as int, net as int),
{
    let doubled: i128 = 2 * (centre as i128) - (size as i128);
    let unit: u128 = UNIT as u128;
    let den: u128 = (net as u128) * unit;
    proof {
        lemma_axis_in_range(centre, size, frame, net);
        assert(-0x2_0000_0000_0000_0000 <= (2 * centre - size) * frame <= 0x2_0000_0000_0000_0000
            && -0x2_0000_0000_0000_0000 <= size * frame <= 0x2_0000_0000_0000_0000)
            by (nonlinear_arith)
            requires
                -0x8000_0000 <= centre <= 0x7fff_ffff,
                -0x8000_0000 <= size <= 0x7fff_ffff,
                0 <= frame <= 0xffff_ffff,
        ;
    }
    let corner: i128 = round_ratio(doubled * (frame as i128), 2 * den);
    let extent: i128 = round_ratio((size as i128) * (frame as i128), den);
    (corner as i64, extent as i64)
}

/// Maps a box from network input space into frame pixels.
///
/// With `scale_x = frame.width / net.width` and `scale_y` alike, the corner
/// is `round((cx - w / 2) * scale_x)`, `round((cy - h / 2) * scale_y)` and the
/// size is `round(w * scale_x)`, `round(h * scale_y)`, halves rounded away
/// from zero. The result is not clamped to the frame.
pub fn map_box(b: &NetBox, frame: &MatInfo, net: &NetworkInput) -> (p: PixelBox)
    requires
        net.valid(),
    ensures
        p == mapped(*b, *frame, *net),
        p.in_range(),
{
    proof {
        lemma_mapped_in_range(*b, *frame, *net);
    }
    let (x, width) = map_axis(b.cx, b.w, frame.width, net.width);
    let (y, height) = map_axis(b.cy, b.h, frame.height, net.height);
    PixelBox { x, y, width, height }
}

} // verus!
