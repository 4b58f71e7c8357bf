use vstd::prelude::*;
use crate::pos::Pos;

verus! {

/// A point on the screen, measured in quarter-pixel units.
///
/// The isometric transform scales grid coordinates by halves and quarters of
/// the tile size. Measuring screen space in quarters of a pixel keeps every
/// transform exact for any whole-pixel tile size.
#[derive(Clone, Copy, Debug, PartialEq, Eq, Hash, Structural)]
pub struct ScreenPoint {
    pub x: i64,
    pub y: i64,
}

/// A screen placement for a sprite: a point plus its paint order.
///
/// `z_order` is not a spatial coordinate; it only sequences overlapping
/// sprites. It is held scaled by a thousand so the offsets stay whole.
#[derive(Clone, Copy, Debug, PartialEq, Eq, Hash, Structural)]
pub struct ScreenPos {
    pub x: i64,
    pub y: i64,
    pub z_order: i64,
}

/// Horizontal screen coordinate of a grid position, in quarter-pixels,
/// relative to the map origin: `0.5 * tile_size * (x - z)` in pixels.
pub open spec fn spec_screen_x(ts: int, p: Pos) -> int {
    2 * ts * (p.x - p.z)
}

/// Vertical screen coordinate of a grid position, in quarter-pixels, relative
/// to the map origin: `-0.25 * tile_size * (x + z) + 0.5 * tile_size * y` in
/// pixels, where `y` is the elevation in tiles.
pub open spec fn spec_screen_y(ts: int, p: Pos) -> int {
    -ts * (p.x + p.z) + ts * p.y_half
}

/// Paint order of a grid position, in thousandths: farther or lower tiles
/// sort before nearer or higher ones, so they never occlude them.
pub open spec fn spec_z_order(p: Pos) -> int {
    -p.x - 10 * p.z + 5 * p.y_half
}

/// Vertical screen offset produced by elevation alone, in quarter-pixels:
/// half a tile of lift per whole elevation step.
pub open spec fn spec_elevation_offset(ts: int, y_half: int) -> int {
    ts * y_half
}

/// Grid `x` recovered from a ground-level screen point relative to the map
/// origin: the linear part of the forward transform inverted, floored to a
/// whole cell. In spec arithmetic `/` rounds toward negative infinity for a
/// positive divisor.
pub open spec fn spec_world_x(ts: int, sx: int, sy: int) -> int {
    (sx - 2 * sy) / (4 * ts)
}

/// Grid `z` recovered from a ground-level screen point relative to the map
/// origin.
pub open spec fn spec_world_z(ts: int, sx: int, sy: int) -> int {
    (-sx - 2 * sy) / (4 * ts)
}

/// Floor division: the unique `q` with `q * b <= a < (q + 1) * b`.
pub fn div_floor(a: i64, b: i64) -> (q: i64)
    requires
        0 < b,
        -0x4000_0000_0000_0000 < a < 0x4000_0000_0000_0000,
    ensures
        q == a as int / b as int,
{
    let bu: u64 = b as u64;
    if a >= 0 {
        let q0: u64 = (a as u64) / bu;
        proof {
            vstd::arithmetic::div_mod::lemma_fundamental_div_mod(a as int, b as int);
        }
        (q0 as i64)
    } else {
        let m: u64 = (-a) as u64;
        let q0: u64 = m / bu;
        let r: u64 = m % bu;
        proof {
            vstd::arithmetic::div_mod::lemma_fundamental_div_mod(m as int, b as int);
            vstd::arithmetic::div_mod::lemma_div_nonincreasing(m as int, b as int);
            vstd::arithmetic::div_mod::lemma_div_pos_is_pos(m as int, b as int);
            assert(m as int == b * (q0 as int) + r);
            if r == 0 {
                assert(a as int == -(q0 as int) * b + 0) by (nonlinear_arith)
                    requires
                        m as int == b * (q0 as int) + 0,
                        a as int == -(m as int),
                ;
                vstd::arithmetic::div_mod::lemma_fundamental_div_mod_converse(
                    a as int,
                    b as int,
                    -(q0 as int),
                    0,
                );
            } else {
                assert(a as int == (-(q0 as int) - 1) * b + (b - r)) by (nonlinear_arith)
                    requires
                        m as int == b * (q0 as int) + r,
                        a as int == -(m as int),
                ;
                vstd::arithmetic::div_mod::lemma_fundamental_div_mod_converse(
                    a as int,
                    b as int,
                    -(q0 as int) - 1,
                    b - r,
                );
            }
        }
        if r == 0 {
            -(q0 as i64)
        } else {
            -(q0 as i64) - 1
        }
    }
}

/// The transform is exact: mapping a grid position to the screen and back,
/// after removing the elevation lift, returns the very cell. The elevation
/// itself cannot be read back from the plain inverse; picking resolves it by
/// searching elevations.
pub proof fn lemma_world_screen_round_trip(ts: int, p: Pos)
    requires
        0 < ts,
    ensures
        spec_world_x(ts, spec_screen_x(ts, p), spec_screen_y(ts, p) - spec_elevation_offset(ts, p.y_half as int)) == p.x,
        spec_world_z(ts, spec_screen_x(ts, p), spec_screen_y(ts, p) - spec_elevation_offset(ts, p.y_half as int)) == p.z,
{
    let sx = spec_screen_x(ts, p);
    let sy = spec_screen_y(ts, p) - spec_elevation_offset(ts, p.y_half as int);
    assert(sx - 2 * sy == p.x * (4 * ts)) by (nonlinear_arith)
        requires
            sx == 2 * ts * (p.x - p.z),
            sy == -ts * (p.x + p.z),
    ;
    assert(-sx - 2 * sy == p.z * (4 * ts)) by (nonlinear_arith)
        requires
            sx == 2 * ts * (p.x - p.z),
            sy == -ts * (p.x + p.z),
    ;
    vstd::arithmetic::div_mod::lemma_fundamental_div_mod_converse(sx - 2 * sy, 4 * ts, p.x as int, 0);
    vstd::arithmetic::div_mod::lemma_fundamental_div_mod_converse(-sx - 2 * sy, 4 * ts, p.z as int, 0);
}

} // verus!
