use vstd::prelude::*;

verus! {

/// Largest magnitude allowed for a grid coordinate (`x`, `z`, or the
/// elevation in half-steps). Keeping grid coordinates inside this range lets
/// every screen-space product fit comfortably in an `i64`.
pub const COORD_LIMIT: i64 = 1_000_000;

/// An exact 3D grid coordinate.
///
/// `x` runs SouthWest - NorthEast and `z` runs SouthEast - NorthWest, both in
/// whole tiles. Elevation moves in half-tile steps, so it is stored exactly as
/// `y_half`, the number of half-steps above ground: a tile at elevation 1.5
/// has `y_half == 3`. Equality is exact, field for field, which makes `Pos`
/// safe to use as a lookup key.
#[derive(Clone, Copy, Debug, PartialEq, Eq, Hash, Structural)]
pub struct Pos {
    pub x: i64,
    /// Elevation counted in half-steps (twice the elevation in tiles).
    pub y_half: i64,
    pub z: i64,
}

/// True when every coordinate of `p` is within the supported grid range.
pub open spec fn pos_in_range(p: Pos) -> bool {
    &&& -COORD_LIMIT <= p.x <= COORD_LIMIT
    &&& -COORD_LIMIT <= p.y_half <= COORD_LIMIT
    &&& -COORD_LIMIT <= p.z <= COORD_LIMIT
}

/// One grid step: exactly one of the four horizontal directions, with the
/// elevation staying level or changing by a single half-step.
pub open spec fn adjacent(p: Pos, q: Pos) -> bool {
    &&& {
        ||| (q.x == p.x + 1 && q.z == p.z)
        ||| (q.x == p.x - 1 && q.z == p.z)
        ||| (q.x == p.x && q.z == p.z + 1)
        ||| (q.x == p.x && q.z == p.z - 1)
    }
    &&& {
        ||| q.y_half == p.y_half
        ||| q.y_half == p.y_half + 1
        ||| q.y_half == p.y_half - 1
    }
}

/// Grid distance counted in half-steps: a whole tile of horizontal travel
/// counts 2, a half-step of elevation counts 1.
pub open spec fn spec_distance(p: Pos, q: Pos) -> int {
    2 * abs_int(q.x - p.x) + abs_int(q.y_half - p.y_half) + 2 * abs_int(q.z - p.z)
}

pub open spec fn abs_int(v: int) -> int {
    if v < 0 {
        -v
    } else {
        v
    }
}

impl Pos {
    pub fn new(x: i64, y_half: i64, z: i64) -> (p: Pos)
        ensures
            p == (Pos { x, y_half, z }),
    {
        Pos { x, y_half, z }
    }

    /// Grid distance to `other` in half-steps.
    pub fn distance(&self, other: &Pos) -> (d: i64)
        requires
            pos_in_range(*self),
            pos_in_range(*other),
        ensures
            d == spec_distance(*self, *other),
    {
        let dx: i64 = if other.x >= self.x {
            other.x - self.x
        } else {
            self.x - other.x
        };
        let dy: i64 = if other.y_half >= self.y_half {
            other.y_half - self.y_half
        } else {
            self.y_half - other.y_half
        };
        let dz: i64 = if other.z >= self.z {
            other.z - self.z
        } else {
            self.z - other.z
        };
        2 * dx + dy + 2 * dz
    }
}

} // verus!
