use vstd::prelude::*;
use crate::pos::Pos;

verus! {

/// The closed set of tile shapes: a full cube or a half-height slab. A half
/// tile rests on top of a full one, which is why elevation moves in
/// half-steps.
#[derive(Clone, Copy, Debug, PartialEq, Eq, Structural)]
pub enum TileHeight {
    Full,
    Half,
}

/// One placed tile: its shape, its sprite size in pixels (tiles are square),
/// and the grid position it occupies.
#[derive(Clone, Copy, Debug, PartialEq, Eq, Structural)]
pub struct Tile {
    pub height: TileHeight,
    pub size: i64,
    pub pos: Pos,
}

impl Tile {
    pub fn new(height: TileHeight, size: i64, pos: Pos) -> (t: Tile)
        ensures
            t == (Tile { height, size, pos }),
    {
        Tile { height, size, pos }
    }
}

} // verus!
