use vstd::prelude::*;
use crate::map::TileMap;
use crate::pos::Pos;
use crate::pos::pos_in_range;
use crate::search::PathError;
use crate::search::is_walk;
use crate::search::shortest_path_ok;
use crate::unit::Direction;
use crate::unit::Unit;

verus! {

/// A unit should turn to face this direction before its sprite moves.
#[derive(Clone, Copy, Debug, PartialEq, Eq, Structural)]
pub struct ChangeFacingEvent(pub u64, pub Direction);

/// Marks a tile as a legal destination for the currently selected unit.
#[derive(Clone, Copy, Debug, PartialEq, Eq, Structural)]
pub struct ValidMove;

/// The facing implied by moving from `current` toward `next`, by pure sign
/// comparison on `x` and `z`. A move that changes both axes, or neither, has
/// no geometrically implied facing and falls back to the fixed default,
/// south-west.
pub open spec fn spec_facing(current: Pos, next: Pos) -> Direction {
    if next.x > current.x && next.z == current.z {
        Direction::NorthEast
    } else if next.x < current.x && next.z == current.z {
        Direction::SouthWest
    } else if next.z > current.z && next.x == current.x {
        Direction::NorthWest
    } else if next.z < current.z && next.x == current.x {
        Direction::SouthEast
    } else {
        Direction::SouthWest
    }
}

/// Which way a unit faces while moving from `current` toward `next`.
pub fn get_facing(current: Pos, next: Pos) -> (d: Direction)
    ensures
        d == spec_facing(current, next),
{
    if next.x > current.x && next.z == current.z {
        return Direction::NorthEast;
    }
    if next.x < current.x && next.z == current.z {
        return Direction::SouthWest;
    }
    if next.z > current.z && next.x == current.x {
        return Direction::NorthWest;
    }
    if next.z < current.z && next.x == current.x {
        return Direction::SouthEast;
    }
    Direction::SouthWest
}

impl Unit {
    /// A unit is moving exactly while it has waypoints left.
    pub fn is_moving(&self) -> (r: bool)
        ensures
            r == (self.path@.len() > 0),
    {
        self.path.len() > 0
    }

    /// The waypoint the unit is walking toward, if it is moving.
    pub fn next_waypoint(&self) -> (r: Option<Pos>)
        ensures
            match r {
                Some(p) => self.path@.len() > 0 && p == self.path@[0],
                None => self.path@.len() == 0,
            },
    {
        if self.path.len() > 0 {
            Some(self.path[0])
        } else {
            None
        }
    }

    /// Computes the shortest path to `target_pos` and assigns it as this
    /// unit's pending path, leaving everything else untouched. When no path
    /// exists the pending path is left as it was and the failure is returned.
    pub fn set_unit_path(&mut self, target_pos: Pos, map: &TileMap) -> (r: Result<(), PathError>)
        requires
            map.wf(),
            pos_in_range(old(self).pos),
            pos_in_range(target_pos),
        ensures
            final(self).pos == old(self).pos,
            final(self).tile == old(self).tile,
            final(self).move_speed == old(self).move_speed,
            final(self).move_distance == old(self).move_distance,
            final(self).facing == old(self).facing,
            match r {
                Ok(()) => shortest_path_ok(map@, old(self).pos, target_pos, final(self).path@),
                Err(e) => {
                    &&& e == PathError::NoPathFound
                    &&& forall|w: Seq<Pos>| !is_walk(map@, w, old(self).pos, target_pos)
                    &&& final(self).path@ == old(self).path@
                },
            },
    {
        match self.get_path(target_pos, map) {
            Ok(path) => {
                self.path = path;
                Ok(())
            },
            Err(e) => Err(e),
        }
    }

    /// The per-tick arrival step: the unit's screen position has reached the
    /// first waypoint, so its logical position snaps there, it occupies that
    /// waypoint's tile, and the waypoint is popped. When the last waypoint is
    /// popped the unit is idle again.
    pub fn arrive_at_waypoint(&mut self, tile_ref: u64)
        requires
            old(self).path@.len() > 0,
        ensures
            final(self).pos == old(self).path@[0],
            final(self).tile == tile_ref,
            final(self).path@ == old(self).path@.subrange(1, old(self).path@.len() as int),
            final(self).move_speed == old(self).move_speed,
            final(self).move_distance == old(self).move_distance,
            final(self).facing == old(self).facing,
    {
        let next = self.path.remove(0);
        self.pos = next;
        self.tile = tile_ref;
        proof {
            assert(self.path@ =~= old(self).path@.subrange(1, old(self).path@.len() as int));
        }
    }
}

} // verus!
