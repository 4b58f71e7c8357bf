use vstd::prelude::*;
use crate::coordinates::ScreenPoint;
use crate::coordinates::spec_elevation_offset;
use crate::coordinates::spec_world_x;
use crate::coordinates::spec_world_z;
use crate::map::TileMap;
use crate::map::lemma_assoc_map_dom;
use crate::map::lemma_assoc_map_index;
use crate::pos::Pos;
use crate::pos::pos_in_range;
use crate::unit::SelectedUnit;

verus! {

/// Largest pointer coordinate magnitude, in quarter-pixels, accepted by
/// picking.
pub const MAX_POINTER: i64 = 1_000_000_000_000;

/// The tile the pointer currently hovers over, if any: the render reference
/// of the picked tile.
#[derive(Clone, Copy, Debug, PartialEq, Eq, Structural)]
pub struct ActiveTile(pub Option<u64>);

/// A unit was clicked while nothing was selected: select it.
#[derive(Clone, Copy, Debug, PartialEq, Eq, Structural)]
pub struct SelectUnitEvent(pub u64);

/// The selection is over for this unit: clear it.
#[derive(Clone, Copy, Debug, PartialEq, Eq, Structural)]
pub struct DeselectUnitEvent(pub u64);

/// A destination was chosen for a unit: compute and assign its path.
#[derive(Clone, Copy, Debug, PartialEq, Eq, Structural)]
pub struct SetPathEvent(pub u64, pub Pos);

/// The pointer, shifted down by `q`'s own elevation lift and pushed through
/// the inverse transform, lands exactly on `q`'s cell.
pub open spec fn pointer_matches(map: TileMap, ptr: ScreenPoint, q: Pos) -> bool {
    let ts = map.spec_tile_size();
    let sx = ptr.x - map.spec_origin_x();
    let sy = ptr.y - spec_elevation_offset(ts, q.y_half as int) - map.spec_origin_y();
    q.x == spec_world_x(ts, sx, sy) && q.z == spec_world_z(ts, sx, sy)
}

/// Another occupied position sits at the same `x`/`z` strictly above `p`: it
/// fully occludes `p` for picking, whether or not its own footprint was hit.
pub open spec fn occluded(m: Map<Pos, u64>, p: Pos) -> bool {
    exists|q: Pos|
        #[trigger] m.dom().contains(q) && q.x == p.x && q.z == p.z && q.y_half > p.y_half
}

/// `p` is what picking must return for this pointer: occupied, its footprint
/// under the pointer, no matching tile higher, and nothing stacked above it.
pub open spec fn pick_ok(map: TileMap, ptr: ScreenPoint, p: Pos) -> bool {
    &&& map@.dom().contains(p)
    &&& pointer_matches(map, ptr, p)
    &&& forall|q: Pos|
        map@.dom().contains(q) && #[trigger] pointer_matches(map, ptr, q) ==> q.y_half <= p.y_half
    &&& !occluded(map@, p)
}

impl TileMap {
    /// Whether the pointer's footprint test succeeds for the tile at `q`.
    fn matches_at(&self, pointer: ScreenPoint, q: Pos) -> (r: bool)
        requires
            self.wf(),
            -MAX_POINTER <= pointer.x <= MAX_POINTER,
            -MAX_POINTER <= pointer.y <= MAX_POINTER,
            pos_in_range(q),
        ensures
            r == pointer_matches(*self, pointer, q),
    {
        proof {
            self.lemma_inv();
            assert(-1_000_000_000_000 <= (self.tile_size as int) * q.y_half <= 1_000_000_000_000)
                by (nonlinear_arith)
                requires
                    0 < self.tile_size <= 1_000_000,
                    -1_000_000 <= q.y_half <= 1_000_000,
            ;
        }
        let y_offset: i64 = self.tile_size * q.y_half;
        let adjusted = ScreenPoint { x: pointer.x, y: pointer.y - y_offset };
        let cell = self.screen_pos_to_world_pos(adjusted);
        cell.x == q.x && cell.z == q.z
    }

    /// Whether some occupied position sits strictly above `p` at the same
    /// `x`/`z`.
    fn occluded_above(&self, p: Pos) -> (r: bool)
        requires
            self.wf(),
        ensures
            r == occluded(self@, p),
    {
        proof {
            self.lemma_inv();
            lemma_assoc_map_dom(self.tiles@);
        }
        let n: usize = self.tiles.len();
        let mut i: usize = 0;
        while i < n
            invariant
                n == self.tiles@.len(),
                0 <= i <= n,
                self.wf(),
                forall|j: int|
                    0 <= j < i ==> !((#[trigger] self.tiles@[j]).0.x == p.x && self.tiles@[j].0.z
                        == p.z && self.tiles@[j].0.y_half > p.y_half),
            decreases n - i,
        {
            let q = self.tiles[i].0;
            if q.x == p.x && q.z == p.z && q.y_half > p.y_half {
                proof {
                    self.lemma_inv();
                    lemma_assoc_map_index(self.tiles@, i as int);
                }
                return true;
            }
            i += 1;
        }
        proof {
            self.lemma_inv();
            lemma_assoc_map_dom(self.tiles@);
            if occluded(self@, p) {
                let q = choose|q: Pos|
                    #[trigger] self@.dom().contains(q) && q.x == p.x && q.z == p.z && q.y_half
                        > p.y_half;
                let j = choose|j: int| 0 <= j < self.tiles@.len() && (#[trigger] self.tiles@[j]).0
                    == q;
            }
        }
        false
    }

    /// Resolves a pointer position to the tile the user means: the occupied,
    /// unoccluded position whose footprint lies under the pointer, trying the
    /// highest elevation first. Returns nothing when the pointer is over
    /// empty space, or when the hit tile has another tile stacked above it.
    pub fn pick(&self, pointer: ScreenPoint) -> (r: Option<Pos>)
        requires
            self.wf(),
            -MAX_POINTER <= pointer.x <= MAX_POINTER,
            -MAX_POINTER <= pointer.y <= MAX_POINTER,
        ensures
            match r {
                Some(p) => pick_ok(*self, pointer, p),
                None => forall|p: Pos| !pick_ok(*self, pointer, p),
            },
    {
        proof {
            self.lemma_inv();
            lemma_assoc_map_dom(self.tiles@);
            self.lemma_wf();
        }
        let n: usize = self.tiles.len();
        let mut best: Option<Pos> = None;
        let mut i: usize = 0;
        while i < n
            invariant
                n == self.tiles@.len(),
                0 <= i <= n,
                self.wf(),
                -MAX_POINTER <= pointer.x <= MAX_POINTER,
                -MAX_POINTER <= pointer.y <= MAX_POINTER,
                match best {
                    Some(b) => {
                        &&& self@.dom().contains(b)
                        &&& pointer_matches(*self, pointer, b)
                        &&& forall|j: int|
                            0 <= j < i && pointer_matches(
                                *self,
                                pointer,
                                (#[trigger] self.tiles@[j]).0,
                            ) ==> self.tiles@[j].0.y_half <= b.y_half
                    },
                    None => forall|j: int|
                        0 <= j < i ==> !pointer_matches(
                            *self,
                            pointer,
                            (#[trigger] self.tiles@[j]).0,
                        ),
                },
            decreases n - i,
        {
            let q = self.tiles[i].0;
            proof {
                self.lemma_inv();
                lemma_assoc_map_index(self.tiles@, i as int);
            }
            if self.matches_at(pointer, q) {
                match best {
                    Some(b) => {
                        if q.y_half > b.y_half {
                            best = Some(q);
                        }
                    },
                    None => {
                        best = Some(q);
                    },
                }
            }
            i += 1;
        }
        proof {
            self.lemma_inv();
            lemma_assoc_map_dom(self.tiles@);
        }
        match best {
            Some(b) => {
                proof {
                    assert forall|q: Pos|
                        self@.dom().contains(q) && #[trigger] pointer_matches(
                            *self,
                            pointer,
                            q,
                        ) implies q.y_half <= b.y_half by {
                        let j = choose|j: int|
                            0 <= j < self.tiles@.len() && (#[trigger] self.tiles@[j]).0 == q;
                    }
                }
                if !self.occluded_above(b) {
                    Some(b)
                } else {
                    proof {
                        assert forall|p: Pos| !pick_ok(*self, pointer, p) by {
                            if pick_ok(*self, pointer, p) {
                                assert(b.y_half <= p.y_half);
                                assert(p.y_half <= b.y_half);
                                assert(p == b);
                            }
                        }
                    }
                    None
                }
            },
            None => {
                proof {
                    assert forall|p: Pos| !pick_ok(*self, pointer, p) by {
                        if pick_ok(*self, pointer, p) {
                            let j = choose|j: int|
                                0 <= j < self.tiles@.len() && (#[trigger] self.tiles@[j]).0 == p;
                        }
                    }
                }
                None
            },
        }
    }
}

/// What a click decides, given the current selection and what was under the
/// pointer.
#[derive(Clone, Copy, Debug, PartialEq, Eq, Structural)]
pub enum ClickOutcome {
    /// No active tile, or an empty tile was clicked with nothing selected.
    Nothing,
    /// A unit stands on the clicked tile and nothing was selected: select it.
    Select(SelectUnitEvent),
    /// A unit was selected but the clicked tile is not a legal move: only
    /// deselect.
    Deselect(DeselectUnitEvent),
    /// A unit was selected and the clicked tile is a legal move: assign the
    /// path, then deselect.
    MoveAndDeselect(SetPathEvent, DeselectUnitEvent),
}

/// The decision taken by a click.
pub open spec fn spec_click_tile(
    selected: SelectedUnit,
    active_tile: Option<Pos>,
    unit_at_tile: Option<u64>,
    tile_is_valid_move: bool,
) -> ClickOutcome {
    match active_tile {
        Option::None => ClickOutcome::Nothing,
        Option::Some(tile_pos) => match selected {
            SelectedUnit::NoSelection => match unit_at_tile {
                Option::Some(u) => ClickOutcome::Select(SelectUnitEvent(u)),
                Option::None => ClickOutcome::Nothing,
            },
            SelectedUnit::Selection { entity, mode: _ } => if tile_is_valid_move {
                ClickOutcome::MoveAndDeselect(
                    SetPathEvent(entity, tile_pos),
                    DeselectUnitEvent(entity),
                )
            } else {
                ClickOutcome::Deselect(DeselectUnitEvent(entity))
            },
        },
    }
}

/// Decides what a left click does this tick: with nothing selected, clicking
/// a tile that carries a unit selects that unit; with a unit selected,
/// clicking one of its legal moves assigns the path, and either way the unit
/// is deselected. `unit_at_tile` is the unit standing on the active tile, if
/// any; `tile_is_valid_move` says whether the active tile is in the selected
/// unit's reachable set.
pub fn click_tile(
    selected: &SelectedUnit,
    active_tile: Option<Pos>,
    unit_at_tile: Option<u64>,
    tile_is_valid_move: bool,
) -> (r: ClickOutcome)
    ensures
        r == spec_click_tile(*selected, active_tile, unit_at_tile, tile_is_valid_move),
{
    match active_tile {
        None => ClickOutcome::Nothing,
        Some(tile_pos) => match selected {
            SelectedUnit::NoSelection => match unit_at_tile {
                Some(u) => ClickOutcome::Select(SelectUnitEvent(u)),
                None => ClickOutcome::Nothing,
            },
            SelectedUnit::Selection { entity, mode: _ } => if tile_is_valid_move {
                ClickOutcome::MoveAndDeselect(
                    SetPathEvent(*entity, tile_pos),
                    DeselectUnitEvent(*entity),
                )
            } else {
                ClickOutcome::Deselect(DeselectUnitEvent(*entity))
            },
        },
    }
}

} // verus!
