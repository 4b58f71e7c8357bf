use vstd::prelude::*;
use crate::map::TileMap;
use crate::map::keys_in_range;
use crate::map::step;
use crate::pos::Pos;
use crate::pos::pos_in_range;

verus! {

broadcast use vstd::seq_lib::lemma_seq_contains_after_push;

/// Everything within `k` moves of `start`: round `k` extends round `k - 1`
/// with the frontier of every position already discovered.
pub open spec fn reach(m: Map<Pos, u64>, start: Pos, k: nat) -> Set<Pos>
    decreases k,
{
    if k == 0 {
        set![start]
    } else {
        let prev = reach(m, start, (k - 1) as nat);
        prev.union(Set::new(|q: Pos| exists|p: Pos| prev.contains(p) && #[trigger] step(m, p, q)))
    }
}

/// A position within `k` moves of `start` is the start itself or an occupied
/// tile: every move lands on a tile of the map.
pub proof fn lemma_reach_occupied(m: Map<Pos, u64>, start: Pos, k: nat)
    ensures
        forall|q: Pos| #[trigger] reach(m, start, k).contains(q) ==> q == start || m.dom().contains(
            q,
        ),
    decreases k,
{
    if k > 0 {
        lemma_reach_occupied(m, start, (k - 1) as nat);
        let prev = reach(m, start, (k - 1) as nat);
        assert forall|q: Pos| #[trigger] reach(m, start, k).contains(q) implies q == start
            || m.dom().contains(q) by {
            if !prev.contains(q) {
                let p = choose|p: Pos| prev.contains(p) && #[trigger] step(m, p, q);
                assert(m.dom().contains(q));
            }
        }
    }
}

/// Growing the move budget never loses a reachable tile: everything within
/// `k` moves is within `k + 1` moves, with or without the start excluded.
pub proof fn lemma_reachable_monotonic(m: Map<Pos, u64>, start: Pos, k: nat)
    ensures
        reach(m, start, k).subset_of(reach(m, start, k + 1)),
        reach(m, start, k).remove(start).subset_of(reach(m, start, k + 1).remove(start)),
{
    assert(reach(m, start, k + 1) == reach(m, start, k).union(
        Set::new(
            |q: Pos|
                exists|p: Pos| reach(m, start, k).contains(p) && #[trigger] step(m, p, q),
        ),
    ));
}

/// What a selection is for. Movement is the only interaction today; the
/// enumeration leaves room for more.
#[derive(Clone, Copy, Debug, PartialEq, Eq, Structural)]
pub enum SelectMode {
    Move,
}

/// Process-wide selection state: no unit, or exactly one unit with its
/// interaction mode. Two units can never be selected at once because the
/// state holds at most one entity.
#[derive(Clone, Copy, Debug, PartialEq, Eq, Structural)]
pub enum SelectedUnit {
    NoSelection,
    Selection { entity: u64, mode: SelectMode },
}

impl SelectedUnit {
    pub fn is_some(&self) -> (r: bool)
        ensures
            r == !(self is NoSelection),
    {
        match self {
            SelectedUnit::NoSelection => false,
            SelectedUnit::Selection { entity: _, mode: _ } => true,
        }
    }

    pub fn is_none(&self) -> (r: bool)
        ensures
            r == (self is NoSelection),
    {
        !self.is_some()
    }

    /// The transition taken by a select event: the unit becomes the selection,
    /// in move mode, replacing whatever was selected before.
    pub fn select_unit(&mut self, entity: u64)
        ensures
            *final(self) == (SelectedUnit::Selection { entity, mode: SelectMode::Move }),
    {
        *self = SelectedUnit::Selection { entity, mode: SelectMode::Move };
    }

    /// The transition taken by a deselect event: the selection is cleared.
    pub fn deselect_unit(&mut self)
        ensures
            *final(self) is NoSelection,
    {
        *self = SelectedUnit::NoSelection;
    }
}

impl Default for SelectedUnit {
    fn default() -> (r: Self)
        ensures
            r is NoSelection,
    {
        SelectedUnit::NoSelection
    }
}

/// The four diagonal compass directions a unit sprite can face.
#[derive(Clone, Copy, Debug, PartialEq, Eq, Structural)]
pub enum Direction {
    NorthEast,
    NorthWest,
    SouthEast,
    SouthWest,
}

/// A unit standing on the grid.
///
/// Owns its logical position, a reference to the tile it occupies, its move
/// speed in thousandths of a pixel of screen travel per tick, its move range
/// in frontier-expansion steps, the direction it faces, and the pending path
/// it is walking (empty when idle).
#[derive(Debug)]
pub struct Unit {
    pub pos: Pos,
    pub tile: u64,
    pub move_speed: u64,
    pub move_distance: usize,
    pub facing: Direction,
    pub path: Vec<Pos>,
}

impl Unit {
    /// Spawns a unit on an existing tile: the starting position must be
    /// occupied in the map.
    pub fn new(
        map: &TileMap,
        pos: Pos,
        tile: u64,
        move_speed: u64,
        move_distance: usize,
        facing: Direction,
    ) -> (u: Unit)
        requires
            map.wf(),
            map@.dom().contains(pos),
        ensures
            u.pos == pos,
            u.tile == tile,
            u.move_speed == move_speed,
            u.move_distance == move_distance,
            u.facing == facing,
            u.path@.len() == 0,
            pos_in_range(u.pos),
    {
        proof {
            map.lemma_wf();
        }
        Unit { pos, tile, move_speed, move_distance, facing, path: Vec::new() }
    }

    /// Every tile this unit can move to: all positions within its move range
    /// through occupied, uncovered tiles, the unit's own position excluded
    /// and each tile listed once.
    #[verifier::loop_isolation(false)]
    pub fn get_valid_moves(&self, map: &TileMap) -> (r: Vec<Pos>)
        requires
            map.wf(),
            pos_in_range(self.pos),
        ensures
            r@.no_duplicates(),
            forall|q: Pos|
                #[trigger] r@.contains(q) <==> (reach(
                    map@,
                    self.pos,
                    self.move_distance as nat,
                ).contains(q) && q != self.pos),
    {
        let mut visited: Vec<Pos> = Vec::new();
        visited.push(self.pos);
        proof {
            assert(visited@.to_set() =~= reach(map@, self.pos, 0));
        }
        let mut round: usize = 0;
        while round < self.move_distance
            invariant
                0 <= round <= self.move_distance,
                visited@.no_duplicates(),
                visited@.to_set() == reach(map@, self.pos, round as nat),
            decreases self.move_distance - round,
        {
            let ghost prev_set = reach(map@, self.pos, round as nat);
            let mut next: Vec<Pos> = visited.clone();
            proof {
                assert(next@ =~= visited@);
            }
            let n: usize = visited.len();
            let mut j: usize = 0;
            while j < n
                invariant
                    0 <= j <= n,
                    next@.no_duplicates(),
                    forall|q: Pos|
                        #[trigger] next@.contains(q) <==> (prev_set.contains(q)
                            || step_from_prefix(map@, visited@, j as int, q)),
                decreases n - j,
            {
                let p = visited[j];
                proof {
                    lemma_reach_occupied(map@, self.pos, round as nat);
                    map.lemma_wf();
                    assert(visited@.to_set().contains(p));
                    assert(keys_in_range(map@));
                }
                let f = map.get_frontier(p);
                merge_unique(&mut next, &f);
                proof {
                    assert forall|q: Pos|
                        step_from_prefix(map@, visited@, j + 1, q) <==> (step_from_prefix(
                        map@,
                        visited@,
                        j as int,
                        q,
                    ) || step(map@, p, q)) by {
                        if step_from_prefix(map@, visited@, j + 1, q) {
                            let i = choose|i: int|
                                0 <= i < j + 1 && #[trigger] step(map@, visited@[i], q);
                            if i < j {
                                assert(step_from_prefix(map@, visited@, j as int, q));
                            } else {
                                assert(visited@[i] == p);
                            }
                        }
                        if step(map@, p, q) {
                            assert(visited@[j as int] == p);
                            assert(step(map@, visited@[j as int], q));
                        }
                    }
                }
                j += 1;
            }
            proof {
                assert(next@.to_set() =~= reach(map@, self.pos, (round + 1) as nat)) by {
                    assert forall|q: Pos| #[trigger] next@.contains(q) implies reach(
                        map@,
                        self.pos,
                        (round + 1) as nat,
                    ).contains(q) by {
                        if step_from_prefix(map@, visited@, n as int, q) {
                            let i = choose|i: int|
                                0 <= i < n && #[trigger] step(map@, visited@[i], q);
                            assert(visited@.to_set().contains(visited@[i]));
                            assert(prev_set.contains(visited@[i]));
                        }
                    }
                    assert forall|q: Pos|
                        reach(map@, self.pos, (round + 1) as nat).contains(q) implies
                        #[trigger] next@.contains(q) by {
                        if !prev_set.contains(q) {
                            let p2 = choose|p2: Pos|
                                prev_set.contains(p2) && #[trigger] step(map@, p2, q);
                            assert(visited@.to_set().contains(p2));
                            assert(visited@.contains(p2));
                            let i = choose|i: int|
                                0 <= i < visited@.len() && visited@[i] == p2;
                            assert(step(map@, visited@[i], q));
                            assert(step_from_prefix(map@, visited@, n as int, q));
                        }
                    }
                }
            }
            visited = next;
            round += 1;
        }
        let mut result: Vec<Pos> = Vec::new();
        let n2: usize = visited.len();
        let mut t: usize = 0;
        while t < n2
            invariant
                0 <= t <= n2,
                result@.no_duplicates(),
                forall|q: Pos|
                    #[trigger] result@.contains(q) <==> (visited@.subrange(0, t as int).contains(q)
                        && q != self.pos),
            decreases n2 - t,
        {
            let v = visited[t];
            if v != self.pos {
                proof {
                    if result@.contains(v) {
                        let i = choose|i: int|
                            0 <= i < t && visited@.subrange(0, t as int)[i] == v;
                        assert(visited@[i] == v && visited@[t as int] == v);
                    }
                }
                result.push(v);
            }
            proof {
                assert(visited@.subrange(0, t + 1) =~= visited@.subrange(0, t as int).push(
                    visited@[t as int],
                ));
            }
            t += 1;
        }
        proof {
            assert(visited@.subrange(0, n2 as int) =~= visited@);
            assert forall|q: Pos|
                #[trigger] result@.contains(q) <==> (reach(
                    map@,
                    self.pos,
                    self.move_distance as nat,
                ).contains(q) && q != self.pos) by {
                assert(visited@.contains(q) <==> visited@.to_set().contains(q));
            }
        }
        result
    }
}

/// The unit subsystem assembled into one simulation context: it owns the
/// process-wide selection and applies each click's decision and the selection
/// transitions it implies in one deterministic tick stage.
pub struct UnitPluginGroup {
    pub selected_unit: SelectedUnit,
}

impl UnitPluginGroup {
    /// Starts with nothing selected.
    pub fn new() -> (g: UnitPluginGroup)
        ensures
            g.selected_unit is NoSelection,
    {
        UnitPluginGroup { selected_unit: SelectedUnit::NoSelection }
    }

    /// Processes one left click: decides its outcome from the current
    /// selection and what lies under the pointer, then applies the selection
    /// transition that outcome implies. Selecting stores the clicked unit;
    /// any outcome that deselects clears the selection; otherwise the
    /// selection is unchanged. Path assignment is left to the caller, which
    /// owns the units.
    pub fn apply_click(
        &mut self,
        active_tile: Option<Pos>,
        unit_at_tile: Option<u64>,
        tile_is_valid_move: bool,
    ) -> (r: crate::picking::ClickOutcome)
        ensures
            r == crate::picking::spec_click_tile(
                old(self).selected_unit,
                active_tile,
                unit_at_tile,
                tile_is_valid_move,
            ),
            final(self).selected_unit == (match r {
                crate::picking::ClickOutcome::Select(ev) => SelectedUnit::Selection {
                    entity: ev.0,
                    mode: SelectMode::Move,
                },
                crate::picking::ClickOutcome::Deselect(_) => SelectedUnit::NoSelection,
                crate::picking::ClickOutcome::MoveAndDeselect(_, _) => SelectedUnit::NoSelection,
                crate::picking::ClickOutcome::Nothing => old(self).selected_unit,
            }),
    {
        let outcome = crate::picking::click_tile(
            &self.selected_unit,
            active_tile,
            unit_at_tile,
            tile_is_valid_move,
        );
        match &outcome {
            crate::picking::ClickOutcome::Select(ev) => {
                self.selected_unit.select_unit(ev.0);
            },
            crate::picking::ClickOutcome::Deselect(_) => {
                self.selected_unit.deselect_unit();
            },
            crate::picking::ClickOutcome::MoveAndDeselect(_, _) => {
                self.selected_unit.deselect_unit();
            },
            crate::picking::ClickOutcome::Nothing => {},
        }
        outcome
    }
}

/// Some position in the first `j` entries of `s` reaches `q` in one move.
pub open spec fn step_from_prefix(m: Map<Pos, u64>, s: Seq<Pos>, j: int, q: Pos) -> bool {
    exists|i: int| 0 <= i < j && #[trigger] step(m, s[i], q)
}

/// Appends to `dst` every position of `src` not already present.
fn merge_unique(dst: &mut Vec<Pos>, src: &Vec<Pos>)
    requires
        old(dst)@.no_duplicates(),
    ensures
        final(dst)@.no_duplicates(),
        forall|q: Pos|
            #[trigger] final(dst)@.contains(q) <==> (old(dst)@.contains(q) || src@.contains(q)),
{
    let n: usize = src.len();
    let mut k: usize = 0;
    while k < n
        invariant
            n == src@.len(),
            0 <= k <= n,
            dst@.no_duplicates(),
            forall|q: Pos|
                #[trigger] dst@.contains(q) <==> (old(dst)@.contains(q) || src@.subrange(
                    0,
                    k as int,
                ).contains(q)),
        decreases n - k,
    {
        let cand = src[k];
        if !crate::map::vec_contains_pos(dst, &cand) {
            proof {
                let s_old = dst@;
                let s_new = s_old.push(cand);
                assert forall|a: int, b: int| 0 <= a < b < s_new.len() implies (
                #[trigger] s_new[a]) != (#[trigger] s_new[b]) by {
                    if b < s_new.len() - 1 {
                        assert(s_old[a] == s_new[a] && s_old[b] == s_new[b]);
                    } else {
                        assert(s_old[a] == s_new[a]);
                        assert(s_new[b] == cand);
                        if s_new[a] == cand {
                            assert(s_old.contains(cand));
                        }
                    }
                }
            }
            dst.push(cand);
        }
        proof {
            assert(src@.subrange(0, k + 1) =~= src@.subrange(0, k as int).push(src@[k as int]));
        }
        k += 1;
    }
    proof {
        assert(src@.subrange(0, n as int) =~= src@);
    }
}

} // verus!
