use vstd::prelude::*;
use crate::coordinates::ScreenPoint;
use crate::coordinates::ScreenPos;
use crate::coordinates::div_floor;
use crate::coordinates::spec_elevation_offset;
use crate::coordinates::spec_screen_x;
use crate::coordinates::spec_screen_y;
use crate::coordinates::spec_world_x;
use crate::coordinates::spec_world_z;
use crate::coordinates::spec_z_order;
use crate::pos::COORD_LIMIT;
use crate::pos::Pos;
use crate::pos::adjacent;
use crate::pos::pos_in_range;

verus! {

/// Largest tile size, in pixels, that the map accepts.
pub const MAX_TILE_SIZE: i64 = 1_000_000;

/// Largest magnitude, in quarter-pixels, accepted for the map origin.
pub const MAX_ORIGIN: i64 = 1_000_000_000_000;

/// Largest magnitude, in quarter-pixels, accepted for a screen point handed
/// to the inverse transform or to picking.
pub const MAX_SCREEN: i64 = 4_000_000_000_000;

/// How a spatial operation on the map can fail.
#[derive(Clone, Copy, Debug, PartialEq, Eq, Structural)]
pub enum MapError {
    /// The map was configured with a tile size that is zero, negative, or
    /// beyond the supported range. Fatal at construction; never clamped.
    Configuration,
    /// A grid position lies outside the supported coordinate range and is
    /// rejected rather than stored.
    InvalidPosition,
    /// An insert would put a second tile on an occupied position, breaking
    /// the one-tile-per-cell invariant.
    Occupied,
}

/// The mapping held by a sequence of (position, render reference) entries,
/// later entries winning; with unique keys every entry is the binding.
pub open spec fn assoc_map(s: Seq<(Pos, u64)>) -> Map<Pos, u64>
    decreases s.len(),
{
    if s.len() == 0 {
        Map::empty()
    } else {
        assoc_map(s.drop_last()).insert(s.last().0, s.last().1)
    }
}

/// No two entries bind the same position.
pub open spec fn unique_keys(s: Seq<(Pos, u64)>) -> bool {
    forall|i: int, j: int| 0 <= i < j < s.len() ==> (#[trigger] s[i]).0 != (#[trigger] s[j]).0
}

/// A position is in the domain of the association exactly when some entry
/// binds it.
pub proof fn lemma_assoc_map_dom(s: Seq<(Pos, u64)>)
    ensures
        forall|p: Pos|
            #[trigger] assoc_map(s).dom().contains(p) <==> exists|i: int|
                0 <= i < s.len() && (#[trigger] s[i]).0 == p,
    decreases s.len(),
{
    if s.len() > 0 {
        let t = s.drop_last();
        lemma_assoc_map_dom(t);
        assert forall|p: Pos| #[trigger] assoc_map(s).dom().contains(p) implies exists|i: int|
            0 <= i < s.len() && (#[trigger] s[i]).0 == p by {
            if p == s.last().0 {
                assert((s[s.len() - 1]).0 == p);
            } else {
                assert(assoc_map(t).dom().contains(p));
                let i = choose|i: int| 0 <= i < t.len() && (#[trigger] t[i]).0 == p;
                assert(t[i] == s[i]);
                assert((s[i]).0 == p);
            }
        }
        assert forall|p: Pos| (exists|i: int| 0 <= i < s.len() && (#[trigger] s[i]).0 == p)
            implies #[trigger] assoc_map(s).dom().contains(p) by {
            let i = choose|i: int| 0 <= i < s.len() && (#[trigger] s[i]).0 == p;
            if i < s.len() - 1 {
                assert(t[i] == s[i]);
                assert((t[i]).0 == p);
                assert(assoc_map(t).dom().contains(p));
            }
        }
    }
}

/// With unique keys, the entry at index `i` is exactly what the association
/// maps its position to.
pub proof fn lemma_assoc_map_index(s: Seq<(Pos, u64)>, i: int)
    requires
        unique_keys(s),
        0 <= i < s.len(),
    ensures
        assoc_map(s).dom().contains(s[i].0),
        assoc_map(s)[s[i].0] == s[i].1,
    decreases s.len(),
{
    if i == s.len() - 1 {
    } else {
        assert(unique_keys(s.drop_last()));
        assert((s.drop_last()[i]).0 == s[i].0 && (s.drop_last()[i]).1 == s[i].1);
        lemma_assoc_map_index(s.drop_last(), i);
        assert(s[i].0 != s.last().0);
    }
}

/// Appending one entry inserts exactly one binding.
pub proof fn lemma_assoc_map_push(s: Seq<(Pos, u64)>, p: Pos, v: u64)
    ensures
        assoc_map(s.push((p, v))) == assoc_map(s).insert(p, v),
{
    assert(s.push((p, v)).drop_last() =~= s);
    assert(s.push((p, v)).last() == (p, v));
}

/// Removing the entry at index `i` removes exactly its binding.
pub proof fn lemma_assoc_map_remove(s: Seq<(Pos, u64)>, i: int)
    requires
        unique_keys(s),
        0 <= i < s.len(),
    ensures
        assoc_map(s.remove(i)) =~= assoc_map(s).remove(s[i].0),
    decreases s.len(),
{
    lemma_assoc_map_dom(s);
    lemma_assoc_map_dom(s.remove(i));
    if i == s.len() - 1 {
        assert(s.remove(i) =~= s.drop_last());
        assert(!assoc_map(s.drop_last()).dom().contains(s[i].0)) by {
            lemma_assoc_map_dom(s.drop_last());
        }
        assert(assoc_map(s.drop_last()) =~= assoc_map(s).remove(s[i].0));
    } else {
        let t = s.drop_last();
        assert(unique_keys(t));
        lemma_assoc_map_remove(t, i);
        assert(s.remove(i).drop_last() =~= t.remove(i));
        assert(s.remove(i).last() == s.last());
        assert(assoc_map(s.remove(i)) == assoc_map(t.remove(i)).insert(s.last().0, s.last().1));
        assert(s[i].0 != s.last().0);
        assert(assoc_map(t.remove(i)).insert(s.last().0, s.last().1) =~= assoc_map(
            t,
        ).remove(s[i].0).insert(s.last().0, s.last().1));
        assert(assoc_map(t).remove(s[i].0).insert(s.last().0, s.last().1) =~= assoc_map(t).insert(
            s.last().0,
            s.last().1,
        ).remove(s[i].0));
    }
}

/// Every key of the mapping lies inside the supported grid range.
pub open spec fn keys_in_range(m: Map<Pos, u64>) -> bool {
    forall|p: Pos| #[trigger] m.dom().contains(p) ==> pos_in_range(p)
}

/// A tile exists directly above `p`: a half-step or a whole step up at the
/// same `x`/`z`. A covered position cannot be stood on or picked.
pub open spec fn covered_in(m: Map<Pos, u64>, p: Pos) -> bool {
    exists|q: Pos|
        #[trigger] m.dom().contains(q) && q.x == p.x && q.z == p.z && (q.y_half == p.y_half + 1
            || q.y_half == p.y_half + 2)
}

/// One legal move: `q` is occupied, not covered, and one grid step away from
/// `p`. This is the adjacency both the frontier and path search walk.
pub open spec fn step(m: Map<Pos, u64>, p: Pos, q: Pos) -> bool {
    m.dom().contains(q) && !covered_in(m, q) && adjacent(p, q)
}

/// Owns every placed tile, keyed by its exact grid position, and carries the
/// parameters of the world/screen transform.
///
/// Invariant: at most one tile per grid position, every stored position in
/// range, and the transform parameters within the supported bounds.
pub struct TileMap {
    pub(crate) tile_size: i64,
    pub(crate) origin: ScreenPoint,
    pub(crate) tiles: Vec<(Pos, u64)>,
}

impl View for TileMap {
    type V = Map<Pos, u64>;

    closed spec fn view(&self) -> Map<Pos, u64> {
        assoc_map(self.tiles@)
    }
}

impl TileMap {
    /// Tile size in pixels; tiles are square.
    pub closed spec fn spec_tile_size(&self) -> int {
        self.tile_size as int
    }

    /// Screen translation of the whole grid, in quarter-pixels.
    pub closed spec fn spec_origin_x(&self) -> int {
        self.origin.x as int
    }

    pub closed spec fn spec_origin_y(&self) -> int {
        self.origin.y as int
    }

    pub closed spec fn wf(&self) -> bool {
        &&& 0 < self.tile_size <= MAX_TILE_SIZE
        &&& -MAX_ORIGIN <= self.origin.x <= MAX_ORIGIN
        &&& -MAX_ORIGIN <= self.origin.y <= MAX_ORIGIN
        &&& unique_keys(self.tiles@)
        &&& forall|i: int| 0 <= i < self.tiles@.len() ==> pos_in_range((#[trigger] self.tiles@[i]).0)
    }

    /// Links the abstract model to the stored entries for the crate's own
    /// proofs.
    pub(crate) proof fn lemma_inv(&self)
        requires
            self.wf(),
        ensures
            self@ == assoc_map(self.tiles@),
            unique_keys(self.tiles@),
            forall|i: int|
                0 <= i < self.tiles@.len() ==> pos_in_range((#[trigger] self.tiles@[i]).0),
            0 < self.tile_size <= MAX_TILE_SIZE,
            -MAX_ORIGIN <= self.origin.x <= MAX_ORIGIN,
            -MAX_ORIGIN <= self.origin.y <= MAX_ORIGIN,
            self.spec_tile_size() == self.tile_size,
            self.spec_origin_x() == self.origin.x,
            self.spec_origin_y() == self.origin.y,
    {
    }

    /// What well-formedness guarantees about the visible model.
    pub proof fn lemma_wf(&self)
        requires
            self.wf(),
        ensures
            0 < self.spec_tile_size() <= MAX_TILE_SIZE,
            -MAX_ORIGIN <= self.spec_origin_x() <= MAX_ORIGIN,
            -MAX_ORIGIN <= self.spec_origin_y() <= MAX_ORIGIN,
            keys_in_range(self@),
    {
        lemma_assoc_map_dom(self.tiles@);
    }

    /// Creates an empty map. A tile size outside `1..=MAX_TILE_SIZE` or an
    /// origin beyond `MAX_ORIGIN` is a configuration error: the map is not
    /// built, never silently clamped.
    pub fn new(tile_size: i64, origin: ScreenPoint) -> (r: Result<TileMap, MapError>)
        ensures
            match r {
                Ok(m) => {
                    &&& m.wf()
                    &&& m@ == Map::<Pos, u64>::empty()
                    &&& m.spec_tile_size() == tile_size
                    &&& m.spec_origin_x() == origin.x
                    &&& m.spec_origin_y() == origin.y
                    &&& 0 < tile_size <= MAX_TILE_SIZE
                    &&& -MAX_ORIGIN <= origin.x <= MAX_ORIGIN
                    &&& -MAX_ORIGIN <= origin.y <= MAX_ORIGIN
                },
                Err(e) => {
                    &&& e == MapError::Configuration
                    &&& !(0 < tile_size <= MAX_TILE_SIZE && -MAX_ORIGIN <= origin.x <= MAX_ORIGIN
                        && -MAX_ORIGIN <= origin.y <= MAX_ORIGIN)
                },
            },
    {
        if tile_size <= 0 || tile_size > MAX_TILE_SIZE || origin.x < -MAX_ORIGIN || origin.x
            > MAX_ORIGIN || origin.y < -MAX_ORIGIN || origin.y > MAX_ORIGIN {
            return Err(MapError::Configuration);
        }
        Ok(TileMap { tile_size, origin, tiles: Vec::new() })
    }

    /// Looks up the render reference stored at `pos`.
    pub fn get(&self, pos: &Pos) -> (r: Option<u64>)
        requires
            self.wf(),
        ensures
            match r {
                Some(v) => self@.dom().contains(*pos) && self@[*pos] == v,
                None => !self@.dom().contains(*pos),
            },
    {
        proof {
            lemma_assoc_map_dom(self.tiles@);
        }
        let n: usize = self.tiles.len();
        let mut i: usize = 0;
        while i < n
            invariant
                n == self.tiles@.len(),
                0 <= i <= n,
                self.wf(),
                forall|j: int| 0 <= j < i ==> (#[trigger] self.tiles@[j]).0 != *pos,
            decreases n - i,
        {
            if self.tiles[i].0 == *pos {
                proof {
                    lemma_assoc_map_index(self.tiles@, i as int);
                }
                return Some(self.tiles[i].1);
            }
            i += 1;
        }
        proof {
            lemma_assoc_map_dom(self.tiles@);
        }
        None
    }

    /// Places a tile's render reference at `pos`. Rejects a position outside
    /// the supported range, and an already occupied position: the occupancy
    /// invariant is never broken, and the map is left unchanged on failure.
    pub fn insert_tile(&mut self, pos: Pos, render_ref: u64) -> (r: Result<(), MapError>)
        requires
            old(self).wf(),
        ensures
            final(self).wf(),
            final(self).spec_tile_size() == old(self).spec_tile_size(),
            final(self).spec_origin_x() == old(self).spec_origin_x(),
            final(self).spec_origin_y() == old(self).spec_origin_y(),
            match r {
                Ok(()) => {
                    &&& pos_in_range(pos)
                    &&& !old(self)@.dom().contains(pos)
                    &&& final(self)@ == old(self)@.insert(pos, render_ref)
                },
                Err(e) => {
                    &&& final(self)@ == old(self)@
                    &&& (!pos_in_range(pos) || old(self)@.dom().contains(pos))
                    &&& (e == MapError::InvalidPosition <==> !pos_in_range(pos))
                    &&& (e == MapError::Occupied <==> pos_in_range(pos) && old(
                        self,
                    )@.dom().contains(pos))
                },
            },
    {
        if pos.x < -COORD_LIMIT || pos.x > COORD_LIMIT || pos.y_half < -COORD_LIMIT || pos.y_half
            > COORD_LIMIT || pos.z < -COORD_LIMIT || pos.z > COORD_LIMIT {
            return Err(MapError::InvalidPosition);
        }
        if self.get(&pos).is_some() {
            return Err(MapError::Occupied);
        }
        proof {
            lemma_assoc_map_dom(self.tiles@);
            lemma_assoc_map_push(self.tiles@, pos, render_ref);
        }
        self.tiles.push((pos, render_ref));
        Ok(())
    }

    /// Removes the tile at `pos`, returning its render reference if one was
    /// there.
    pub fn remove(&mut self, pos: &Pos) -> (r: Option<u64>)
        requires
            old(self).wf(),
        ensures
            final(self).wf(),
            final(self).spec_tile_size() == old(self).spec_tile_size(),
            final(self).spec_origin_x() == old(self).spec_origin_x(),
            final(self).spec_origin_y() == old(self).spec_origin_y(),
            match r {
                Some(v) => {
                    &&& old(self)@.dom().contains(*pos)
                    &&& old(self)@[*pos] == v
                    &&& final(self)@ == old(self)@.remove(*pos)
                },
                None => {
                    &&& !old(self)@.dom().contains(*pos)
                    &&& final(self)@ == old(self)@
                },
            },
    {
        proof {
            lemma_assoc_map_dom(self.tiles@);
        }
        let n: usize = self.tiles.len();
        let mut i: usize = 0;
        while i < n
            invariant
                *self == *old(self),
                n == self.tiles@.len(),
                0 <= i <= n,
                self.wf(),
                forall|j: int| 0 <= j < i ==> (#[trigger] self.tiles@[j]).0 != *pos,
            decreases n - i,
        {
            if self.tiles[i].0 == *pos {
                proof {
                    lemma_assoc_map_index(self.tiles@, i as int);
                    lemma_assoc_map_remove(self.tiles@, i as int);
                    assert forall|a: int, b: int|
                        0 <= a < b < self.tiles@.remove(i as int).len() implies (#[trigger] self.tiles@.remove(
                        i as int,
                    )[a]).0 != (#[trigger] self.tiles@.remove(i as int)[b]).0 by {
                        let s = self.tiles@;
                        let a0 = if a < i { a } else { a + 1 };
                        let b0 = if b < i { b } else { b + 1 };
                        assert(s.remove(i as int)[a] == s[a0] && s.remove(i as int)[b] == s[b0]);
                    }
                }
                let entry = self.tiles.remove(i);
                return Some(entry.1);
            }
            i += 1;
        }
        proof {
            lemma_assoc_map_dom(self.tiles@);
        }
        None
    }

    /// Height of a tile sprite on the screen, in quarter-pixels: half the
    /// tile size in pixels.
    pub fn tile_height(&self) -> (r: i64)
        requires
            self.wf(),
        ensures
            r == 2 * self.spec_tile_size(),
    {
        2 * self.tile_size
    }

    /// Vertical distance, in quarter-pixels, from the centre of a tile sprite
    /// to the centre of its top face. Things standing "on" a tile sit this
    /// much higher.
    pub fn tile_top_y_offset(&self) -> (r: i64)
        requires
            self.wf(),
        ensures
            r == self.spec_tile_size(),
    {
        self.tile_size
    }

    /// Screen placement of a grid position, relative to the map origin:
    /// suitable for children of the map's own screen node.
    pub fn world_pos_to_screen_pos(&self, world_pos: Pos) -> (r: ScreenPos)
        requires
            self.wf(),
            pos_in_range(world_pos),
        ensures
            r.x == spec_screen_x(self.spec_tile_size(), world_pos),
            r.y == spec_screen_y(self.spec_tile_size(), world_pos),
            r.z_order == spec_z_order(world_pos),
            -4_000_000_000_000 <= r.x <= 4_000_000_000_000,
            -3_000_000_000_000 <= r.y <= 3_000_000_000_000,
            -16_000_000 <= r.z_order <= 16_000_000,
    {
        proof {
            assert(-4_000_000_000_000 <= 2 * (self.tile_size as int) * (world_pos.x - world_pos.z)
                <= 4_000_000_000_000) by (nonlinear_arith)
                requires
                    0 < self.tile_size <= 1_000_000,
                    -2_000_000 <= world_pos.x - world_pos.z <= 2_000_000,
            ;
            assert(-2_000_000_000_000 <= (self.tile_size as int) * (world_pos.x + world_pos.z)
                <= 2_000_000_000_000) by (nonlinear_arith)
                requires
                    0 < self.tile_size <= 1_000_000,
                    -2_000_000 <= world_pos.x + world_pos.z <= 2_000_000,
            ;
            assert(-1_000_000_000_000 <= (self.tile_size as int) * world_pos.y_half
                <= 1_000_000_000_000) by (nonlinear_arith)
                requires
                    0 < self.tile_size <= 1_000_000,
                    -1_000_000 <= world_pos.y_half <= 1_000_000,
            ;
        }
        proof {
            vstd::arithmetic::mul::lemma_mul_unary_negation(
                self.tile_size as int,
                world_pos.x + world_pos.z,
            );
        }
        let sx: i64 = 2 * self.tile_size * (world_pos.x - world_pos.z);
        let sy: i64 = -(self.tile_size * (world_pos.x + world_pos.z)) + self.tile_size
            * world_pos.y_half;
        let zo: i64 = -world_pos.x - 10 * world_pos.z + 5 * world_pos.y_half;
        ScreenPos { x: sx, y: sy, z_order: zo }
    }

    /// Screen placement of a grid position in absolute screen coordinates:
    /// the relative placement shifted by the map origin.
    pub fn world_pos_to_screen_pos_absolute(&self, world_pos: Pos) -> (r: ScreenPos)
        requires
            self.wf(),
            pos_in_range(world_pos),
        ensures
            r.x == spec_screen_x(self.spec_tile_size(), world_pos) + self.spec_origin_x(),
            r.y == spec_screen_y(self.spec_tile_size(), world_pos) + self.spec_origin_y(),
            r.z_order == spec_z_order(world_pos),
            -5_000_000_000_000 <= r.x <= 5_000_000_000_000,
            -4_000_000_000_000 <= r.y <= 4_000_000_000_000,
    {
        let rel = self.world_pos_to_screen_pos(world_pos);
        ScreenPos { x: rel.x + self.origin.x, y: rel.y + self.origin.y, z_order: rel.z_order }
    }

    /// Absolute screen coordinates of the centre of the top face of the tile
    /// at `world_pos`: where a unit standing on that tile is drawn. The paint
    /// order is nudged just above the tile's own, so the unit draws in front
    /// of its tile but behind taller tiles.
    pub fn world_pos_to_unit_screen_pos_absolute(&self, world_pos: Pos) -> (r: ScreenPos)
        requires
            self.wf(),
            pos_in_range(world_pos),
        ensures
            r.x == spec_screen_x(self.spec_tile_size(), world_pos) + self.spec_origin_x(),
            r.y == spec_screen_y(self.spec_tile_size(), world_pos) + self.spec_origin_y()
                + self.spec_tile_size(),
            r.z_order == spec_z_order(world_pos) + 5,
    {
        let base = self.world_pos_to_screen_pos_absolute(world_pos);
        let top = self.tile_top_y_offset();
        ScreenPos { x: base.x, y: base.y + top, z_order: base.z_order + 5 }
    }

    /// Inverse transform: the grid cell under an absolute screen point, read
    /// at ground level (`y_half == 0`). Elevation cannot be recovered here;
    /// picking resolves it by searching elevations highest first.
    pub fn screen_pos_to_world_pos(&self, screen_pos: ScreenPoint) -> (r: Pos)
        requires
            self.wf(),
            -MAX_SCREEN <= screen_pos.x <= MAX_SCREEN,
            -MAX_SCREEN <= screen_pos.y <= MAX_SCREEN,
        ensures
            r.x == spec_world_x(
                self.spec_tile_size(),
                screen_pos.x - self.spec_origin_x(),
                screen_pos.y - self.spec_origin_y(),
            ),
            r.y_half == 0,
            r.z == spec_world_z(
                self.spec_tile_size(),
                screen_pos.x - self.spec_origin_x(),
                screen_pos.y - self.spec_origin_y(),
            ),
    {
        let dx: i64 = screen_pos.x - self.origin.x;
        let dy: i64 = screen_pos.y - self.origin.y;
        let x: i64 = div_floor(dx - 2 * dy, 4 * self.tile_size);
        let z: i64 = div_floor(-dx - 2 * dy, 4 * self.tile_size);
        Pos { x, y_half: 0, z }
    }

    /// True when a tile sits directly above `pos`, a half-step or a whole
    /// step up: such a position cannot be stood on.
    pub fn is_pos_covered(&self, pos: Pos) -> (r: bool)
        requires
            self.wf(),
            pos.y_half <= i64::MAX - 2,
        ensures
            r == covered_in(self@, pos),
    {
        let up1 = Pos { x: pos.x, y_half: pos.y_half + 1, z: pos.z };
        let up2 = Pos { x: pos.x, y_half: pos.y_half + 2, z: pos.z };
        let r = self.get(&up1).is_some() || self.get(&up2).is_some();
        proof {
            if !r && covered_in(self@, pos) {
                let q = choose|q: Pos|
                    #[trigger] self@.dom().contains(q) && q.x == pos.x && q.z == pos.z && (q.y_half
                        == pos.y_half + 1 || q.y_half == pos.y_half + 2);
                assert(q == up1 || q == up2);
            }
        }
        r
    }

    /// Appends `cand` to `frontier` when it is occupied, not covered, and not
    /// already listed.
    fn push_open_neighbor(&self, frontier: &mut Vec<Pos>, cand: Pos)
        requires
            self.wf(),
            -COORD_LIMIT - 1 <= cand.y_half <= COORD_LIMIT + 1,
            old(frontier)@.no_duplicates(),
        ensures
            final(frontier)@.no_duplicates(),
            forall|q: Pos|
                #[trigger] final(frontier)@.contains(q) <==> (old(frontier)@.contains(q) || (q
                    == cand && self@.dom().contains(cand) && !covered_in(self@, cand))),
    {
        if self.get(&cand).is_some() && !self.is_pos_covered(cand) {
            if !vec_contains_pos(frontier, &cand) {
                frontier.push(cand);
                proof {
                    let s_old = old(frontier)@;
                    let s_new = frontier@;
                    assert(s_new == s_old.push(cand));
                    assert(s_new[s_new.len() - 1] == cand);
                    assert(s_new.contains(cand));
                    assert forall|q: Pos| #[trigger] s_new.contains(q) implies (s_old.contains(q)
                        || q == cand) by {
                        let idx = choose|idx: int| 0 <= idx < s_new.len() && s_new[idx] == q;
                        if idx < s_new.len() - 1 {
                            assert(s_old[idx] == q);
                        }
                    }
                    assert forall|q: Pos| s_old.contains(q) implies #[trigger] s_new.contains(
                        q,
                    ) by {
                        let idx = choose|idx: int| 0 <= idx < s_old.len() && s_old[idx] == q;
                        assert(s_new[idx] == q);
                    }
                    assert forall|a: int, b: int| 0 <= a < b < s_new.len() implies (
                    #[trigger] s_new[a]) != (#[trigger] s_new[b]) by {
                        if b < s_new.len() - 1 {
                            assert(s_old[a] == s_new[a] && s_old[b] == s_new[b]);
                        } else {
                            assert(s_old[a] == s_new[a]);
                            assert(s_new[b] == cand);
                            if s_new[a] == cand {
                                assert(s_old.contains(cand));
                            }
                        }
                    }
                }
            }
        }
    }

    /// All positions one legal move away from `pos`: occupied, not covered,
    /// one step along `x` or `z`, level or a half-step up or down. Up to 12
    /// candidates; the result lists each at most once.
    pub fn get_frontier(&self, pos: Pos) -> (r: Vec<Pos>)
        requires
            self.wf(),
            pos_in_range(pos),
        ensures
            r@.no_duplicates(),
            forall|q: Pos| #[trigger] r@.contains(q) <==> step(self@, pos, q),
    {
        let c0 = Pos { x: pos.x + 1, y_half: pos.y_half, z: pos.z };
        let c1 = Pos { x: pos.x - 1, y_half: pos.y_half, z: pos.z };
        let c2 = Pos { x: pos.x, y_half: pos.y_half, z: pos.z + 1 };
        let c3 = Pos { x: pos.x, y_half: pos.y_half, z: pos.z - 1 };
        let c4 = Pos { x: pos.x + 1, y_half: pos.y_half + 1, z: pos.z };
        let c5 = Pos { x: pos.x - 1, y_half: pos.y_half + 1, z: pos.z };
        let c6 = Pos { x: pos.x, y_half: pos.y_half + 1, z: pos.z + 1 };
        let c7 = Pos { x: pos.x, y_half: pos.y_half + 1, z: pos.z - 1 };
        let c8 = Pos { x: pos.x + 1, y_half: pos.y_half - 1, z: pos.z };
        let c9 = Pos { x: pos.x - 1, y_half: pos.y_half - 1, z: pos.z };
        let c10 = Pos { x: pos.x, y_half: pos.y_half - 1, z: pos.z + 1 };
        let c11 = Pos { x: pos.x, y_half: pos.y_half - 1, z: pos.z - 1 };
        let mut frontier: Vec<Pos> = Vec::new();
        // Current elevation.
        self.push_open_neighbor(&mut frontier, c0);
        self.push_open_neighbor(&mut frontier, c1);
        self.push_open_neighbor(&mut frontier, c2);
        self.push_open_neighbor(&mut frontier, c3);
        // Half a step higher.
        self.push_open_neighbor(&mut frontier, c4);
        self.push_open_neighbor(&mut frontier, c5);
        self.push_open_neighbor(&mut frontier, c6);
        self.push_open_neighbor(&mut frontier, c7);
        // Half a step lower.
        self.push_open_neighbor(&mut frontier, c8);
        self.push_open_neighbor(&mut frontier, c9);
        self.push_open_neighbor(&mut frontier, c10);
        self.push_open_neighbor(&mut frontier, c11);
        proof {
            assert forall|q: Pos| step(self@, pos, q) implies #[trigger] frontier@.contains(q) by {
                assert(q == c0 || q == c1 || q == c2 || q == c3 || q == c4 || q == c5 || q == c6
                    || q == c7 || q == c8 || q == c9 || q == c10 || q == c11);
            }
        }
        frontier
    }
}

/// Linear membership test on a vector of positions.
pub(crate) fn vec_contains_pos(v: &Vec<Pos>, p: &Pos) -> (r: bool)
    ensures
        r == v@.contains(*p),
{
    let n: usize = v.len();
    let mut i: usize = 0;
    while i < n
        invariant
            n == v@.len(),
            0 <= i <= n,
            forall|j: int| 0 <= j < i ==> v@[j] != *p,
        decreases n - i,
    {
        if v[i] == *p {
            return true;
        }
        i += 1;
    }
    false
}

/// One-step reachability is symmetric where the move back is itself legal:
/// if `q` is in the frontier of `p`, and `p` is occupied and not covered,
/// then `p` is in the frontier of `q` — an elevation change of a half-step
/// one way is a half-step back the other way.
pub proof fn lemma_frontier_symmetry(m: Map<Pos, u64>, p: Pos, q: Pos)
    requires
        step(m, p, q),
        m.dom().contains(p),
        !covered_in(m, p),
    ensures
        step(m, q, p),
{
}

} // verus!

