use vstd::prelude::*;
use crate::map::TileMap;
use crate::map::step;
use crate::pos::Pos;
use crate::pos::pos_in_range;
use crate::pos::spec_distance;

verus! {

/// Path search failed in the expected, recoverable way.
#[derive(Clone, Copy, Debug, PartialEq, Eq, Structural)]
pub enum PathError {
    /// Start and goal are not connected through occupied, uncovered tiles.
    /// Distinct from an empty path, which means the goal is the start.
    NoPathFound,
}

/// `w` walks from `a` to `b`: it starts at `a`, ends at `b`, and every
/// consecutive pair is one legal move. The starting position itself need not
/// be occupied; every later position is, being a move target.
pub open spec fn is_walk(m: Map<Pos, u64>, w: Seq<Pos>, a: Pos, b: Pos) -> bool {
    &&& w.len() >= 1
    &&& w[0] == a
    &&& w[w.len() - 1] == b
    &&& forall|i: int| 0 <= i < w.len() - 1 ==> step(m, w[i], #[trigger] w[i + 1])
}

/// The search heuristic: grid distance in half-steps, divided by six. One
/// move changes the distance by at most three half-steps, so this never
/// overestimates the number of moves left.
pub open spec fn spec_heuristic(p: Pos, goal: Pos) -> int {
    spec_distance(p, goal) / 6
}

/// The heuristic never exceeds the length, in moves, of any walk to `goal`.
pub open spec fn heuristic_admissible(m: Map<Pos, u64>, goal: Pos) -> bool {
    forall|p: Pos, w: Seq<Pos>|
        #[trigger] is_walk(m, w, p, goal) ==> spec_heuristic(p, goal) <= w.len() - 1
}

/// One move changes the grid distance to any fixed goal by at most three
/// half-steps: two for the horizontal step and one for the elevation change.
proof fn lemma_step_distance(m: Map<Pos, u64>, p: Pos, q: Pos, goal: Pos)
    requires
        step(m, p, q),
    ensures
        spec_distance(p, goal) <= spec_distance(q, goal) + 3,
{
}

/// Along any walk to `goal`, the heuristic at the start is at most the number
/// of moves in the walk.
proof fn lemma_walk_heuristic(m: Map<Pos, u64>, w: Seq<Pos>, p: Pos, goal: Pos)
    requires
        is_walk(m, w, p, goal),
    ensures
        spec_heuristic(p, goal) <= w.len() - 1,
    decreases w.len(),
{
    if w.len() == 1 {
        assert(spec_distance(p, goal) == 0);
    } else {
        let w2 = w.subrange(1, w.len() as int);
        assert forall|i: int| 0 <= i < w2.len() - 1 implies step(m, w2[i], #[trigger] w2[i + 1]) by {
            assert(w2[i] == w[i + 1] && w2[i + 1] == w[i + 2]);
            assert(step(m, w[i + 1], w[i + 1 + 1]));
        }
        assert(is_walk(m, w2, w[1], goal));
        lemma_walk_heuristic(m, w2, w[1], goal);
        assert(step(m, w[0int], w[0int + 1]));
        lemma_step_distance(m, p, w[1], goal);
        let dp = spec_distance(p, goal);
        let dq = spec_distance(w[1], goal);
        assert(dp / 6 <= dq / 6 + 1) by {
            vstd::arithmetic::div_mod::lemma_div_is_ordered(dp, dq + 6, 6);
            vstd::arithmetic::div_mod::lemma_div_plus_one(dq, 6);
        }
    }
}

/// The heuristic is admissible on every map, for every goal.
pub proof fn lemma_heuristic_admissible(m: Map<Pos, u64>, goal: Pos)
    ensures
        heuristic_admissible(m, goal),
{
    assert forall|p: Pos, w: Seq<Pos>| #[trigger] is_walk(m, w, p, goal) implies spec_heuristic(
        p,
        goal,
    ) <= w.len() - 1 by {
        lemma_walk_heuristic(m, w, p, goal);
    }
}

/// The heuristic handed to the search, in whole moves.
fn heuristic(p: &Pos, goal: &Pos) -> (h: u32)
    requires
        pos_in_range(*p),
        pos_in_range(*goal),
    ensures
        h == spec_heuristic(*p, *goal),
{
    let d: i64 = p.distance(goal);
    ((d as u64) / 6) as u32
}

/// Whether the search reached its goal.
fn is_goal(p: &Pos, goal: &Pos) -> (r: bool)
    ensures
        r == (*p == *goal),
{
    *p == *goal
}

impl Pos {
    /// The frontier of this position as weighted search edges, one unit of
    /// cost per move.
    pub fn successors(&self, map: &TileMap) -> (r: Vec<(Pos, u32)>)
        requires
            map.wf(),
            pos_in_range(*self),
        ensures
            forall|i: int|
                0 <= i < r@.len() ==> (#[trigger] r@[i]).1 == 1 && step(map@, *self, r@[i].0),
            forall|q: Pos|
                step(map@, *self, q) ==> exists|i: int| 0 <= i < r@.len() && (#[trigger] r@[i]).0
                    == q,
    {
        let frontier = map.get_frontier(*self);
        let mut r: Vec<(Pos, u32)> = Vec::new();
        let n: usize = frontier.len();
        let mut i: usize = 0;
        while i < n
            invariant
                n == frontier@.len(),
                0 <= i <= n,
                r@.len() == i,
                forall|j: int| 0 <= j < i ==> (#[trigger] r@[j]) == (frontier@[j], 1u32),
            decreases n - i,
        {
            r.push((frontier[i], 1));
            i += 1;
        }
        proof {
            assert forall|q: Pos| step(map@, *self, q) implies exists|i: int|
                0 <= i < r@.len() && (#[trigger] r@[i]).0 == q by {
                assert(frontier@.contains(q));
                let j = choose|j: int| 0 <= j < frontier@.len() && frontier@[j] == q;
                assert(r@[j].0 == q);
            }
            assert forall|i: int| 0 <= i < r@.len() implies (#[trigger] r@[i]).1 == 1 && step(
                map@,
                *self,
                r@[i].0,
            ) by {
                assert(r@[i] == (frontier@[i], 1u32));
                assert(frontier@.contains(frontier@[i]));
            }
        }
        r
    }
}

/// Relies on pathfinding::prelude::astar: starting from `start` it follows
/// the successor edges until the goal test holds, and returns the found path,
/// start and goal included and no node listed twice, or `None` exactly when
/// no such path exists. When the heuristic never overestimates the true
/// remaining cost, the returned path has minimal total cost; every edge here
/// costs one, so minimal cost is minimal length. Every node the search hands
/// to the closures is the start or a frontier member, hence an occupied tile,
/// so it lies in the grid range the helpers require.
#[verifier::external_body]
fn astar_search(map: &TileMap, start: Pos, goal: Pos) -> (r: Option<Vec<Pos>>)
    requires
        map.wf(),
        pos_in_range(start),
        pos_in_range(goal),
    ensures
        match r {
            Some(path) => {
                &&& is_walk(map@, path@, start, goal)
                &&& path@.no_duplicates()
                &&& (heuristic_admissible(map@, goal) ==> forall|w: Seq<Pos>|
                    is_walk(map@, w, start, goal) ==> path@.len() <= w.len())
            },
            None => forall|w: Seq<Pos>| !is_walk(map@, w, start, goal),
        },
{
    let found = pathfinding::prelude::astar(
        &start,
        |p: &Pos| p.successors(map),
        |p: &Pos| heuristic(p, &goal),
        |p: &Pos| is_goal(p, &goal),
    );
    found.map(|path_and_cost| path_and_cost.0)
}

/// The result `path` is what shortest-path search owes its caller: appending
/// it to the start gives a legal walk to `goal`; it is empty exactly when the
/// goal is the start; the start is excluded; and no walk over the same
/// adjacency is shorter.
pub open spec fn shortest_path_ok(m: Map<Pos, u64>, start: Pos, goal: Pos, path: Seq<Pos>) -> bool {
    &&& is_walk(m, seq![start] + path, start, goal)
    &&& (path.len() == 0 <==> start == goal)
    &&& (forall|i: int| 0 <= i < path.len() ==> path[i] != start)
    &&& (forall|w: Seq<Pos>| is_walk(m, w, start, goal) ==> path.len() + 1 <= w.len())
}

impl TileMap {
    /// Shortest path from `start` to `goal` over the frontier adjacency, one
    /// move per step. The result excludes the start and ends with the goal;
    /// it is empty exactly when the goal is the start. No shorter route
    /// exists through occupied, uncovered tiles; when no route exists at all
    /// the search says so rather than returning an empty path.
    pub fn shortest_path(&self, start: Pos, goal: Pos) -> (r: Result<Vec<Pos>, PathError>)
        requires
            self.wf(),
            pos_in_range(start),
            pos_in_range(goal),
        ensures
            match r {
                Ok(path) => shortest_path_ok(self@, start, goal, path@),
                Err(e) => {
                    &&& e == PathError::NoPathFound
                    &&& forall|w: Seq<Pos>| !is_walk(self@, w, start, goal)
                },
            },
    {
        proof {
            lemma_heuristic_admissible(self@, goal);
        }
        match astar_search(self, start, goal) {
            Some(mut path) => {
                let ghost full = path@;
                proof {
                    assert(full[0] == start);
                    assert(is_walk(self@, seq![start], start, start));
                }
                let _first = path.remove(0);
                proof {
                    assert(seq![start] + path@ =~= full);
                    assert forall|i: int| 0 <= i < path@.len() implies path@[i] != start by {
                        assert(full[i + 1] == path@[i]);
                        assert(full[0] == start);
                    }
                    if start == goal {
                        assert(full.len() <= seq![start].len());
                    }
                    if path@.len() == 0 {
                        assert(full =~= seq![start]);
                    }
                }
                Ok(path)
            },
            None => Err(PathError::NoPathFound),
        }
    }
}

impl crate::unit::Unit {
    /// Shortest path from this unit's position to `target_pos`, ready to walk:
    /// the unit's own tile is excluded and the target is the last waypoint.
    pub fn get_path(&self, target_pos: Pos, map: &TileMap) -> (r: Result<Vec<Pos>, PathError>)
        requires
            map.wf(),
            pos_in_range(self.pos),
            pos_in_range(target_pos),
        ensures
            match r {
                Ok(path) => shortest_path_ok(map@, self.pos, target_pos, path@),
                Err(e) => {
                    &&& e == PathError::NoPathFound
                    &&& forall|w: Seq<Pos>| !is_walk(map@, w, self.pos, target_pos)
                },
            },
    {
        map.shortest_path(self.pos, target_pos)
    }
}

} // verus!
