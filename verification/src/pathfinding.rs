//! What a route search is: a best-first search with an open set, a closed set, the
//! cheapest known cost of each tile and the tile it was reached from, written down
//! as a value and the steps that lead from one such value to the next.

use crate::geography::{Geography, Position, TilePoint};
use vstd::prelude::*;

verus! {

/// An entry of the open set: a tile and the priority it was queued with.
#[derive(Copy, Clone, Debug, PartialEq, Eq)]
pub struct PathState {
    pub cost: u128,
    pub position: TilePoint,
}

/// The order in which the open set gives its entries out: lower cost first; among
/// equal costs lower `x` first, then lower `y`.
pub open spec fn before(a: PathState, b: PathState) -> bool {
    ||| a.cost < b.cost
    ||| a.cost == b.cost && a.position.x < b.position.x
    ||| a.cost == b.cost && a.position.x == b.position.x && a.position.y < b.position.y
}

/// The squared straight-line distance between two tiles.
pub open spec fn distance_squared(a: TilePoint, b: TilePoint) -> int {
    (a.x - b.x) * (a.x - b.x) + (a.y - b.y) * (a.y - b.y)
}

/// A number, held at `limit` where it is above it.
pub open spec fn capped(a: int, limit: int) -> int {
    if a > limit {
        limit
    } else {
        a
    }
}

/// The sum of two numbers, held at `limit` where it would pass it.
pub open spec fn capped_sum(a: int, b: int, limit: int) -> int {
    capped(a + b, limit)
}

/// The squared straight-line distance between two tiles, as far as the machine
/// counts.
pub open spec fn tile_distance(a: TilePoint, b: TilePoint) -> int {
    capped(distance_squared(a, b), u128::MAX as int)
}

/// The squared straight-line distance between two places, in parts, as far as the
/// machine counts.
pub open spec fn place_distance(a: Position, b: Position) -> int {
    capped((a.x - b.x) * (a.x - b.x) + (a.y - b.y) * (a.y - b.y), u128::MAX as int)
}

/// The priority of a tile in the open set: the cost of reaching it plus its squared
/// distance to the goal.
pub open spec fn priority(g: u32, point: TilePoint, goal: TilePoint) -> u128 {
    capped_sum(g as int, tile_distance(point, goal), u128::MAX as int) as u128
}

/// The place of the entry that leaves the open set first: the earliest of those
/// that no other entry comes before.
pub open spec fn first_out(open: Seq<PathState>) -> int
    decreases open.len(),
{
    if open.len() <= 1 {
        0
    } else {
        let earlier = first_out(open.drop_last());
        if before(open.last(), open[earlier]) {
            open.len() - 1
        } else {
            earlier
        }
    }
}

/// The state of a search: the open set, the closed set, the cheapest known cost of
/// each tile found so far, and the tile from which each was reached at that cost.
pub struct Frontier {
    pub open: Seq<PathState>,
    pub closed: Set<TilePoint>,
    pub g_score: Map<TilePoint, u32>,
    pub came_from: Map<TilePoint, TilePoint>,
}

impl Frontier {
    /// The search before its first step: only the start is known, at no cost.
    pub open spec fn begin(start: TilePoint, goal: TilePoint) -> Frontier {
        Frontier {
            open: seq![PathState { cost: priority(0, start, goal), position: start }],
            closed: Set::empty(),
            g_score: Map::empty().insert(start, 0u32),
            came_from: Map::empty(),
        }
    }

    /// The cheapest known cost of reaching `t`; `u32::MAX` for a tile not found
    /// yet.
    pub open spec fn cost_of(self, t: TilePoint) -> u32 {
        if self.g_score.dom().contains(t) {
            self.g_score[t]
        } else {
            u32::MAX
        }
    }

    /// The search after the neighbor of the closed tile `cur` on the side `side` was
    /// offered the way through `cur`. A neighbor that is not closed and is reached
    /// more cheaply this way than by any way known is queued, with this way
    /// recorded. Costs add up to `u32::MAX` at most, which is the cost of a blocked
    /// edge, so that no way through a wall is ever cheaper than anything.
    pub open spec fn relaxed(
        self,
        geo: &Geography,
        cur: TilePoint,
        side: int,
        goal: TilePoint,
    ) -> Frontier {
        let neighbor = cur.toward(side);
        let tentative = capped_sum(
            self.cost_of(cur) as int,
            geo.edge_cost(cur, side),
            u32::MAX as int,
        ) as u32;
        if geo.has_neighbor(cur, side) && !self.closed.contains(neighbor) && tentative
            < self.cost_of(neighbor) {
            Frontier {
                open: self.open.push(
                    PathState { cost: priority(tentative, neighbor, goal), position: neighbor },
                ),
                closed: self.closed,
                g_score: self.g_score.insert(neighbor, tentative),
                came_from: self.came_from.insert(neighbor, cur),
            }
        } else {
            self
        }
    }

    /// The search after the first `sides` sides of `cur` were relaxed, in order.
    pub open spec fn relaxed_up_to(
        self,
        geo: &Geography,
        cur: TilePoint,
        sides: int,
        goal: TilePoint,
    ) -> Frontier
        decreases sides,
    {
        if sides <= 0 {
            self
        } else {
            self.relaxed_up_to(geo, cur, sides - 1, goal).relaxed(geo, cur, sides - 1, goal)
        }
    }

    /// The search after `cur` was closed and its four sides were relaxed.
    pub open spec fn expanded(self, geo: &Geography, cur: TilePoint, goal: TilePoint) -> Frontier {
        Frontier { closed: self.closed.insert(cur), ..self }.relaxed_up_to(geo, cur, 4, goal)
    }

    /// The tiles passed on the recorded way back from `t`, `t` first, as far as
    /// `steps` steps lead.
    pub open spec fn traced(self, t: TilePoint, steps: nat) -> Seq<TilePoint>
        decreases steps,
    {
        if steps == 0 || !self.came_from.dom().contains(t) {
            seq![t]
        } else {
            seq![t] + self.traced(self.came_from[t], (steps - 1) as nat)
        }
    }

    /// What the search comes to within `steps` steps. Each step takes the entry out
    /// of the open set that leaves it first. Where that is the goal, the search ends
    /// with the way recorded for it; a tile that is closed already is passed over;
    /// any other tile is expanded. The search ends without a way when the open set
    /// is empty.
    pub open spec fn searched(self, geo: &Geography, goal: TilePoint, steps: nat) -> Option<
        Seq<TilePoint>,
    >
        decreases steps,
    {
        if steps == 0 || self.open.len() == 0 {
            None
        } else {
            let at = first_out(self.open);
            let cur = self.open[at].position;
            let rest = Frontier { open: self.open.remove(at), ..self };
            if cur == goal {
                Some(rest.traced(goal, geo.search_limit()))
            } else if rest.closed.contains(cur) {
                rest.searched(geo, goal, (steps - 1) as nat)
            } else {
                rest.expanded(geo, cur, goal).searched(geo, goal, (steps - 1) as nat)
            }
        }
    }
}

impl PathState {
    /// Whether this entry leaves the open set before `other`.
    pub fn precedes(&self, other: &PathState) -> (first: bool)
        ensures
            first == before(*self, *other),
    {
        if self.cost != other.cost {
            self.cost < other.cost
        } else if self.position.x != other.position.x {
            self.position.x < other.position.x
        } else {
            self.position.y < other.position.y
        }
    }
}

/// The squared straight-line distance from `point` to `goal`.
pub fn goal_distance_squared(point: &TilePoint, goal: &TilePoint) -> (d: u128)
    ensures
        d == tile_distance(*point, *goal),
{
    let dx: u128 = if point.x >= goal.x {
        (point.x - goal.x) as u128
    } else {
        (goal.x - point.x) as u128
    };
    let dy: u128 = if point.y >= goal.y {
        (point.y - goal.y) as u128
    } else {
        (goal.y - point.y) as u128
    };
    assert(dx * dx <= 0xffff_ffff_ffff_ffff * 0xffff_ffff_ffff_ffff) by (nonlinear_arith)
        requires
            dx <= 0xffff_ffff_ffff_ffff,
    ;
    assert(dy * dy <= 0xffff_ffff_ffff_ffff * 0xffff_ffff_ffff_ffff) by (nonlinear_arith)
        requires
            dy <= 0xffff_ffff_ffff_ffff,
    ;
    assert(dx * dx == (point.x - goal.x) * (point.x - goal.x)) by (nonlinear_arith)
        requires
            dx == point.x - goal.x || dx == goal.x - point.x,
    ;
    assert(dy * dy == (point.y - goal.y) * (point.y - goal.y)) by (nonlinear_arith)
        requires
            dy == point.y - goal.y || dy == goal.y - point.y,
    ;
    (dx * dx).saturating_add(dy * dy)
}

/// The squared straight-line distance between two places.
pub fn distance_squared_between(a: &Position, b: &Position) -> (d: u128)
    ensures
        d == place_distance(*a, *b),
{
    goal_distance_squared(&TilePoint { x: a.x, y: a.y }, &TilePoint { x: b.x, y: b.y })
}

/// Takes the entry out of the open set that leaves it first.
pub fn pop_best(open: &mut Vec<PathState>) -> (best: PathState)
    requires
        old(open).len() > 0,
    ensures
        best == old(open)[first_out(old(open)@)],
        final(open)@ == old(open)@.remove(first_out(old(open)@)),
        0 <= first_out(old(open)@) < old(open).len(),
        forall|j: int| 0 <= j < old(open).len() ==> !before(#[trigger] old(open)[j], best),
{
    let mut at: usize = 0;
    let mut i: usize = 1;
    proof {
        assert(open@.take(1).len() == 1);
    }
    while i < open.len()
        invariant
            at < i <= open.len(),
            at == first_out(open@.take(i as int)),
            forall|j: int| 0 <= j < i ==> !before(#[trigger] open[j], open[at as int]),
        decreases open.len() - i,
    {
        proof {
            assert(open@.take(i + 1).drop_last() == open@.take(i as int));
            assert(open@.take(i + 1).last() == open[i as int]);
            assert(open@.take(i as int)[at as int] == open[at as int]);
        }
        if open[i].precedes(&open[at]) {
            at = i;
        }
        i = i + 1;
    }
    proof {
        assert(open@.take(i as int) == open@);
    }
    open.remove(at)
}

impl Geography {
    /// What a search for a walk from `start` to `goal` finds: nothing where either
    /// tile lies off the grid or the two are the same, and else what the search
    /// that begins at `start` comes to.
    pub open spec fn route(&self, start: TilePoint, goal: TilePoint) -> Option<Seq<TilePoint>> {
        if !self.contains(start) || !self.contains(goal) || start == goal {
            None
        } else {
            Frontier::begin(start, goal).searched(self, goal, self.search_limit())
        }
    }
}

} // verus!
