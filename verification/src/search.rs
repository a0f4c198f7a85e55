//! The route search as it runs: the state it keeps per tile, what holds of that
//! state from step to step, and the search itself.

use crate::geography::{Geography, TilePoint};
use crate::pathfinding::{
    capped_sum, first_out, goal_distance_squared, pop_best, priority, Frontier, PathState,
};
use num_traits::ops::saturating::Saturating;
use vstd::prelude::*;

verus! {

/// `num_traits::ops::saturating::Saturating::saturating_add` on `u32`: the sum of
/// the two numbers, held at `u32::MAX` where it would overflow.
#[verifier::external_body]
fn saturating_sum(a: u32, b: u32) -> (sum: u32)
    ensures
        sum == capped_sum(a as int, b as int, u32::MAX as int),
{
    Saturating::saturating_add(a, b)
}

/// Whether `grid` has `w` columns of `h` cells each.
spec fn shaped<T>(grid: Seq<Vec<T>>, w: int, h: int) -> bool {
    &&& grid.len() == w
    &&& forall|x: int| 0 <= x < w ==> (#[trigger] grid[x]).len() == h
}

/// The cell of `grid` that belongs to the tile `t`.
spec fn cell<T>(grid: Seq<Vec<T>>, t: TilePoint) -> T {
    grid[t.x as int][t.y as int]
}

fn filled<T: Copy>(width: usize, height: usize, value: T) -> (grid: Vec<Vec<T>>)
    ensures
        shaped(grid@, width as int, height as int),
        forall|t: TilePoint| t.x < width && t.y < height ==> #[trigger] cell(grid@, t) == value,
{
    let mut grid: Vec<Vec<T>> = Vec::new();
    let mut x: usize = 0;
    while x < width
        invariant
            x <= width,
            shaped(grid@, x as int, height as int),
            forall|t: TilePoint| t.x < x && t.y < height ==> #[trigger] cell(grid@, t) == value,
        decreases width - x,
    {
        let mut column: Vec<T> = Vec::new();
        let mut y: usize = 0;
        while y < height
            invariant
                y <= height,
                column.len() == y,
                forall|j: int| 0 <= j < y ==> #[trigger] column[j] == value,
            decreases height - y,
        {
            column.push(value);
            y = y + 1;
        }
        let ghost before = grid@;
        grid.push(column);
        proof {
            assert forall|t: TilePoint| t.x < x + 1 && t.y < height implies #[trigger] cell(
                grid@,
                t,
            ) == value by {
                if t.x < x {
                    assert(cell(before, t) == value);
                } else {
                    assert(grid@[t.x as int] == column);
                }
            }
        }
        x = x + 1;
    }
    grid
}

fn set_cell<T>(
    grid: &mut Vec<Vec<T>>,
    Ghost(w): Ghost<int>,
    Ghost(h): Ghost<int>,
    p: TilePoint,
    value: T,
)
    requires
        shaped(old(grid)@, w, h),
        p.x < w,
        p.y < h,
    ensures
        shaped(final(grid)@, w, h),
        cell(final(grid)@, p) == value,
        forall|t: TilePoint|
            t.x < w && t.y < h && t != p ==> #[trigger] cell(final(grid)@, t) == cell(
                old(grid)@,
                t,
            ),
        final(grid)@.len() == old(grid)@.len(),
        forall|x: int| 0 <= x < w && x != p.x ==> #[trigger] final(grid)@[x] == old(grid)@[x],
        final(grid)@[p.x as int]@ == old(grid)@[p.x as int]@.update(p.y as int, value),
{
    grid[p.x][p.y] = value;
}

/// How many cells of a column are not closed.
spec fn unclosed_in(column: Seq<bool>) -> nat
    decreases column.len(),
{
    if column.len() == 0 {
        0
    } else {
        unclosed_in(column.drop_last()) + if column.last() {
            0nat
        } else {
            1nat
        }
    }
}

/// How many cells of a grid are not closed.
spec fn unclosed(grid: Seq<Vec<bool>>) -> nat
    decreases grid.len(),
{
    if grid.len() == 0 {
        0
    } else {
        unclosed(grid.drop_last()) + unclosed_in(grid.last()@)
    }
}

proof fn lemma_close_in_column(column: Seq<bool>, y: int)
    requires
        0 <= y < column.len(),
        !column[y],
    ensures
        unclosed_in(column.update(y, true)) + 1 == unclosed_in(column),
    decreases column.len(),
{
    let after = column.update(y, true);
    if y == column.len() - 1 {
        assert(after.drop_last() == column.drop_last());
    } else {
        lemma_close_in_column(column.drop_last(), y);
        assert(after.drop_last() == column.drop_last().update(y, true));
    }
}

proof fn lemma_close_in_grid(before: Seq<Vec<bool>>, after: Seq<Vec<bool>>, x: int, y: int)
    requires
        before.len() == after.len(),
        0 <= x < before.len(),
        0 <= y < before[x].len(),
        !before[x][y],
        after[x]@ == before[x]@.update(y, true),
        forall|i: int| 0 <= i < before.len() && i != x ==> #[trigger] after[i] == before[i],
    ensures
        unclosed(after) + 1 == unclosed(before),
    decreases before.len(),
{
    if x == before.len() - 1 {
        assert(after.drop_last() == before.drop_last());
        lemma_close_in_column(before[x]@, y);
    } else {
        lemma_close_in_grid(before.drop_last(), after.drop_last(), x, y);
    }
}

proof fn lemma_unclosed_in_bound(column: Seq<bool>)
    ensures
        unclosed_in(column) <= column.len(),
    decreases column.len(),
{
    if column.len() > 0 {
        lemma_unclosed_in_bound(column.drop_last());
    }
}

proof fn lemma_unclosed_bound(grid: Seq<Vec<bool>>, w: int, h: int)
    requires
        shaped(grid, w, h),
        0 <= h,
    ensures
        unclosed(grid) <= w * h,
    decreases grid.len(),
{
    if grid.len() > 0 {
        assert(shaped(grid.drop_last(), w - 1, h));
        lemma_unclosed_bound(grid.drop_last(), w - 1, h);
        lemma_unclosed_in_bound(grid.last()@);
        assert((w - 1) * h + h == w * h) by (nonlinear_arith);
    } else {
        assert(w * h == 0) by (nonlinear_arith)
            requires
                w == 0,
        ;
    }
}

/// The sum of the costs in a column.
spec fn total_in(column: Seq<u32>) -> nat
    decreases column.len(),
{
    if column.len() == 0 {
        0
    } else {
        total_in(column.drop_last()) + column.last() as nat
    }
}

/// The sum of the costs in a grid.
spec fn total(grid: Seq<Vec<u32>>) -> nat
    decreases grid.len(),
{
    if grid.len() == 0 {
        0
    } else {
        total(grid.drop_last()) + total_in(grid.last()@)
    }
}

proof fn lemma_lower_in_column(column: Seq<u32>, y: int, v: u32)
    requires
        0 <= y < column.len(),
        v <= column[y],
    ensures
        total_in(column.update(y, v)) + (column[y] - v) == total_in(column),
    decreases column.len(),
{
    let after = column.update(y, v);
    if y == column.len() - 1 {
        assert(after.drop_last() == column.drop_last());
    } else {
        lemma_lower_in_column(column.drop_last(), y, v);
        assert(after.drop_last() == column.drop_last().update(y, v));
    }
}

proof fn lemma_lower_in_grid(before: Seq<Vec<u32>>, after: Seq<Vec<u32>>, x: int, y: int, v: u32)
    requires
        before.len() == after.len(),
        0 <= x < before.len(),
        0 <= y < before[x].len(),
        v <= before[x][y],
        after[x]@ == before[x]@.update(y, v),
        forall|i: int| 0 <= i < before.len() && i != x ==> #[trigger] after[i] == before[i],
    ensures
        total(after) + (before[x][y] - v) == total(before),
    decreases before.len(),
{
    if x == before.len() - 1 {
        assert(after.drop_last() == before.drop_last());
        lemma_lower_in_column(before[x]@, y, v);
    } else {
        lemma_lower_in_grid(before.drop_last(), after.drop_last(), x, y, v);
    }
}

proof fn lemma_total_in_bound(column: Seq<u32>)
    ensures
        total_in(column) <= column.len() * u32::MAX,
    decreases column.len(),
{
    if column.len() > 0 {
        lemma_total_in_bound(column.drop_last());
        assert((column.len() - 1) * u32::MAX + u32::MAX == column.len() * u32::MAX)
            by (nonlinear_arith);
    }
}

proof fn lemma_total_bound(grid: Seq<Vec<u32>>, w: int, h: int)
    requires
        shaped(grid, w, h),
        0 <= h,
    ensures
        total(grid) <= w * h * u32::MAX,
    decreases grid.len(),
{
    if grid.len() > 0 {
        assert(shaped(grid.drop_last(), w - 1, h));
        lemma_total_bound(grid.drop_last(), w - 1, h);
        lemma_total_in_bound(grid.last()@);
        assert((w - 1) * h * u32::MAX + h * u32::MAX == w * h * u32::MAX) by (nonlinear_arith);
    } else {
        assert(w * h * u32::MAX == 0) by (nonlinear_arith)
            requires
                w == 0,
        ;
    }
}

/// The state of one search. Every tile of the grid has its cell in each of the
/// three grids, so that what is known of a tile is found by its coordinates: whether
/// it is closed, the cheapest known cost of reaching it (`u32::MAX` while none is
/// known), and the tile it was reached from. The open set is a list, searched for
/// the entry that leaves first.
struct Search {
    closed: Vec<Vec<bool>>,
    g_score: Vec<Vec<u32>>,
    came_from: Vec<Vec<Option<TilePoint>>>,
    open: Vec<PathState>,
    /// How many moves the recorded way to each tile takes.
    depth: Ghost<Map<TilePoint, nat>>,
}

impl Search {
    spec fn is_closed(&self, t: TilePoint) -> bool {
        cell(self.closed@, t)
    }

    spec fn g(&self, t: TilePoint) -> u32 {
        cell(self.g_score@, t)
    }

    spec fn parent(&self, t: TilePoint) -> Option<TilePoint> {
        cell(self.came_from@, t)
    }

    /// A tile is discovered once a cost of reaching it is known.
    spec fn discovered(&self, t: TilePoint) -> bool {
        self.g(t) < u32::MAX
    }

    spec fn queued(&self, t: TilePoint) -> bool {
        exists|k: int| 0 <= k < self.open.len() && (#[trigger] self.open[k]).position == t
    }

    spec fn shaped(&self, geo: &Geography) -> bool {
        &&& shaped(self.closed@, geo.width as int, geo.height as int)
        &&& shaped(self.g_score@, geo.width as int, geo.height as int)
        &&& shaped(self.came_from@, geo.width as int, geo.height as int)
    }

    /// The tile that `t` was reached from is closed, one move away from `t`, and
    /// nearer to the start; only the start was reached from nowhere.
    spec fn linked(&self, geo: &Geography, start: TilePoint, t: TilePoint) -> bool {
        if t == start {
            self.parent(t) is None
        } else {
            match self.parent(t) {
                Some(m) => {
                    &&& geo.contains(m)
                    &&& cell(self.closed@, m)
                    &&& cell(self.g_score@, m) < u32::MAX
                    &&& geo.step(m, t)
                    &&& self.depth@[m] < self.depth@[t]
                },
                None => false,
            }
        }
    }

    spec fn sound(&self, geo: &Geography, start: TilePoint, goal: TilePoint) -> bool {
        &&& self.shaped(geo)
        &&& geo.contains(start)
        &&& geo.contains(goal)
        &&& start != goal
        &&& self.g(start) == 0
        &&& !self.is_closed(goal)
        &&& forall|t: TilePoint|
            geo.contains(t) && #[trigger] self.discovered(t) ==> self.linked(geo, start, t)
        &&& forall|t: TilePoint| geo.contains(t) && #[trigger] self.is_closed(t) ==> self.discovered(t)
        &&& forall|k: int|
            0 <= k < self.open.len() ==> geo.contains((#[trigger] self.open[k]).position)
                && self.discovered(self.open[k].position)
    }
}

proof fn lemma_unclosed_positive(grid: Seq<Vec<bool>>, x: int, y: int)
    requires
        0 <= x < grid.len(),
        0 <= y < grid[x].len(),
        !grid[x][y],
    ensures
        unclosed(grid) >= 1,
    decreases grid.len(),
{
    if x == grid.len() - 1 {
        lemma_unclosed_in_positive(grid[x]@, y);
    } else {
        lemma_unclosed_positive(grid.drop_last(), x, y);
    }
}

proof fn lemma_unclosed_in_positive(column: Seq<bool>, y: int)
    requires
        0 <= y < column.len(),
        !column[y],
    ensures
        unclosed_in(column) >= 1,
    decreases column.len(),
{
    if y < column.len() - 1 {
        lemma_unclosed_in_positive(column.drop_last(), y);
    }
}

/// Relaxing an edge within the budget cannot reach `u32::MAX`.
proof fn lemma_budget_holds(g: int, d: int, u: int, n: int, ca: int, cb: int)
    requires
        n >= 1,
        u >= 1,
        d >= 0,
        g >= 0,
        ca >= 0,
        cb >= 0,
        g * n <= d * (u32::MAX - 1),
        d + u + 1 <= n,
        2 * ca * n < u32::MAX,
        2 * cb * n < u32::MAX,
    ensures
        g + ca + cb < u32::MAX,
        (g + ca + cb) * n <= (d + 1) * (u32::MAX - 1),
{
    let m = u32::MAX - 1;
    assert((ca + cb) * n <= m) by (nonlinear_arith)
        requires
            2 * ca * n <= m,
            2 * cb * n <= m,
    ;
    assert((g + ca + cb) * n == g * n + (ca + cb) * n) by (nonlinear_arith);
    assert((d + 1) * m == d * m + m) by (nonlinear_arith);
    assert((d + 1) * m <= (n - 1) * m) by (nonlinear_arith)
        requires
            d + 1 <= n - 1,
            m >= 0,
    ;
    assert(g + ca + cb < m + 1) by (nonlinear_arith)
        requires
            (g + ca + cb) * n <= (n - 1) * m,
            n >= 1,
            m >= 0,
            g + ca + cb >= 0,
    ;
}

impl Search {
    /// Whether the closed tile `m` has a passable edge on the side `side`.
    spec fn opens_onto(&self, geo: &Geography, m: TilePoint, side: int) -> bool {
        &&& self.is_closed(m)
        &&& 0 <= side < 4
        &&& geo.has_neighbor(m, side)
        &&& !geo.blocked(m, side)
    }

    /// Within the budget a known cost is the exact cost of a way that passes no
    /// tile twice.
    spec fn bounded(&self, geo: &Geography, t: TilePoint) -> bool {
        &&& self.g(t) * (geo.width * geo.height) <= self.depth@[t] * (u32::MAX - 1)
        &&& self.depth@[t] + unclosed(self.closed@) + (if self.is_closed(t) {
            1int
        } else {
            0int
        }) <= geo.width * geo.height
    }

    /// Nothing that can be reached is lost: a discovered tile is closed or queued,
    /// and within the budget every passable edge of a closed tile leads to a
    /// discovered tile. While the tile `busy` is being expanded, this holds of its
    /// first `done` sides only, and `busy` itself need not be queued.
    spec fn covered(&self, geo: &Geography, busy: TilePoint, done: int) -> bool {
        &&& forall|t: TilePoint|
            geo.contains(t) && #[trigger] self.discovered(t) && !self.is_closed(t) && !(t == busy
                && done < 4) ==> self.queued(t)
        &&& geo.within_budget() ==> forall|t: TilePoint|
            geo.contains(t) && #[trigger] self.discovered(t) ==> self.bounded(geo, t)
        &&& geo.within_budget() ==> forall|m: TilePoint, side: int|
            geo.contains(m) && #[trigger] self.opens_onto(geo, m, side) && !(m == busy && side
                >= done) ==> self.discovered(m.toward(side))
    }

    fn new(geo: &Geography, start: TilePoint, goal: TilePoint) -> (search: Search)
        requires
            geo.wf(),
            geo.contains(start),
            geo.contains(goal),
            start != goal,
        ensures
            search.sound(geo, start, goal),
            search.covered(geo, start, 4),
            search.model(geo) == Frontier::begin(start, goal),
            search.potential() <= geo.search_limit(),
            search.deep(geo, 0),
    {
        let mut closed = filled(geo.width, geo.height, false);
        let mut g_score = filled(geo.width, geo.height, u32::MAX);
        let came_from = filled(geo.width, geo.height, None::<TilePoint>);
        let ghost blank = g_score@;
        set_cell(&mut g_score, Ghost(geo.width as int), Ghost(geo.height as int), start, 0);
        let mut open: Vec<PathState> = Vec::new();
        open.push(PathState { cost: goal_distance_squared(&start, &goal), position: start });
        let search = Search {
            closed,
            g_score,
            came_from,
            open,
            depth: Ghost(Map::empty().insert(start, 0nat)),
        };
        proof {
            lemma_unclosed_bound(search.closed@, geo.width as int, geo.height as int);
            assert(search.open[0].position == start);
            assert(search.queued(start));
            assert forall|t: TilePoint|
                geo.contains(t) && #[trigger] search.discovered(t) implies search.linked(
                geo,
                start,
                t,
            ) && !search.is_closed(t) && search.queued(t) && search.bounded(geo, t) by {
                assert(t == start);
                assert(cell(search.closed@, t) == false);
                assert(cell(search.came_from@, t) == None::<TilePoint>);
            }
            assert forall|t: TilePoint| geo.contains(t) implies !#[trigger] search.is_closed(t) by {
                assert(cell(search.closed@, t) == false);
            }
            let w = geo.width as int;
            let h = geo.height as int;
            lemma_total_bound(blank, w, h);
            assert(cell(blank, start) == u32::MAX);
            lemma_lower_in_grid(blank, search.g_score@, start.x as int, start.y as int, 0);
            assert(w * h >= 1) by (nonlinear_arith)
                requires
                    w >= 1,
                    h >= 1,
            ;
            assert(w * h * u32::MAX - u32::MAX + 1 <= w * h * 0x1_0000_0000) by (nonlinear_arith)
                requires
                    w * h >= 1,
            ;
            let a = search.model(geo);
            let b = Frontier::begin(start, goal);
            assert(a.open =~= b.open);
            assert(a.closed =~= b.closed) by {
                assert forall|t: TilePoint| !a.closed.contains(t) by {
                    if geo.contains(t) {
                        assert(cell(search.closed@, t) == false);
                    }
                }
            }
            assert(a.g_score =~= b.g_score) by {
                assert forall|t: TilePoint| a.g_score.dom().contains(t) == (t == start) by {
                    if geo.contains(t) && t != start {
                        assert(cell(search.g_score@, t) == cell(blank, t));
                    }
                }
            }
            assert(a.came_from =~= b.came_from) by {
                assert forall|t: TilePoint| !a.came_from.dom().contains(t) by {
                    if geo.contains(t) {
                        assert(cell(search.came_from@, t) == None::<TilePoint>);
                    }
                }
            }
        }
        search
    }
}

impl Search {
    /// `after` is `self` with the way to `neighbor` through `cur` recorded at the
    /// cost `tentative` and `entry` queued for it.
    spec fn relaxed_to(
        &self,
        after: &Search,
        geo: &Geography,
        cur: TilePoint,
        neighbor: TilePoint,
        tentative: u32,
        entry: PathState,
    ) -> bool {
        &&& after.shaped(geo)
        &&& after.closed@ == self.closed@
        &&& after.g(neighbor) == tentative
        &&& after.parent(neighbor) == Some(cur)
        &&& forall|t: TilePoint|
            geo.contains(t) && t != neighbor ==> #[trigger] after.g(t) == self.g(t)
        &&& forall|t: TilePoint|
            geo.contains(t) && t != neighbor ==> #[trigger] after.parent(t) == self.parent(t)
        &&& after.open@ == self.open@.push(entry)
        &&& entry.position == neighbor
        &&& after.depth@ == self.depth@.insert(neighbor, self.depth@[cur] + 1)
    }

    /// `after` is `self` with the tile `cur` closed.
    spec fn closed_to(&self, after: &Search, geo: &Geography, cur: TilePoint) -> bool {
        &&& after.shaped(geo)
        &&& after.is_closed(cur)
        &&& forall|t: TilePoint|
            geo.contains(t) && t != cur ==> #[trigger] after.is_closed(t) == self.is_closed(t)
        &&& after.g_score@ == self.g_score@
        &&& after.came_from@ == self.came_from@
        &&& after.open@ == self.open@
        &&& after.depth@ == self.depth@
        &&& unclosed(after.closed@) + 1 == unclosed(self.closed@)
    }

    proof fn lemma_relax_sound(
        &self,
        after: &Search,
        geo: &Geography,
        start: TilePoint,
        goal: TilePoint,
        cur: TilePoint,
        side: int,
        neighbor: TilePoint,
        tentative: u32,
        entry: PathState,
    )
        requires
            self.sound(geo, start, goal),
            self.relaxed_to(after, geo, cur, neighbor, tentative, entry),
            geo.contains(cur),
            self.is_closed(cur),
            0 <= side < 4,
            geo.has_neighbor(cur, side),
            neighbor == cur.toward(side),
            !geo.blocked(cur, side),
            !self.is_closed(neighbor),
            tentative < self.g(neighbor),
        ensures
            after.sound(geo, start, goal),
    {
        assert(geo.contains(neighbor));
        assert(self.discovered(cur));
        assert(geo.step(cur, neighbor));
        assert(neighbor != start);
        assert forall|t: TilePoint|
            geo.contains(t) && #[trigger] after.discovered(t) implies after.linked(
            geo,
            start,
            t,
        ) by {
            if t == neighbor {
                assert(after.g(cur) == self.g(cur));
                assert(after.is_closed(cur));
            } else {
                assert(after.g(t) == self.g(t));
                assert(self.discovered(t));
                assert(self.linked(geo, start, t));
                assert(after.parent(t) == self.parent(t));
                if t != start {
                    let m = self.parent(t).unwrap();
                    assert(self.is_closed(m));
                    assert(m != neighbor);
                    assert(after.g(m) == self.g(m));
                }
            }
        }
        assert forall|t: TilePoint|
            geo.contains(t) && #[trigger] after.is_closed(t) implies after.discovered(t) by {
            assert(self.is_closed(t));
            assert(self.discovered(t));
            assert(after.g(t) == self.g(t));
        }
        assert forall|k: int| 0 <= k < after.open.len() implies geo.contains(
            (#[trigger] after.open[k]).position,
        ) && after.discovered(after.open[k].position) by {
            if k < self.open.len() {
                assert(after.open[k] == self.open[k]);
                let t = self.open[k].position;
                assert(self.discovered(t));
                if t != neighbor {
                    assert(after.g(t) == self.g(t));
                }
            }
        }
        assert(after.g(start) == self.g(start));
    }

    proof fn lemma_relax_covered(
        &self,
        after: &Search,
        geo: &Geography,
        start: TilePoint,
        goal: TilePoint,
        cur: TilePoint,
        side: int,
        neighbor: TilePoint,
        tentative: u32,
        entry: PathState,
    )
        requires
            self.sound(geo, start, goal),
            self.covered(geo, cur, side),
            self.relaxed_to(after, geo, cur, neighbor, tentative, entry),
            geo.contains(cur),
            self.is_closed(cur),
            0 <= side < 4,
            geo.has_neighbor(cur, side),
            neighbor == cur.toward(side),
            !self.is_closed(neighbor),
            tentative < self.g(neighbor),
            geo.within_budget() ==> (tentative as int) * (geo.width * geo.height) <= (
            self.depth@[cur] + 1) * (u32::MAX - 1) && self.depth@[cur] + 1 + unclosed(
                self.closed@,
            ) <= geo.width * geo.height,
        ensures
            after.covered(geo, cur, side + 1),
    {
        assert(geo.contains(neighbor));
        assert(after.open[self.open.len() as int].position == neighbor);
        assert(after.queued(neighbor));
        assert forall|t: TilePoint|
            geo.contains(t) && #[trigger] after.discovered(t) && !after.is_closed(t) && !(t == cur
                && side + 1 < 4) implies after.queued(t) by {
            if t != neighbor {
                assert(after.g(t) == self.g(t));
                assert(self.discovered(t));
                assert(self.queued(t));
                let k = choose|k: int|
                    0 <= k < self.open.len() && (#[trigger] self.open[k]).position == t;
                assert(after.open[k] == self.open[k]);
            }
        }
        if geo.within_budget() {
            assert forall|t: TilePoint|
                geo.contains(t) && #[trigger] after.discovered(t) implies after.bounded(geo, t) by {
                if t != neighbor {
                    assert(after.g(t) == self.g(t));
                    assert(self.discovered(t));
                    assert(self.bounded(geo, t));
                }
            }
            assert forall|m: TilePoint, s: int|
                geo.contains(m) && #[trigger] after.opens_onto(geo, m, s) && !(m == cur && s >= side
                    + 1) implies after.discovered(m.toward(s)) by {
                assert(self.opens_onto(geo, m, s));
                if m == cur && s == side {
                } else {
                    let t = m.toward(s);
                    assert(self.discovered(t));
                    assert(geo.contains(t));
                    if t != neighbor {
                        assert(after.g(t) == self.g(t));
                    }
                }
            }
        }
    }

    proof fn lemma_skip_covered(&self, geo: &Geography, cur: TilePoint, side: int)
        requires
            self.covered(geo, cur, side),
            self.is_closed(cur),
            0 <= side < 4,
            geo.within_budget() ==> !geo.has_neighbor(cur, side) || geo.blocked(cur, side)
                || self.discovered(cur.toward(side)),
        ensures
            self.covered(geo, cur, side + 1),
    {
        assert forall|t: TilePoint|
            geo.contains(t) && #[trigger] self.discovered(t) && !self.is_closed(t) && !(t == cur
                && side + 1 < 4) implies self.queued(t) by {
        }
        if geo.within_budget() {
            assert forall|m: TilePoint, s: int|
                geo.contains(m) && #[trigger] self.opens_onto(geo, m, s) && !(m == cur && s >= side
                    + 1) implies self.discovered(m.toward(s)) by {
            }
        }
    }

    proof fn lemma_close(
        &self,
        after: &Search,
        geo: &Geography,
        start: TilePoint,
        goal: TilePoint,
        cur: TilePoint,
    )
        requires
            self.sound(geo, start, goal),
            self.covered(geo, cur, 0),
            self.closed_to(after, geo, cur),
            geo.contains(cur),
            self.discovered(cur),
            !self.is_closed(cur),
            cur != goal,
        ensures
            after.sound(geo, start, goal),
            after.covered(geo, cur, 0),
    {
        assert forall|t: TilePoint|
            geo.contains(t) && #[trigger] after.discovered(t) implies after.linked(
            geo,
            start,
            t,
        ) by {
            assert(self.discovered(t));
            assert(self.linked(geo, start, t));
            if t != start {
                let m = self.parent(t).unwrap();
                assert(self.is_closed(m));
                assert(after.is_closed(m));
            }
        }
        assert forall|t: TilePoint|
            geo.contains(t) && #[trigger] after.is_closed(t) implies after.discovered(t) by {
            if t != cur {
                assert(self.is_closed(t));
                assert(self.discovered(t));
            }
        }
        assert forall|k: int| 0 <= k < after.open.len() implies geo.contains(
            (#[trigger] after.open[k]).position,
        ) && after.discovered(after.open[k].position) by {
            assert(self.discovered(self.open[k].position));
        }
        assert(self.discovered(start));
        assert forall|t: TilePoint|
            geo.contains(t) && #[trigger] after.discovered(t) && !after.is_closed(t) && !(t == cur
                && 0 < 4) implies after.queued(t) by {
            assert(self.discovered(t));
            assert(self.queued(t));
            let k = choose|k: int|
                0 <= k < self.open.len() && (#[trigger] self.open[k]).position == t;
            assert(after.open[k].position == t);
        }
        if geo.within_budget() {
            assert forall|t: TilePoint|
                geo.contains(t) && #[trigger] after.discovered(t) implies after.bounded(geo, t) by {
                assert(self.discovered(t));
                assert(self.bounded(geo, t));
            }
            assert forall|m: TilePoint, s: int|
                geo.contains(m) && #[trigger] after.opens_onto(geo, m, s) && !(m == cur && s >= 0)
                implies after.discovered(m.toward(s)) by {
                assert(self.opens_onto(geo, m, s));
                assert(self.discovered(m.toward(s)));
            }
        }
    }

    /// Offers the neighbor on the side `side` of the closed tile `cur` the way
    /// through `cur`, and records it where it is cheaper than what is known.
    fn relax(
        &mut self,
        geo: &Geography,
        cur: TilePoint,
        side: usize,
        neighbor: TilePoint,
        goal: TilePoint,
        Ghost(start): Ghost<TilePoint>,
        Ghost(spent): Ghost<nat>,
    )
        requires
            geo.wf(),
            old(self).sound(geo, start, goal),
            old(self).covered(geo, cur, side as int),
            old(self).deep(geo, spent),
            old(self).depth@[cur] < spent,
            geo.contains(cur),
            old(self).is_closed(cur),
            side < 4,
            geo.has_neighbor(cur, side as int),
            neighbor == cur.toward(side as int),
        ensures
            final(self).sound(geo, start, goal),
            final(self).covered(geo, cur, side + 1),
            final(self).deep(geo, spent),
            final(self).depth@[cur] == old(self).depth@[cur],
            final(self).closed@ == old(self).closed@,
            final(self).model(geo) == old(self).model(geo).relaxed(geo, cur, side as int, goal),
            final(self).potential() <= old(self).potential(),
    {
        let ghost w = geo.width as int;
        let ghost h = geo.height as int;
        assert(geo.contains(neighbor));
        assert(old(self).discovered(cur));
        if self.closed[neighbor.x][neighbor.y] {
            proof {
                assert(self.is_closed(neighbor));
                assert(self.discovered(neighbor));
                self.lemma_skip_covered(geo, cur, side as int);
                self.lemma_skip_model(geo, cur, side as int, goal);
            }
            return ;
        }
        let cost = geo.get_cost(&cur, &neighbor, side);
        let tentative = saturating_sum(self.g_score[cur.x][cur.y], cost);
        let old_g = self.g_score[neighbor.x][neighbor.y];
        proof {
            if geo.within_budget() && !geo.blocked(cur, side as int) {
                assert(self.bounded(geo, cur));
                lemma_unclosed_positive(self.closed@, neighbor.x as int, neighbor.y as int);
                assert(w * h >= 1) by (nonlinear_arith)
                    requires
                        w >= 1,
                        h >= 1,
                ;
                let ca = geo.tile(cur).terrain_cost as int;
                let cb = geo.tile(neighbor).terrain_cost as int;
                assert(2 * ca * (w * h) < u32::MAX);
                assert(2 * cb * (w * h) < u32::MAX);
                lemma_budget_holds(
                    self.g(cur) as int,
                    self.depth@[cur] as int,
                    unclosed(self.closed@) as int,
                    w * h,
                    ca,
                    cb,
                );
                assert(tentative == self.g(cur) + ca + cb);
            }
        }
        if tentative < old_g {
            let entry = PathState {
                cost: (tentative as u128).saturating_add(goal_distance_squared(&neighbor, &goal)),
                position: neighbor,
            };
            self.open.push(entry);
            set_cell(&mut self.came_from, Ghost(w), Ghost(h), neighbor, Some(cur));
            set_cell(&mut self.g_score, Ghost(w), Ghost(h), neighbor, tentative);
            self.depth = Ghost(self.depth@.insert(neighbor, self.depth@[cur] + 1));
            proof {
                assert(old(self).relaxed_to(&*self, geo, cur, neighbor, tentative, entry));
                old(self).lemma_relax_sound(
                    &*self,
                    geo,
                    start,
                    goal,
                    cur,
                    side as int,
                    neighbor,
                    tentative,
                    entry,
                );
                old(self).lemma_relax_covered(
                    &*self,
                    geo,
                    start,
                    goal,
                    cur,
                    side as int,
                    neighbor,
                    tentative,
                    entry,
                );
                old(self).lemma_relax_model(
                    &*self,
                    geo,
                    cur,
                    side as int,
                    neighbor,
                    goal,
                    tentative,
                    entry,
                );
                lemma_lower_in_grid(
                    old(self).g_score@,
                    self.g_score@,
                    neighbor.x as int,
                    neighbor.y as int,
                    tentative,
                );
                assert forall|t: TilePoint|
                    geo.contains(t) && #[trigger] self.discovered(t) implies self.depth@[t]
                    <= spent by {
                    if t != neighbor {
                        assert(self.g(t) == old(self).g(t));
                        assert(old(self).discovered(t));
                    }
                }
            }
        } else {
            proof {
                if geo.within_budget() && !geo.blocked(cur, side as int) {
                    assert(self.discovered(neighbor));
                }
                self.lemma_skip_covered(geo, cur, side as int);
                self.lemma_skip_model(geo, cur, side as int, goal);
            }
        }
    }

    /// Closes the tile `cur` and offers each of its neighbors the way through it.
    fn expand(
        &mut self,
        geo: &Geography,
        cur: TilePoint,
        goal: TilePoint,
        Ghost(start): Ghost<TilePoint>,
        Ghost(spent): Ghost<nat>,
    )
        requires
            geo.wf(),
            old(self).sound(geo, start, goal),
            old(self).covered(geo, cur, 0),
            old(self).deep(geo, spent),
            geo.contains(cur),
            old(self).discovered(cur),
            !old(self).is_closed(cur),
            cur != goal,
        ensures
            final(self).sound(geo, start, goal),
            final(self).covered(geo, cur, 4),
            final(self).deep(geo, spent + 1),
            unclosed(final(self).closed@) < unclosed(old(self).closed@),
            final(self).model(geo) == old(self).model(geo).expanded(geo, cur, goal),
            final(self).potential() <= old(self).potential(),
    {
        let ghost w = geo.width as int;
        let ghost h = geo.height as int;
        set_cell(&mut self.closed, Ghost(w), Ghost(h), cur, true);
        proof {
            lemma_close_in_grid(old(self).closed@, self.closed@, cur.x as int, cur.y as int);
            assert(old(self).closed_to(&*self, geo, cur));
            old(self).lemma_close(&*self, geo, start, goal, cur);
            old(self).lemma_close_model(&*self, geo, cur);
            assert forall|t: TilePoint|
                geo.contains(t) && #[trigger] self.discovered(t) implies self.depth@[t] <= spent
                + 1 by {
                assert(old(self).discovered(t));
            }
        }
        let ghost closed = self.model(geo);
        let neighbors = geo.get_neighbors(&cur);
        let mut side: usize = 0;
        while side < 4
            invariant
                side <= 4,
                geo.wf(),
                geo.contains(cur),
                self.sound(geo, start, goal),
                self.covered(geo, cur, side as int),
                self.deep(geo, spent + 1),
                self.depth@[cur] <= spent,
                self.is_closed(cur),
                unclosed(self.closed@) < unclosed(old(self).closed@),
                self.model(geo) == closed.relaxed_up_to(geo, cur, side as int, goal),
                self.potential() <= old(self).potential(),
                forall|s: int|
                    0 <= s < 4 ==> #[trigger] neighbors[s] == (if geo.has_neighbor(cur, s) {
                        Some(cur.toward(s))
                    } else {
                        None
                    }),
            decreases 4 - side,
        {
            match neighbors[side] {
                Some(neighbor) => {
                    self.relax(geo, cur, side, neighbor, goal, Ghost(start), Ghost(spent + 1));
                },
                None => {
                    proof {
                        self.lemma_skip_covered(geo, cur, side as int);
                        self.lemma_skip_model(geo, cur, side as int, goal);
                    }
                },
            }
            side = side + 1;
        }
    }
}

impl Search {
    /// `after` is `self` with the entry at `i` taken out of the open set.
    spec fn popped_to(&self, after: &Search, i: int) -> bool {
        &&& 0 <= i < self.open.len()
        &&& after.open@ == self.open@.remove(i)
        &&& after.closed@ == self.closed@
        &&& after.g_score@ == self.g_score@
        &&& after.came_from@ == self.came_from@
        &&& after.depth@ == self.depth@
    }

    proof fn lemma_pop(
        &self,
        after: &Search,
        geo: &Geography,
        start: TilePoint,
        goal: TilePoint,
        i: int,
    )
        requires
            self.sound(geo, start, goal),
            self.covered(geo, start, 4),
            self.popped_to(after, i),
        ensures
            after.sound(geo, start, goal),
            after.covered(geo, self.open[i].position, 0),
            after.is_closed(self.open[i].position) ==> after.covered(geo, start, 4),
    {
        let cur = self.open[i].position;
        assert forall|t: TilePoint|
            geo.contains(t) && #[trigger] after.discovered(t) implies after.linked(
            geo,
            start,
            t,
        ) by {
            assert(self.discovered(t));
            assert(self.linked(geo, start, t));
        }
        assert forall|t: TilePoint|
            geo.contains(t) && #[trigger] after.is_closed(t) implies after.discovered(t) by {
            assert(self.is_closed(t));
            assert(self.discovered(t));
        }
        assert forall|k: int| 0 <= k < after.open.len() implies geo.contains(
            (#[trigger] after.open[k]).position,
        ) && after.discovered(after.open[k].position) by {
            let j = if k < i {
                k
            } else {
                k + 1
            };
            assert(after.open[k] == self.open[j]);
            assert(self.discovered(self.open[j].position));
        }
        assert forall|t: TilePoint|
            geo.contains(t) && #[trigger] after.discovered(t) && !after.is_closed(t) && t
                != cur implies after.queued(t) by {
            assert(self.discovered(t));
            assert(self.queued(t));
            let k = choose|k: int|
                0 <= k < self.open.len() && (#[trigger] self.open[k]).position == t;
            let j = if k < i {
                k
            } else {
                k - 1
            };
            assert(after.open[j] == self.open[k]);
        }
        if geo.within_budget() {
            assert forall|t: TilePoint|
                geo.contains(t) && #[trigger] after.discovered(t) implies after.bounded(geo, t) by {
                assert(self.discovered(t));
                assert(self.bounded(geo, t));
            }
            assert forall|m: TilePoint, s: int|
                geo.contains(m) && #[trigger] after.opens_onto(geo, m, s) implies after.discovered(
                m.toward(s),
            ) by {
                assert(self.opens_onto(geo, m, s));
                assert(self.discovered(m.toward(s)));
            }
        }
    }

    /// Once the open set is empty, every tile of a walk that begins at the start is
    /// closed.
    proof fn lemma_route_closed(
        &self,
        geo: &Geography,
        start: TilePoint,
        goal: TilePoint,
        path: Seq<TilePoint>,
        end: TilePoint,
        i: int,
    )
        requires
            geo.within_budget(),
            self.sound(geo, start, goal),
            self.covered(geo, start, 4),
            self.open.len() == 0,
            geo.is_route(path, start, end),
            0 <= i < path.len(),
        ensures
            self.is_closed(path[i]),
        decreases path.len() - i,
    {
        let t = path[i];
        assert(geo.contains(t));
        if i == path.len() - 1 {
            assert(self.discovered(t));
        } else {
            self.lemma_route_closed(geo, start, goal, path, end, i + 1);
            let m = path[i + 1];
            assert(geo.contains(m));
            assert(geo.step(m, t));
            let side = choose|side: int|
                0 <= side < 4 && geo.has_neighbor(m, side) && #[trigger] m.toward(side) == t
                    && !geo.blocked(m, side);
            assert(self.opens_onto(geo, m, side));
            assert(self.discovered(t));
        }
        if !self.is_closed(t) {
            assert(self.queued(t));
        }
    }
}

impl Search {
    /// The search as a value.
    spec fn model(&self, geo: &Geography) -> Frontier {
        Frontier {
            open: self.open@,
            closed: Set::new(|t: TilePoint| geo.contains(t) && cell(self.closed@, t)),
            g_score: Map::new(
                |t: TilePoint| geo.contains(t) && cell(self.g_score@, t) < u32::MAX,
                |t: TilePoint| cell(self.g_score@, t),
            ),
            came_from: Map::new(
                |t: TilePoint| geo.contains(t) && cell(self.came_from@, t) is Some,
                |t: TilePoint| cell(self.came_from@, t).unwrap(),
            ),
        }
    }

    /// How much the search can still do: every step takes an entry out of the open
    /// set, and every entry put in lowers a cost.
    spec fn potential(&self) -> nat {
        total(self.g_score@) + self.open@.len()
    }

    /// No recorded way takes more than `spent` moves.
    spec fn deep(&self, geo: &Geography, spent: nat) -> bool {
        forall|t: TilePoint|
            geo.contains(t) && #[trigger] self.discovered(t) ==> self.depth@[t] <= spent
    }

    proof fn lemma_model_cost(&self, geo: &Geography, t: TilePoint)
        requires
            geo.contains(t),
        ensures
            self.model(geo).cost_of(t) == self.g(t),
            self.model(geo).closed.contains(t) == self.is_closed(t),
    {
    }

    proof fn lemma_relax_model(
        &self,
        after: &Search,
        geo: &Geography,
        cur: TilePoint,
        side: int,
        neighbor: TilePoint,
        goal: TilePoint,
        tentative: u32,
        entry: PathState,
    )
        requires
            self.shaped(geo),
            self.relaxed_to(after, geo, cur, neighbor, tentative, entry),
            geo.contains(cur),
            geo.contains(neighbor),
            0 <= side < 4,
            geo.has_neighbor(cur, side),
            neighbor == cur.toward(side),
            !self.is_closed(neighbor),
            tentative == capped_sum(self.g(cur) as int, geo.edge_cost(cur, side), u32::MAX as int),
            tentative < self.g(neighbor),
            entry.cost == priority(tentative, neighbor, goal),
        ensures
            after.model(geo) == self.model(geo).relaxed(geo, cur, side, goal),
    {
        self.lemma_model_cost(geo, cur);
        self.lemma_model_cost(geo, neighbor);
        let a = after.model(geo);
        let b = self.model(geo).relaxed(geo, cur, side, goal);
        assert(a.open == b.open);
        assert(a.closed =~= b.closed);
        assert(a.g_score =~= b.g_score) by {
            assert forall|t: TilePoint| a.g_score.dom().contains(t) == b.g_score.dom().contains(
                t,
            ) by {
                if geo.contains(t) && t != neighbor {
                    assert(after.g(t) == self.g(t));
                }
            }
            assert forall|t: TilePoint| a.g_score.dom().contains(t) implies a.g_score[t]
                == b.g_score[t] by {
                if t != neighbor {
                    assert(after.g(t) == self.g(t));
                }
            }
        }
        assert(a.came_from =~= b.came_from) by {
            assert forall|t: TilePoint| a.came_from.dom().contains(t) == b.came_from.dom().contains(
                t,
            ) by {
                if geo.contains(t) && t != neighbor {
                    assert(after.parent(t) == self.parent(t));
                }
            }
            assert forall|t: TilePoint| a.came_from.dom().contains(t) implies a.came_from[t]
                == b.came_from[t] by {
                if t != neighbor {
                    assert(after.parent(t) == self.parent(t));
                }
            }
        }
    }

    proof fn lemma_skip_model(
        &self,
        geo: &Geography,
        cur: TilePoint,
        side: int,
        goal: TilePoint,
    )
        requires
            geo.contains(cur),
            0 <= side < 4,
            !geo.has_neighbor(cur, side) || self.is_closed(cur.toward(side)) || capped_sum(
                self.g(cur) as int,
                geo.edge_cost(cur, side),
                u32::MAX as int,
            ) >= self.g(cur.toward(side)),
        ensures
            self.model(geo).relaxed(geo, cur, side, goal) == self.model(geo),
    {
        self.lemma_model_cost(geo, cur);
        if geo.has_neighbor(cur, side) {
            assert(geo.contains(cur.toward(side)));
            self.lemma_model_cost(geo, cur.toward(side));
        }
    }

    proof fn lemma_close_model(&self, after: &Search, geo: &Geography, cur: TilePoint)
        requires
            self.closed_to(after, geo, cur),
            geo.contains(cur),
        ensures
            after.model(geo) == (Frontier {
                closed: self.model(geo).closed.insert(cur),
                ..self.model(geo)
            }),
    {
        let a = after.model(geo);
        let b = Frontier { closed: self.model(geo).closed.insert(cur), ..self.model(geo) };
        assert(a.closed =~= b.closed) by {
            assert forall|t: TilePoint| a.closed.contains(t) == b.closed.contains(t) by {
                if geo.contains(t) && t != cur {
                    assert(after.is_closed(t) == self.is_closed(t));
                }
            }
        }
        assert(a.g_score =~= b.g_score);
        assert(a.came_from =~= b.came_from);
    }
}

impl Geography {
    /// Follows the recorded ways back from `goal` to the tile that was reached from
    /// nowhere, and lists the tiles passed, the goal first.
    fn reconstruct_path(
        &self,
        search: &Search,
        goal: &TilePoint,
        Ghost(start): Ghost<TilePoint>,
    ) -> (path: Vec<TilePoint>)
        requires
            self.wf(),
            search.shaped(self),
            self.contains(*goal),
            search.discovered(*goal),
            search.deep(self, self.search_limit()),
            forall|t: TilePoint|
                self.contains(t) && #[trigger] search.discovered(t) ==> search.linked(
                    self,
                    start,
                    t,
                ),
        ensures
            self.is_route(path@, start, *goal),
            path@.no_duplicates(),
            path@ == search.model(self).traced(*goal, self.search_limit()),
    {
        let ghost model = search.model(self);
        let ghost limit = self.search_limit();
        let mut path: Vec<TilePoint> = Vec::new();
        path.push(*goal);
        let mut current: TilePoint = *goal;
        proof {
            assert(path@.drop_last() + model.traced(current, limit) =~= model.traced(
                *goal,
                limit,
            ));
        }
        loop
            invariant_except_break
                self.wf(),
                search.shaped(self),
                model == search.model(self),
                limit == self.search_limit(),
                forall|t: TilePoint|
                    self.contains(t) && #[trigger] search.discovered(t) ==> search.linked(
                        self,
                        start,
                        t,
                    ),
                path.len() >= 1,
                path[0] == *goal,
                path@.last() == current,
                self.contains(current),
                search.discovered(current),
                forall|i: int| 0 <= i < path.len() ==> self.contains(#[trigger] path[i]),
                forall|i: int|
                    0 <= i < path.len() - 1 ==> self.step(#[trigger] path[i + 1], path[i]),
                path.len() - 1 + search.depth@[current] <= limit,
                path@.no_duplicates(),
                forall|i: int|
                    0 <= i < path.len() - 1 ==> search.depth@[#[trigger] path[i]]
                        > search.depth@[current],
                model.traced(*goal, limit) == path@.drop_last() + model.traced(
                    current,
                    (limit - (path.len() - 1)) as nat,
                ),
            ensures
                self.is_route(path@, start, *goal),
                path@.no_duplicates(),
                path@ == model.traced(*goal, limit),
            decreases search.depth@[current],
        {
            assert(search.linked(self, start, current));
            assert(current != start ==> search.discovered(search.parent(current).unwrap()));
            let ghost left = (limit - (path.len() - 1)) as nat;
            let ghost before = path@;
            match search.came_from[current.x][current.y] {
                Some(previous) => {
                    proof {
                        assert(model.came_from.dom().contains(current));
                        assert(model.came_from[current] == previous);
                        assert(left > 0);
                        assert(model.traced(current, left) == seq![current] + model.traced(
                            previous,
                            (left - 1) as nat,
                        ));
                    }
                    path.push(previous);
                    current = previous;
                    proof {
                        assert forall|i: int, j: int|
                            0 <= i < path.len() && 0 <= j < path.len() && i != j implies path[i]
                            != path[j] by {
                            if i < before.len() && j < before.len() {
                                assert(before[i] != before[j]);
                            }
                        }
                        assert(path@.drop_last() =~= before);
                        assert(before =~= before.drop_last() + seq![before.last()]);
                        assert(model.traced(*goal, limit) =~= path@.drop_last() + model.traced(
                            current,
                            (left - 1) as nat,
                        ));
                    }
                },
                None => {
                    proof {
                        assert(!model.came_from.dom().contains(current));
                        assert(model.traced(current, left) == seq![current]);
                        assert(before =~= before.drop_last() + seq![before.last()]);
                    }
                    break ;
                },
            }
        }
        path
    }

    /// Searches a walk from `start` to `goal` and returns it listed from the goal
    /// back to the start, so that walking it means taking tiles off its end.
    ///
    /// There is no walk to return where the two are the same tile, where either lies
    /// off the grid, or where walls part them.
    pub fn find_path(&self, start: TilePoint, goal: TilePoint) -> (path: Option<Vec<TilePoint>>)
        requires
            self.wf(),
        ensures
            match path {
                Some(route) => self.route(start, goal) == Some(route@),
                None => self.route(start, goal) is None,
            },
            self.answers(start, goal, self.route(start, goal)),
            start == goal || !self.connected(start, goal) ==> path is None,
            path matches Some(route) ==> route@.no_duplicates(),
    {
        if start.x >= self.width || start.y >= self.height || goal.x >= self.width || goal.y
            >= self.height || start == goal {
            proof {
                if self.connected(start, goal) {
                    let route = choose|route: Seq<TilePoint>| self.is_route(route, start, goal);
                    assert(self.contains(route[0]));
                    assert(self.contains(route[route.len() - 1]));
                }
            }
            return None;
        }
        let mut search = Search::new(self, start, goal);
        let ghost mut steps: nat = self.search_limit();
        let ghost mut spent: nat = 0;
        while search.open.len() > 0
            invariant
                self.wf(),
                search.sound(self, start, goal),
                search.covered(self, start, 4),
                search.deep(self, spent),
                spent + steps == self.search_limit(),
                search.potential() <= steps,
                self.route(start, goal) == search.model(self).searched(self, goal, steps),
            decreases unclosed(search.closed@), search.open.len(),
        {
            let ghost before = search;
            let current = pop_best(&mut search.open);
            let cur = current.position;
            proof {
                let i = first_out(before.open@);
                assert(before.popped_to(&search, i));
                before.lemma_pop(&search, self, start, goal, i);
                assert(self.contains(before.open[i].position));
                assert(before.discovered(cur));
                assert(search.model(self) == (Frontier {
                    open: before.model(self).open.remove(i),
                    ..before.model(self)
                }));
                assert(steps > 0);
                search.lemma_model_cost(self, cur);
                assert forall|t: TilePoint|
                    self.contains(t) && #[trigger] search.discovered(t) implies search.depth@[t]
                    <= spent by {
                    assert(before.discovered(t));
                }
            }
            if cur == goal {
                proof {
                    assert forall|t: TilePoint|
                        self.contains(t) && #[trigger] search.discovered(t) implies search.depth@[t]
                        <= self.search_limit() by {}
                }
                let route = self.reconstruct_path(&search, &goal, Ghost(start));
                return Some(route);
            }
            if search.closed[cur.x][cur.y] {
                proof {
                    steps = (steps - 1) as nat;
                    spent = spent + 1;
                    assert forall|t: TilePoint|
                        self.contains(t) && #[trigger] search.discovered(t) implies search.depth@[t]
                        <= spent by {}
                }
                continue ;
            }
            search.expand(self, cur, goal, Ghost(start), Ghost(spent));
            proof {
                steps = (steps - 1) as nat;
                spent = spent + 1;
            }
        }
        proof {
            if self.within_budget() && self.connected(start, goal) {
                let route = choose|route: Seq<TilePoint>| self.is_route(route, start, goal);
                search.lemma_route_closed(self, start, goal, route, goal, 0);
            }
        }
        None
    }
}

} // verus!
