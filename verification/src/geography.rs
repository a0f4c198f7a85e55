//! The tile grid: a movement cost and four wall flags per tile, and what it means
//! to walk from one tile to another.

use vstd::prelude::*;

verus! {

/// The byte that marks a road tile in map text (`+`).
pub const ROAD_MARK: u8 = 43;

/// The byte that marks a wall above or below a tile in map text (`-`).
pub const WALL_ROW_MARK: u8 = 45;

/// The byte that marks a wall left or right of a tile in map text (`|`).
pub const WALL_COLUMN_MARK: u8 = 124;

/// The movement cost of a road tile.
pub const ROAD_COST: u16 = 1;

/// The movement cost of any other tile.
pub const OPEN_COST: u16 = 5;

/// A grid coordinate.
#[derive(Copy, Clone, Debug, PartialEq, Eq, Hash, Structural)]
pub struct TilePoint {
    pub x: usize,
    pub y: usize,
}

/// How many parts a tile measures along each side. Places are counted in parts.
pub const TILE_SCALE: usize = 65536;

/// A place on the plane: how many parts it lies right of and below the corner of
/// the grid. Places within one tile are told apart.
#[derive(Copy, Clone, Debug, PartialEq, Eq, Hash, Structural)]
pub struct Position {
    pub x: usize,
    pub y: usize,
}

/// The tile that a place lies on.
pub open spec fn tile_of(place: Position) -> TilePoint {
    TilePoint { x: place.x / TILE_SCALE, y: place.y / TILE_SCALE }
}

/// One cell of the grid. The wall flags go clockwise from the top: top, right,
/// bottom, left.
#[derive(Copy, Clone, Debug, PartialEq, Eq)]
pub struct Tile {
    pub terrain_cost: u16,
    pub walls: [bool; 4],
}

/// A grid of tiles, held column by column: `tiles[x][y]`.
pub struct Geography {
    pub tiles: Vec<Vec<Tile>>,
    pub width: usize,
    pub height: usize,
}

impl TilePoint {
    pub fn new(x: usize, y: usize) -> (point: TilePoint)
        ensures
            point == (TilePoint { x, y }),
    {
        TilePoint { x, y }
    }

    /// The tile that the place `v` lies on.
    pub fn from_vector(v: &Position) -> (point: TilePoint)
        ensures
            point == tile_of(*v),
    {
        TilePoint { x: v.x / TILE_SCALE, y: v.y / TILE_SCALE }
    }

    /// The point one tile away in the direction `side` (0 up, 1 right, 2 down, 3 left).
    pub open spec fn toward(self, side: int) -> TilePoint {
        if side == 0 {
            TilePoint { x: self.x, y: (self.y - 1) as usize }
        } else if side == 1 {
            TilePoint { x: (self.x + 1) as usize, y: self.y }
        } else if side == 2 {
            TilePoint { x: self.x, y: (self.y + 1) as usize }
        } else {
            TilePoint { x: (self.x - 1) as usize, y: self.y }
        }
    }
}

impl Position {
    pub fn new(x: usize, y: usize) -> (place: Position)
        ensures
            place == (Position { x, y }),
    {
        Position { x, y }
    }
}

impl Tile {
    /// Whether the tile has a wall on the side it is left through.
    pub fn is_wall_to(&self, position_index: usize) -> (wall: bool)
        requires
            position_index < 4,
        ensures
            wall == self.walls[position_index as int],
    {
        self.walls[position_index]
    }

    /// Whether the tile has a wall on the side it is entered through, which lies
    /// opposite the direction of travel.
    pub fn is_wall_from(&self, position_index: usize) -> (wall: bool)
        requires
            position_index < 4,
        ensures
            wall == self.walls[(position_index + 2) % 4],
    {
        self.walls[(position_index + 2) % 4]
    }
}

/// The length of one line of map text for a grid `width` tiles wide, line end
/// included.
pub open spec fn map_stride(width: int) -> int {
    2 * width + 2
}

/// Where the marker of tile (`x`, `y`) stands in map text.
pub open spec fn map_cell(width: int, x: int, y: int) -> int {
    map_stride(width) * (2 * y + 1) + 2 * x + 1
}

/// How many bytes of map text a grid of the given size reads.
pub open spec fn map_len(width: int, height: int) -> int {
    if width <= 0 || height <= 0 {
        0
    } else {
        map_stride(width) * (2 * height) + 2 * width
    }
}

/// The tile that map text describes at (`x`, `y`): a road where the marker says so,
/// and a wall on each side where the text between the tiles shows one.
pub open spec fn tile_reads(data: Seq<u8>, width: int, x: int, y: int, tile: Tile) -> bool {
    let cell = map_cell(width, x, y);
    &&& tile.terrain_cost == (if data[cell] == ROAD_MARK {
        ROAD_COST
    } else {
        OPEN_COST
    })
    &&& tile.walls[0] == (data[cell - map_stride(width)] == WALL_ROW_MARK)
    &&& tile.walls[1] == (data[cell + 1] == WALL_COLUMN_MARK)
    &&& tile.walls[2] == (data[cell + map_stride(width)] == WALL_ROW_MARK)
    &&& tile.walls[3] == (data[cell - 1] == WALL_COLUMN_MARK)
}

proof fn lemma_map_cell_bounds(width: int, height: int, x: int, y: int)
    requires
        0 <= x < width,
        0 <= y < height,
    ensures
        map_stride(width) <= map_cell(width, x, y),
        map_cell(width, x, y) + map_stride(width) < map_len(width, height),
        map_stride(width) * (2 * y + 1) <= map_len(width, height),
        2 * y + 1 <= map_len(width, height),
{
    let stride = map_stride(width);
    assert(stride * (2 * y + 1) >= stride) by (nonlinear_arith)
        requires
            stride > 0,
            y >= 0,
    ;
    assert(stride * (2 * y + 2) <= stride * (2 * height)) by (nonlinear_arith)
        requires
            stride > 0,
            0 <= y < height,
    ;
    assert(stride * (2 * y + 2) == stride * (2 * y + 1) + stride) by (nonlinear_arith);
    assert(stride * (2 * y + 1) >= 2 * y + 1) by (nonlinear_arith)
        requires
            stride > 0,
            y >= 0,
    ;
}

fn fits_budget(cost: u16, width: usize, height: usize) -> (ok: bool)
    ensures
        ok == (2 * cost * (width * height) < u32::MAX),
{
    if cost == 0 {
        assert(2 * cost * (width * height) == 0) by (nonlinear_arith)
            requires
                cost == 0,
        ;
        return true;
    }
    let w: u128 = width as u128;
    let h: u128 = height as u128;
    assert(w * h <= 0xffff_ffff_ffff_ffff * 0xffff_ffff_ffff_ffff) by (nonlinear_arith)
        requires
            w <= 0xffff_ffff_ffff_ffff,
            h <= 0xffff_ffff_ffff_ffff,
    ;
    let area: u128 = w * h;
    if area >= 0x1_0000_0000 {
        assert(2 * cost * (width * height) >= u32::MAX) by (nonlinear_arith)
            requires
                cost >= 1,
                width * height >= 0x1_0000_0000,
        ;
        return false;
    }
    let c: u128 = cost as u128;
    assert(2 * c * area <= 2 * 0xffff * 0x1_0000_0000) by (nonlinear_arith)
        requires
            c <= 0xffff,
            area <= 0x1_0000_0000,
    ;
    assert(2 * c * area == 2 * cost * (width * height)) by (nonlinear_arith)
        requires
            c == cost,
            area == width * height,
    ;
    2 * c * area < u32::MAX as u128
}

impl Geography {
    /// The grid is a rectangle of `width` columns, each `height` tiles long.
    pub open spec fn wf(&self) -> bool {
        &&& self.tiles.len() == self.width
        &&& forall|x: int| 0 <= x < self.width ==> (#[trigger] self.tiles[x]).len() == self.height
    }

    /// Whether `point` lies on the grid.
    pub open spec fn contains(&self, point: TilePoint) -> bool {
        point.x < self.width && point.y < self.height
    }

    /// The tile at `point`.
    pub open spec fn tile(&self, point: TilePoint) -> Tile {
        self.tiles[point.x as int][point.y as int]
    }

    /// Whether the grid has a tile next to `point` on the side `side`: there is no
    /// wraparound.
    pub open spec fn has_neighbor(&self, point: TilePoint, side: int) -> bool {
        if side == 0 {
            point.y > 0
        } else if side == 1 {
            point.x + 1 < self.width
        } else if side == 2 {
            point.y + 1 < self.height
        } else {
            side == 3 && point.x > 0
        }
    }

    /// Whether a wall stands between `point` and its neighbor on the side `side`:
    /// a flag on either of the two tiles blocks the edge for both.
    pub open spec fn blocked(&self, point: TilePoint, side: int) -> bool {
        self.tile(point).walls[side] || self.tile(point.toward(side)).walls[(side + 2) % 4]
    }

    /// What it costs to move from `point` to its neighbor on the side `side`: both
    /// terrain costs together, or `u32::MAX` where a wall blocks the edge.
    pub open spec fn edge_cost(&self, point: TilePoint, side: int) -> int {
        if self.blocked(point, side) {
            u32::MAX as int
        } else {
            self.tile(point).terrain_cost + self.tile(point.toward(side)).terrain_cost
        }
    }

    /// Whether one move leads from `from` to `to`: they are neighbors on the grid
    /// and no wall stands between them.
    pub open spec fn step(&self, from: TilePoint, to: TilePoint) -> bool {
        exists|side: int|
            0 <= side < 4 && self.has_neighbor(from, side) && #[trigger] from.toward(side) == to
                && !self.blocked(from, side)
    }

    /// Whether `path` is a walk from `start` to `goal`, listed from the goal back to
    /// the start: every tile lies on the grid and one move leads from each tile to
    /// the one listed before it.
    pub open spec fn is_route(&self, path: Seq<TilePoint>, start: TilePoint, goal: TilePoint) -> bool {
        &&& path.len() >= 1
        &&& path[0] == goal
        &&& path.last() == start
        &&& forall|i: int| 0 <= i < path.len() ==> self.contains(#[trigger] path[i])
        &&& forall|i: int| 0 <= i < path.len() - 1 ==> self.step(#[trigger] path[i + 1], path[i])
    }

    /// Whether the goal can be walked to from the start.
    pub open spec fn connected(&self, start: TilePoint, goal: TilePoint) -> bool {
        exists|path: Seq<TilePoint>| self.is_route(path, start, goal)
    }

    /// Whether `answer` is a right answer to the question for a walk from `start` to
    /// `goal`: a walk between two different tiles, or none where the two are the
    /// same tile or no walk leads from one to the other. On a grid over its budget
    /// "none" is a right answer too.
    pub open spec fn answers(
        &self,
        start: TilePoint,
        goal: TilePoint,
        answer: Option<Seq<TilePoint>>,
    ) -> bool {
        match answer {
            Some(route) => start != goal && self.is_route(route, start, goal),
            None => start == goal || !self.connected(start, goal) || !self.within_budget(),
        }
    }

    /// A number of steps that no search on this grid takes.
    pub open spec fn search_limit(&self) -> nat {
        (self.width * self.height * 0x1_0000_0000) as nat
    }

    /// Whether route costs stay clear of the machine's limit: no way that passes
    /// each tile at most once can cost `u32::MAX` or more.
    pub open spec fn within_budget(&self) -> bool {
        forall|t: TilePoint|
            self.contains(t) ==> 2 * (#[trigger] self.tile(t)).terrain_cost * (self.width
                * self.height) < u32::MAX
    }

    /// Whether route costs stay clear of the machine's limit on this grid.
    pub fn is_within_budget(&self) -> (ok: bool)
        requires
            self.wf(),
        ensures
            ok == self.within_budget(),
    {
        let mut x: usize = 0;
        while x < self.width
            invariant
                x <= self.width,
                self.wf(),
                forall|t: TilePoint|
                    t.x < x && t.y < self.height ==> 2 * (#[trigger] self.tile(t)).terrain_cost
                        * (self.width * self.height) < u32::MAX,
            decreases self.width - x,
        {
            let mut y: usize = 0;
            while y < self.height
                invariant
                    x < self.width,
                    y <= self.height,
                    self.wf(),
                    forall|t: TilePoint|
                        (t.x < x && t.y < self.height) || (t.x == x && t.y < y) ==> 2 * (
                        #[trigger] self.tile(t)).terrain_cost * (self.width * self.height)
                            < u32::MAX,
                decreases self.height - y,
            {
                if !fits_budget(self.tiles[x][y].terrain_cost, self.width, self.height) {
                    assert(self.contains(TilePoint { x, y }));
                    assert(self.tile(TilePoint { x, y }) == self.tiles[x as int][y as int]);
                    return false;
                }
                assert forall|t: TilePoint|
                    (t.x < x && t.y < self.height) || (t.x == x && t.y < y + 1) implies 2 * (
                    #[trigger] self.tile(t)).terrain_cost * (self.width * self.height)
                    < u32::MAX by {
                    if t.x == x && t.y == y {
                        assert(t == TilePoint { x, y });
                    }
                }
                y = y + 1;
            }
            x = x + 1;
        }
        true
    }

    /// Whether the grid is a rectangle of the size it claims.
    pub fn is_well_formed(&self) -> (ok: bool)
        ensures
            ok == self.wf(),
    {
        if self.tiles.len() != self.width {
            return false;
        }
        let mut x: usize = 0;
        while x < self.width
            invariant
                x <= self.width,
                self.tiles.len() == self.width,
                forall|i: int| 0 <= i < x ==> (#[trigger] self.tiles[i]).len() == self.height,
            decreases self.width - x,
        {
            if self.tiles[x].len() != self.height {
                return false;
            }
            x = x + 1;
        }
        true
    }

    /// How many bytes of map text `from_data` reads for a grid of this size, or
    /// `None` where that number does not fit the machine.
    pub fn data_len(width: usize, height: usize) -> (len: Option<usize>)
        ensures
            match len {
                Some(n) => n == map_len(width as int, height as int),
                None => map_len(width as int, height as int) > usize::MAX,
            },
    {
        if width == 0 || height == 0 {
            return Some(0);
        }
        let w: u128 = width as u128;
        let h: u128 = height as u128;
        assert(w * h <= 0xffff_ffff_ffff_ffff * 0xffff_ffff_ffff_ffff) by (nonlinear_arith)
            requires
                w <= 0xffff_ffff_ffff_ffff,
                h <= 0xffff_ffff_ffff_ffff,
        ;
        let wh: u128 = w * h;
        assert((2 * w + 2) * (2 * h) == 4 * (w * h) + 4 * h) by (nonlinear_arith);
        if wh > 0x3fff_ffff_ffff_ffff {
            return None;
        }
        let total: u128 = 4 * wh + 4 * h + 2 * w;
        if total > usize::MAX as u128 {
            None
        } else {
            Some(total as usize)
        }
    }

    /// Reads a grid from map text. The text has a line of wall markers above and
    /// below every row of tiles and a wall marker left and right of every tile, each
    /// line one byte longer than its `2 * width + 1` markers.
    pub fn from_data(width: usize, height: usize, data: &[u8]) -> (geography: Geography)
        requires
            map_len(width as int, height as int) <= data.len(),
        ensures
            geography.wf(),
            geography.width == width,
            geography.height == height,
            forall|x: int, y: int|
                0 <= x < width && 0 <= y < height ==> tile_reads(
                    data@,
                    width as int,
                    x,
                    y,
                    #[trigger] geography.tiles[x][y],
                ),
    {
        let mut tiles: Vec<Vec<Tile>> = Vec::new();
        let mut x: usize = 0;
        while x < width
            invariant
                x <= width,
                map_len(width as int, height as int) <= data.len(),
                tiles.len() == x,
                forall|i: int| 0 <= i < x ==> (#[trigger] tiles[i]).len() == height,
                forall|i: int, j: int|
                    0 <= i < x && 0 <= j < height ==> tile_reads(
                        data@,
                        width as int,
                        i,
                        j,
                        #[trigger] tiles[i][j],
                    ),
            decreases width - x,
        {
            let mut col: Vec<Tile> = Vec::new();
            let mut y: usize = 0;
            while y < height
                invariant
                    x < width,
                    y <= height,
                    map_len(width as int, height as int) <= data.len(),
                    col.len() == y,
                    forall|j: int|
                        0 <= j < y ==> tile_reads(data@, width as int, x as int, j, #[trigger] col[j]),
                decreases height - y,
            {
                proof {
                    lemma_map_cell_bounds(width as int, height as int, x as int, y as int);
                }
                let stride: usize = width * 2 + 2;
                let cell: usize = stride * (2 * y + 1) + (x * 2 + 1);
                let tile = Tile {
                    terrain_cost: if data[cell] == ROAD_MARK {
                        ROAD_COST
                    } else {
                        OPEN_COST
                    },
                    walls: [
                        data[cell - stride] == WALL_ROW_MARK,
                        data[cell + 1] == WALL_COLUMN_MARK,
                        data[cell + stride] == WALL_ROW_MARK,
                        data[cell - 1] == WALL_COLUMN_MARK,
                    ],
                };
                col.push(tile);
                y = y + 1;
            }
            tiles.push(col);
            x = x + 1;
        }
        Geography { tiles, width, height }
    }

    /// The tiles next to `point`, by side: 0 up, 1 right, 2 down, 3 left. A side
    /// that leads off the grid has none.
    pub fn get_neighbors(&self, point: &TilePoint) -> (neighbors: [Option<TilePoint>; 4])
        ensures
            forall|side: int|
                0 <= side < 4 ==> #[trigger] neighbors[side] == (if self.has_neighbor(*point, side) {
                    Some(point.toward(side))
                } else {
                    None
                }),
    {
        let mut neighbors: [Option<TilePoint>; 4] = [None; 4];
        if point.x > 0 {
            neighbors[3] = Some(TilePoint::new(point.x - 1, point.y));
        }
        if point.x < self.width && point.x + 1 < self.width {
            neighbors[1] = Some(TilePoint::new(point.x + 1, point.y));
        }
        if point.y > 0 {
            neighbors[0] = Some(TilePoint::new(point.x, point.y - 1));
        }
        if point.y < self.height && point.y + 1 < self.height {
            neighbors[2] = Some(TilePoint::new(point.x, point.y + 1));
        }
        neighbors
    }

    /// What it costs to move from `current_point` to `neighbor_point`, its neighbor
    /// on the side `position_index`.
    pub fn get_cost(
        &self,
        current_point: &TilePoint,
        neighbor_point: &TilePoint,
        position_index: usize,
    ) -> (cost: u32)
        requires
            self.wf(),
            position_index < 4,
            self.contains(*current_point),
            self.has_neighbor(*current_point, position_index as int),
            *neighbor_point == current_point.toward(position_index as int),
        ensures
            cost == self.edge_cost(*current_point, position_index as int),
    {
        let current_tile = &self.tiles[current_point.x][current_point.y];
        let neighbor_tile = &self.tiles[neighbor_point.x][neighbor_point.y];
        if current_tile.is_wall_to(position_index) || neighbor_tile.is_wall_from(position_index) {
            u32::MAX
        } else {
            current_tile.terrain_cost as u32 + neighbor_tile.terrain_cost as u32
        }
    }
}

} // verus!
