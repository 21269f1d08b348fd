//! The hexagonal tile map: adjacency, ring walks, pixel conversions and paths
//! to the target tile.
use vstd::prelude::*;
use crate::dijkstra::{
    Edge, view_graph, came_from_wf, came_from_closed, distances_for, graph_wf, has_edge, is_route,
    lemma_tree_route, no_cheaper, reachable, reconstruct_path, route_cost, shortest_path,
};
use crate::direction::{Dir, direction, direction_spec};
use crate::geometry::{Point, Position, UNITS_PER_PIXEL};
use crate::tile::{Tile, TileType, cost_of};

verus! {

/// The neighbor of cell `(x, y)` in direction `d`; odd rows are shifted half a
/// cell to the right.
pub open spec fn dir_step(x: int, y: int, d: Dir) -> (int, int) {
    let even = y % 2 == 0;
    match d {
        Dir::NorthEast => if even { (x, y - 1) } else { (x + 1, y - 1) },
        Dir::SouthWest => if even { (x - 1, y + 1) } else { (x, y + 1) },
        Dir::East => (x + 1, y),
        Dir::West => (x - 1, y),
        Dir::SouthEast => if even { (x, y + 1) } else { (x + 1, y + 1) },
        Dir::NorthWest => if even { (x - 1, y - 1) } else { (x, y - 1) },
    }
}

/// The cell reached from `(x, y)` after `n` steps toward the south-west.
pub open spec fn ring_corner(x: int, y: int, n: nat) -> (int, int)
    decreases n,
{
    if n == 0 {
        (x, y)
    } else {
        let c = ring_corner(x, y, (n - 1) as nat);
        dir_step(c.0, c.1, Dir::SouthWest)
    }
}

/// Cell number `k` of the walk round the ring of `radius` about `(x, y)`: it
/// starts at the south-west corner and goes `radius` steps in each direction
/// in turn.
pub open spec fn ring_point(x: int, y: int, radius: nat, k: nat) -> (int, int)
    decreases k,
{
    if k == 0 {
        ring_corner(x, y, radius)
    } else {
        let p = ring_point(x, y, radius, (k - 1) as nat);
        dir_step(p.0, p.1, direction_spec((k - 1) as int / radius as int))
    }
}

/// The cells of the ring of `radius` about `(x, y)`, in walking order.
pub open spec fn ring(x: int, y: int, radius: nat) -> Seq<(int, int)> {
    Seq::new(6 * radius, |k: int| ring_point(x, y, radius, k as nat))
}

/// The rings of radius 1 to `radius` about `(x, y)`, one after another.
pub open spec fn rings_upto(x: int, y: int, radius: nat) -> Seq<(int, int)>
    decreases radius,
{
    if radius == 0 {
        Seq::empty()
    } else {
        rings_upto(x, y, (radius - 1) as nat) + ring(x, y, radius)
    }
}

proof fn lemma_step_near(x: int, y: int, d: Dir)
    ensures
        x - 1 <= dir_step(x, y, d).0 <= x + 1,
        y - 1 <= dir_step(x, y, d).1 <= y + 1,
{
}

proof fn lemma_corner_near(x: int, y: int, n: nat)
    ensures
        x - n <= ring_corner(x, y, n).0 <= x + n,
        y - n <= ring_corner(x, y, n).1 <= y + n,
    decreases n,
{
    if n > 0 {
        lemma_corner_near(x, y, (n - 1) as nat);
        let c = ring_corner(x, y, (n - 1) as nat);
        lemma_step_near(c.0, c.1, Dir::SouthWest);
    }
}

proof fn lemma_ring_point_near(x: int, y: int, radius: nat, k: nat)
    ensures
        x - radius - k <= ring_point(x, y, radius, k).0 <= x + radius + k,
        y - radius - k <= ring_point(x, y, radius, k).1 <= y + radius + k,
    decreases k,
{
    if k == 0 {
        lemma_corner_near(x, y, radius);
    } else {
        lemma_ring_point_near(x, y, radius, (k - 1) as nat);
        let p = ring_point(x, y, radius, (k - 1) as nat);
        lemma_step_near(p.0, p.1, direction_spec((k - 1) as int / radius as int));
    }
}

/// Coordinates that stay within the machine's range for a ring walk of
/// `radius` about them.
pub open spec fn ring_in_bounds(x: int, y: int, radius: nat) -> bool {
    &&& isize::MIN + 8 * radius + 2 < x < isize::MAX - 8 * radius - 2
    &&& isize::MIN + 8 * radius + 2 < y < isize::MAX - 8 * radius - 2
}

/// Integer coordinates of machine coordinate pairs.
pub open spec fn as_ints(s: Seq<(isize, isize)>) -> Seq<(int, int)> {
    s.map_values(|p: (isize, isize)| (p.0 as int, p.1 as int))
}

/// Largest number of columns or rows of a map.
pub const MAX_MAP_SIDE: usize = 1_000_000;

/// Pixel width of a tile column and height of a tile row.
pub const TILE_WIDTH: i32 = 69;
pub const TILE_HEIGHT: i32 = 59;

/// Index of cell `(x, y)` in a row-major table of rows of `xsize` cells.
pub open spec fn cell_index(xsize: int, x: int, y: int) -> int {
    y * xsize + x
}

/// Top-left corner of the picture of cell `(x, y)`, in sub-pixel units.
pub open spec fn tile_pos_spec(x: int, y: int) -> (int, int) {
    let shift: int = if y % 2 == 0 { 0 } else { 35 };
    ((shift + TILE_WIDTH * x) * UNITS_PER_PIXEL, TILE_HEIGHT * y * UNITS_PER_PIXEL)
}

/// Center of cell `(x, y)`, in sub-pixel units: the corner moved by 35.5
/// pixels right and 39.5 pixels down.
pub open spec fn tile_center_spec(x: int, y: int) -> Point {
    let c = tile_pos_spec(x, y);
    Point { x: (c.0 + 355) as i32, y: (c.1 + 395) as i32 }
}

/// Squared distance from the center of cell `(x, y)` to `p`, in sub-pixel units.
pub open spec fn center_dist2(x: int, y: int, p: Point) -> int {
    let c = tile_pos_spec(x, y);
    let dx = c.0 + 355 - p.x;
    let dy = c.1 + 395 - p.y;
    dx * dx + dy * dy
}

/// Column or row index estimate of a coordinate: its quotient by the cell
/// size, 0 for negative coordinates.
pub open spec fn coarse(v: int, size: int) -> int {
    if v < 0 {
        0
    } else {
        v / size
    }
}

/// The cells `tile_index_at` weighs for `p`, in the order it weighs them.
pub open spec fn candidates(p: Point) -> Seq<(int, int)> {
    let x = coarse(p.x as int, TILE_WIDTH * UNITS_PER_PIXEL);
    let y = coarse(p.y as int, TILE_HEIGHT * UNITS_PER_PIXEL);
    let xs: Seq<int> = if x > 0 { seq![x - 1, x] } else { seq![x] };
    let ys: Seq<int> = if y > 0 { seq![y - 1, y] } else { seq![y] };
    Seq::new(xs.len() * ys.len(), |k: int| (xs[k / ys.len() as int], ys[k % ys.len() as int]))
}

/// `(cx, cy)` is the candidate for `p` with the nearest center, the first
/// of them on a tie.
pub open spec fn nearest_cell(p: Point, cx: int, cy: int) -> bool {
    let c = candidates(p);
    exists|k: int| {
        &&& 0 <= k < c.len()
        &&& #[trigger] c[k] == (cx, cy)
        &&& forall|j: int| 0 <= j < k ==> center_dist2(c[j].0, c[j].1, p) > center_dist2(cx, cy, p)
        &&& forall|j: int| k < j < c.len() ==> center_dist2(c[j].0, c[j].1, p) >= center_dist2(cx, cy, p)
    }
}

/// The cell visited at step `k` of a scan by columns, then rows within a column.
pub open spec fn scan_cell(ysize: int, k: int) -> (int, int) {
    (k / ysize, k % ysize)
}

pub struct GameMap {
    pub xsize: usize,
    pub ysize: usize,
    /// Rows of tiles; `data[y][x]` is the tile at column `x` of row `y`.
    pub data: Vec<Vec<Tile>>,
}

impl GameMap {
    /// The map is a nonempty rectangle of tiles, each knowing its own position
    /// and with the cost of its kind.
    pub open spec fn wf(&self) -> bool {
        &&& 0 < self.xsize <= MAX_MAP_SIDE
        &&& 0 < self.ysize <= MAX_MAP_SIDE
        &&& self.xsize * self.ysize <= usize::MAX
        &&& self.data@.len() == self.ysize
        &&& forall|y: int| 0 <= y < self.ysize ==> (#[trigger] self.data@[y])@.len() == self.xsize
        &&& forall|x: int, y: int|
            0 <= x < self.xsize && 0 <= y < self.ysize ==> #[trigger] self.tile_spec(x, y).position
                == (Position { x: x as usize, y: y as usize })
        &&& forall|x: int, y: int|
            0 <= x < self.xsize && 0 <= y < self.ysize ==> #[trigger] self.tile_spec(x, y).cost
                == cost_of(self.tile_spec(x, y).kind)
    }

    pub open spec fn tile_spec(&self, x: int, y: int) -> Tile {
        self.data@[y]@[x]
    }

    pub open spec fn kind_spec(&self, x: int, y: int) -> TileType {
        self.tile_spec(x, y).kind
    }

    pub open spec fn in_bounds(&self, x: int, y: int) -> bool {
        0 <= x < self.xsize && 0 <= y < self.ysize
    }

    /// A cell of the map that is not empty.
    pub open spec fn valid_spec(&self, x: int, y: int) -> bool {
        self.in_bounds(x, y) && self.kind_spec(x, y) != TileType::Empty
    }

    pub fn get_tile_type(&self, x: usize, y: usize) -> (r: TileType)
        requires
            self.wf(),
            self.in_bounds(x as int, y as int),
        ensures
            r == self.kind_spec(x as int, y as int),
    {
        self.data[y][x].kind
    }

    pub fn get_tile(&self, x: usize, y: usize) -> (r: &Tile)
        requires
            self.wf(),
            self.in_bounds(x as int, y as int),
        ensures
            *r == self.tile_spec(x as int, y as int),
    {
        &self.data[y][x]
    }

    pub fn valid_tile_pos(&self, x: isize, y: isize) -> (r: bool)
        requires
            self.wf(),
        ensures
            r == self.valid_spec(x as int, y as int),
    {
        if x >= 0 && y >= 0 && (x as usize) < self.xsize && (y as usize) < self.ysize {
            match self.get_tile_type(x as usize, y as usize) {
                TileType::Empty => false,
                _ => true,
            }
        } else {
            false
        }
    }

    /// The column numbers of the map.
    pub fn xrange(&self) -> (r: core::ops::Range<usize>)
        ensures
            r.start == 0,
            r.end == self.xsize,
    {
        0..self.xsize
    }

    /// The row numbers of the map.
    pub fn yrange(&self) -> (r: core::ops::Range<usize>)
        ensures
            r.start == 0,
            r.end == self.ysize,
    {
        0..self.ysize
    }

    pub fn is_buildable(&self, x: usize, y: usize) -> (r: bool)
        requires
            self.wf(),
            self.in_bounds(x as int, y as int),
        ensures
            r == (self.kind_spec(x as int, y as int) == TileType::Build),
    {
        match self.get_tile_type(x, y) {
            TileType::Build => true,
            _ => false,
        }
    }

    pub fn is_spawn(&self, x: usize, y: usize) -> (r: bool)
        requires
            self.wf(),
            self.in_bounds(x as int, y as int),
        ensures
            r == (self.kind_spec(x as int, y as int) == TileType::Spawn),
    {
        match self.get_tile_type(x, y) {
            TileType::Spawn => true,
            _ => false,
        }
    }

    pub fn tile_direction_neighbor(x: isize, y: isize, dir: Dir) -> (r: (isize, isize))
        requires
            isize::MIN < x < isize::MAX,
            isize::MIN < y < isize::MAX,
        ensures
            r.0 == dir_step(x as int, y as int, dir).0,
            r.1 == dir_step(x as int, y as int, dir).1,
    {
        let even = y % 2 == 0;
        match dir {
            Dir::NorthEast => if even { (x, y - 1) } else { (x + 1, y - 1) },
            Dir::SouthWest => if even { (x - 1, y + 1) } else { (x, y + 1) },
            Dir::East => (x + 1, y),
            Dir::West => (x - 1, y),
            Dir::SouthEast => if even { (x, y + 1) } else { (x + 1, y + 1) },
            Dir::NorthWest => if even { (x - 1, y - 1) } else { (x, y - 1) },
        }
    }

    /// The cells at ring distance `radius` from `(x_in, y_in)`, starting at the
    /// south-west corner and walking the six directions in their fixed order.
    pub fn tile_ring(x_in: isize, y_in: isize, radius: usize) -> (r: Vec<(isize, isize)>)
        requires
            ring_in_bounds(x_in as int, y_in as int, radius as nat),
        ensures
            r@.len() == ring(x_in as int, y_in as int, radius as nat).len(),
            forall|k: int| 0 <= k < r@.len() ==> {
                &&& (#[trigger] r@[k]).0 == ring(x_in as int, y_in as int, radius as nat)[k].0
                &&& r@[k].1 == ring(x_in as int, y_in as int, radius as nat)[k].1
            },
    {
        let ghost (x0, y0) = (x_in as int, y_in as int);
        let ghost rad = radius as nat;
        let mut results: Vec<(isize, isize)> = Vec::new();
        let mut x = x_in;
        let mut y = y_in;
        let mut n: usize = 0;
        while n < radius
            invariant
                ring_in_bounds(x0, y0, rad),
                rad == radius,
                n <= radius,
                x == ring_corner(x0, y0, n as nat).0,
                y == ring_corner(x0, y0, n as nat).1,
            decreases radius - n,
        {
            proof {
                lemma_corner_near(x0, y0, n as nat);
            }
            let (xi, yi) = GameMap::tile_direction_neighbor(x, y, Dir::SouthWest);
            x = xi;
            y = yi;
            n = n + 1;
        }
        let mut i: usize = 0;
        while i < 6
            invariant
                ring_in_bounds(x0, y0, rad),
                rad == radius,
                i <= 6,
                results@.len() == i * radius,
                x == ring_point(x0, y0, rad, (i * radius) as nat).0,
                y == ring_point(x0, y0, rad, (i * radius) as nat).1,
                forall|k: int| 0 <= k < results@.len() ==> {
                    &&& (#[trigger] results@[k]).0 == ring_point(x0, y0, rad, k as nat).0
                    &&& results@[k].1 == ring_point(x0, y0, rad, k as nat).1
                },
            decreases 6 - i,
        {
            let d = direction(i);
            let mut j: usize = 0;
            while j < radius
                invariant
                    ring_in_bounds(x0, y0, rad),
                    rad == radius,
                    i < 6,
                    j <= radius,
                    d == direction_spec(i as int),
                    results@.len() == i * radius + j,
                    x == ring_point(x0, y0, rad, (i * radius + j) as nat).0,
                    y == ring_point(x0, y0, rad, (i * radius + j) as nat).1,
                    forall|k: int| 0 <= k < results@.len() ==> {
                        &&& (#[trigger] results@[k]).0 == ring_point(x0, y0, rad, k as nat).0
                        &&& results@[k].1 == ring_point(x0, y0, rad, k as nat).1
                    },
                decreases radius - j,
            {
                let ghost k = (i * radius + j) as nat;
                proof {
                    lemma_ring_point_near(x0, y0, rad, k);
                    assert(k < 6 * rad) by (nonlinear_arith)
                        requires k == i * rad + j, i < 6, j < rad;
                    assert(k as int / rad as int == i) by (nonlinear_arith)
                        requires k == i * rad + j, 0 <= j < rad;
                }
                results.push((x, y));
                let (xi, yi) = GameMap::tile_direction_neighbor(x, y, d);
                x = xi;
                y = yi;
                j = j + 1;
            }
            i = i + 1;
            proof {
                assert((i - 1) * radius + radius == i * radius) by (nonlinear_arith);
            }
        }
        results
    }


    /// The rings of radius 1 to `radius` about `(x, y)`, nearest first.
    pub fn tile_potential_neighbors(x: isize, y: isize, radius: usize) -> (r: Vec<(isize, isize)>)
        requires
            ring_in_bounds(x as int, y as int, radius as nat),
        ensures
            as_ints(r@) == rings_upto(x as int, y as int, radius as nat),
    {
        let mut results: Vec<(isize, isize)> = Vec::new();
        let mut i: usize = 1;
        assert(as_ints(results@) =~= rings_upto(x as int, y as int, 0));
        while i <= radius
            invariant
                ring_in_bounds(x as int, y as int, radius as nat),
                1 <= i <= radius + 1,
                as_ints(results@) == rings_upto(x as int, y as int, (i - 1) as nat),
            decreases radius + 1 - i,
        {
            let ring_i = GameMap::tile_ring(x, y, i);
            let ghost before = results@;
            let mut k: usize = 0;
            while k < ring_i.len()
                invariant
                    k <= ring_i@.len(),
                    results@ == before + ring_i@.subrange(0, k as int),
                decreases ring_i@.len() - k,
            {
                results.push(ring_i[k]);
                k = k + 1;
                assert(results@ =~= before + ring_i@.subrange(0, k as int));
            }
            assert(ring_i@.subrange(0, k as int) =~= ring_i@);
            assert(as_ints(results@) =~= rings_upto(x as int, y as int, i as nat)) by {
                assert(as_ints(ring_i@) =~= ring(x as int, y as int, i as nat));
            }
            i = i + 1;
        }
        results
    }

    /// The valid cells of `cells`, in order.
    pub open spec fn valid_cells(&self, cells: Seq<(int, int)>) -> Seq<(usize, usize)>
        decreases cells.len(),
    {
        if cells.len() == 0 {
            Seq::empty()
        } else {
            let rest = self.valid_cells(cells.drop_last());
            let c = cells.last();
            if self.valid_spec(c.0, c.1) {
                rest.push((c.0 as usize, c.1 as usize))
            } else {
                rest
            }
        }
    }

    /// The map's cells within `radius` rings of `(x, y)`, nearest ring first.
    pub open spec fn neighbors_spec(&self, x: int, y: int, radius: nat) -> Seq<(usize, usize)> {
        self.valid_cells(rings_upto(x, y, radius))
    }

    /// The valid cells within `radius` rings of `(x, y)`, nearest ring first.
    pub fn neighbors(&self, x: usize, y: usize, radius: usize) -> (r: Vec<(usize, usize)>)
        requires
            self.wf(),
            self.in_bounds(x as int, y as int),
            radius <= MAX_MAP_SIDE,
        ensures
            r@ == self.neighbors_spec(x as int, y as int, radius as nat),
    {
        let potential = GameMap::tile_potential_neighbors(x as isize, y as isize, radius);
        let ghost cells = rings_upto(x as int, y as int, radius as nat);
        let mut r: Vec<(usize, usize)> = Vec::new();
        let mut i: usize = 0;
        while i < potential.len()
            invariant
                self.wf(),
                as_ints(potential@) == cells,
                i <= potential@.len(),
                r@ == self.valid_cells(cells.subrange(0, i as int)),
            decreases potential@.len() - i,
        {
            let (px, py) = potential[i];
            assert(cells.subrange(0, i + 1).drop_last() =~= cells.subrange(0, i as int));
            assert(cells[i as int] == (px as int, py as int));
            if self.valid_tile_pos(px, py) {
                r.push((px as usize, py as usize));
            }
            i = i + 1;
        }
        assert(cells.subrange(0, i as int) =~= cells);
        r
    }

    pub fn tile_pos(x: usize, y: usize) -> (r: Point)
        requires
            x <= MAX_MAP_SIDE,
            y <= MAX_MAP_SIDE,
        ensures
            r.x == tile_pos_spec(x as int, y as int).0,
            r.y == tile_pos_spec(x as int, y as int).1,
    {
        let xi = x as i32;
        let yi = y as i32;
        let shift: i32 = if y % 2 == 0 { 0 } else { 35 };
        Point::new((shift + TILE_WIDTH * xi) * UNITS_PER_PIXEL, TILE_HEIGHT * yi * UNITS_PER_PIXEL)
    }

    pub fn tile_center(x: usize, y: usize) -> (r: Point)
        requires
            x <= MAX_MAP_SIDE,
            y <= MAX_MAP_SIDE,
        ensures
            r == tile_center_spec(x as int, y as int),
    {
        let p = GameMap::tile_pos(x, y);
        Point::new(p.x + 355, p.y + 395)
    }

    /// The spawn cells among the first `n` cells of a scan by columns.
    pub open spec fn spawns_upto(&self, n: nat) -> Seq<(usize, usize)>
        decreases n,
    {
        if n == 0 {
            Seq::empty()
        } else {
            let rest = self.spawns_upto((n - 1) as nat);
            let c = scan_cell(self.ysize as int, n - 1);
            if self.kind_spec(c.0, c.1) == TileType::Spawn {
                rest.push((c.0 as usize, c.1 as usize))
            } else {
                rest
            }
        }
    }

    /// Every spawn cell, by columns and within a column by rows.
    pub open spec fn spawn_points_spec(&self) -> Seq<(usize, usize)> {
        self.spawns_upto((self.xsize * self.ysize) as nat)
    }

    pub fn get_spawn_points(&self) -> (r: Vec<(usize, usize)>)
        requires
            self.wf(),
        ensures
            r@ == self.spawn_points_spec(),
    {
        let n = self.xsize * self.ysize;
        let mut r: Vec<(usize, usize)> = Vec::new();
        let mut k: usize = 0;
        while k < n
            invariant
                self.wf(),
                n == self.xsize * self.ysize,
                k <= n,
                r@ == self.spawns_upto(k as nat),
            decreases n - k,
        {
            let x = k / self.ysize;
            let y = k % self.ysize;
            assert(x < self.xsize) by (nonlinear_arith)
                requires x == k / self.ysize, k < self.xsize * self.ysize, self.ysize > 0;
            if self.is_spawn(x, y) {
                r.push((x, y));
            }
            k = k + 1;
        }
        r
    }

    /// The last target cell among the first `n` cells of a scan by columns, or
    /// `(0, 0)` when there is none.
    pub open spec fn target_upto(&self, n: nat) -> (int, int)
        decreases n,
    {
        if n == 0 {
            (0, 0)
        } else {
            let c = scan_cell(self.ysize as int, n - 1);
            if self.kind_spec(c.0, c.1) == TileType::Target {
                c
            } else {
                self.target_upto((n - 1) as nat)
            }
        }
    }

    /// The target cell: the last one of a scan by columns.
    pub open spec fn target_spec(&self) -> (int, int) {
        self.target_upto((self.xsize * self.ysize) as nat)
    }

    pub fn target(&self) -> (r: &Tile)
        requires
            self.wf(),
        ensures
            *r == self.tile_spec(self.target_spec().0, self.target_spec().1),
            self.in_bounds(self.target_spec().0, self.target_spec().1),
    {
        let n = self.xsize * self.ysize;
        let mut tx: usize = 0;
        let mut ty: usize = 0;
        let mut k: usize = 0;
        while k < n
            invariant
                self.wf(),
                n == self.xsize * self.ysize,
                k <= n,
                (tx as int, ty as int) == self.target_upto(k as nat),
                self.in_bounds(tx as int, ty as int),
            decreases n - k,
        {
            let x = k / self.ysize;
            let y = k % self.ysize;
            assert(x < self.xsize) by (nonlinear_arith)
                requires x == k / self.ysize, k < self.xsize * self.ysize, self.ysize > 0;
            match self.get_tile_type(x, y) {
                TileType::Target => {
                    tx = x;
                    ty = y;
                },
                _ => {},
            }
            k = k + 1;
        }
        self.get_tile(tx, ty)
    }

    proof fn lemma_valid_cells(&self, cells: Seq<(int, int)>)
        ensures
            forall|i: int| 0 <= i < self.valid_cells(cells).len() ==> self.valid_spec(
                (#[trigger] self.valid_cells(cells)[i]).0 as int,
                self.valid_cells(cells)[i].1 as int,
            ),
        decreases cells.len(),
    {
        if cells.len() > 0 {
            self.lemma_valid_cells(cells.drop_last());
            let c = cells.last();
            let rest = self.valid_cells(cells.drop_last());
            let all = self.valid_cells(cells);
            assert forall|i: int| 0 <= i < all.len() implies self.valid_spec(
                (#[trigger] all[i]).0 as int,
                all[i].1 as int,
            ) by {
                if i < rest.len() {
                    assert(all[i] == rest[i]);
                } else {
                    assert(c.0 as usize as int == c.0 && c.1 as usize as int == c.1);
                }
            }
        }
    }

    /// Edges out of cell `(x, y)`: one to each adjacent valid cell, costing
    /// that cell's traversal cost.
    pub open spec fn edges_spec(&self, x: int, y: int) -> Seq<Edge> {
        self.neighbors_spec(x, y, 1).map_values(
            |c: (usize, usize)|
                Edge {
                    node: cell_index(self.xsize as int, c.0 as int, c.1 as int) as usize,
                    cost: self.tile_spec(c.0 as int, c.1 as int).cost,
                },
        )
    }

    /// The weighted graph of the map: node `y * xsize + x` stands for cell `(x, y)`.
    pub open spec fn graph_spec(&self) -> Seq<Seq<Edge>> {
        Seq::new(
            (self.xsize * self.ysize) as nat,
            |k: int| self.edges_spec(k % self.xsize as int, k / self.xsize as int),
        )
    }

    /// Some walk over adjacent valid cells leads from `(x, y)` to the target.
    pub open spec fn reaches_target(&self, x: int, y: int) -> bool {
        reachable(
            self.graph_spec(),
            cell_index(self.xsize as int, x, y),
            cell_index(self.xsize as int, self.target_spec().0, self.target_spec().1),
        )
    }

    proof fn lemma_cell_index(&self, x: int, y: int)
        requires
            self.wf(),
            self.in_bounds(x, y),
        ensures
            0 <= cell_index(self.xsize as int, x, y) < self.xsize * self.ysize,
            cell_index(self.xsize as int, x, y) % self.xsize as int == x,
            cell_index(self.xsize as int, x, y) / self.xsize as int == y,
    {
        let w = self.xsize as int;
        let h = self.ysize as int;
        assert(0 <= y * w + x < w * h) by (nonlinear_arith)
            requires 0 <= x < w, 0 <= y < h;
        vstd::arithmetic::div_mod::lemma_fundamental_div_mod_converse(y * w + x, w, y, x);
    }

    proof fn lemma_graph_wf(&self)
        requires
            self.wf(),
        ensures
            graph_wf(self.graph_spec()),
    {
        let g = self.graph_spec();
        assert forall|a: int, j: int| 0 <= a < g.len() && 0 <= j < g[a].len() implies #[trigger] g[a][j].node < g.len() by {
            let x = a % self.xsize as int;
            let y = a / self.xsize as int;
            let cells = self.neighbors_spec(x, y, 1);
            self.lemma_valid_cells(rings_upto(x, y, 1));
            let c = cells[j];
            assert(self.valid_spec(c.0 as int, c.1 as int));
            self.lemma_cell_index(c.0 as int, c.1 as int);
        }
    }

    pub fn build_graph(&self) -> (r: Vec<Vec<Edge>>)
        requires
            self.wf(),
        ensures
            view_graph(r@) == self.graph_spec(),
            graph_wf(view_graph(r@)),
    {
        let n = self.xsize * self.ysize;
        let mut graph: Vec<Vec<Edge>> = Vec::new();
        let mut k: usize = 0;
        while k < n
            invariant
                self.wf(),
                n == self.xsize * self.ysize,
                k <= n,
                graph@.len() == k,
                view_graph(graph@) == self.graph_spec().subrange(0, k as int),
            decreases n - k,
        {
            let x = k % self.xsize;
            let y = k / self.xsize;
            assert(y < self.ysize) by (nonlinear_arith)
                requires y == k / self.xsize, k < self.xsize * self.ysize, self.xsize > 0;
            let cells = self.neighbors(x, y, 1);
            proof {
                self.lemma_valid_cells(rings_upto(x as int, y as int, 1));
            }
            let mut nodes: Vec<Edge> = Vec::new();
            let mut i: usize = 0;
            while i < cells.len()
                invariant
                    self.wf(),
                    cells@ == self.neighbors_spec(x as int, y as int, 1),
                    forall|j: int| 0 <= j < cells@.len() ==> self.valid_spec(
                        (#[trigger] cells@[j]).0 as int,
                        cells@[j].1 as int,
                    ),
                    i <= cells@.len(),
                    nodes@ == self.edges_spec(x as int, y as int).subrange(0, i as int),
                decreases cells@.len() - i,
            {
                let (cx, cy) = cells[i];
                assert(self.valid_spec(cx as int, cy as int));
                proof {
                    self.lemma_cell_index(cx as int, cy as int);
                }
                let t = self.get_tile(cx, cy);
                nodes.push(Edge { node: cy * self.xsize + cx, cost: t.cost });
                i = i + 1;
                assert(nodes@ =~= self.edges_spec(x as int, y as int).subrange(0, i as int));
            }
            assert(nodes@ =~= self.edges_spec(x as int, y as int));
            let ghost before = graph@;
            graph.push(nodes);
            proof {
                assert(graph@[k as int]@ == self.graph_spec()[k as int]);
                assert forall|i: int| 0 <= i < k implies view_graph(graph@)[i] == self.graph_spec()[i] by {
                    assert(graph@[i] == before[i]);
                    assert(view_graph(before)[i] == self.graph_spec().subrange(0, k as int)[i]);
                }
            }
            k = k + 1;
            assert(view_graph(graph@) =~= self.graph_spec().subrange(0, k as int));
        }
        assert(self.graph_spec().subrange(0, n as int) =~= self.graph_spec());
        proof {
            self.lemma_graph_wf();
        }
        graph
    }

    /// Cell numbered `k` in the map's graph.
    pub open spec fn cell_of(&self, k: int) -> Position {
        Position { x: (k % self.xsize as int) as usize, y: (k / self.xsize as int) as usize }
    }

    /// Graph node of a cell.
    pub open spec fn node_of(&self, p: Position) -> int {
        cell_index(self.xsize as int, p.x as int, p.y as int)
    }

    proof fn lemma_cell_of(&self, k: int)
        requires
            self.wf(),
            0 <= k < self.xsize * self.ysize,
        ensures
            self.in_bounds(self.cell_of(k).x as int, self.cell_of(k).y as int),
            self.node_of(self.cell_of(k)) == k,
    {
        let w = self.xsize as int;
        vstd::arithmetic::div_mod::lemma_fundamental_div_mod(k, w);
        assert(k / w < self.ysize) by (nonlinear_arith)
            requires 0 <= k < w * self.ysize, w > 0;
        assert(0 <= k / w) by (nonlinear_arith)
            requires 0 <= k, w > 0;
        assert((k % w) as usize as int == k % w);
        assert(k == (k / w) * w + k % w) by (nonlinear_arith)
            requires k == w * (k / w) + k % w;
        assert((k / w) as usize as int == k / w);
    }

    /// Graph nodes of a sequence of cells.
    pub open spec fn nodes_of(&self, p: Seq<Position>) -> Seq<int> {
        p.map_values(|c: Position| self.node_of(c))
    }

    /// `p` is a cheapest route from `(x, y)` to the target: it follows the
    /// map's edges and no route between those cells costs less.
    pub open spec fn cheapest(&self, p: Seq<Position>, x: int, y: int) -> bool {
        let g = self.graph_spec();
        let s = cell_index(self.xsize as int, x, y);
        let t = cell_index(self.xsize as int, self.target_spec().0, self.target_spec().1);
        exists|e: Seq<int>| #[trigger] is_route(g, self.nodes_of(p), e) && no_cheaper(g, s, t, route_cost(g, self.nodes_of(p), e))
    }

    /// A cheapest path of adjacent valid cells from `(x, y)` to the target,
    /// found by Dijkstra's search; `None` exactly when no path exists.
    pub fn path(&self, x: usize, y: usize) -> (r: Option<Vec<Position>>)
        requires
            self.wf(),
            self.in_bounds(x as int, y as int),
        ensures
            r is Some <==> self.reaches_target(x as int, y as int),
            r matches Some(p) ==> {
                &&& p@.len() >= 1
                &&& p@.len() == 1 <==> (x == self.target_spec().0 && y == self.target_spec().1)
                &&& p@[0] == (Position { x, y })
                &&& p@.last() == (Position {
                    x: self.target_spec().0 as usize,
                    y: self.target_spec().1 as usize,
                })
                &&& forall|i: int| 0 <= i < p@.len() ==> self.in_bounds(
                    (#[trigger] p@[i]).x as int,
                    p@[i].y as int,
                )
                &&& forall|i: int|
                    0 <= i < p@.len() - 1 ==> has_edge(
                        self.graph_spec(),
                        self.node_of(#[trigger] p@[i]),
                        self.node_of(p@[i + 1]),
                    )
                &&& self.cheapest(p@, x as int, y as int)
                &&& forall|a: int, b: int| 0 <= a < b < p@.len() ==> p@[a] != p@[b]
            },
    {
        let graph = self.build_graph();
        let target = self.target();
        let tx = target.position.x;
        let ty = target.position.y;
        proof {
            self.lemma_cell_index(x as int, y as int);
            self.lemma_cell_index(tx as int, ty as int);
        }
        let start = y * self.xsize + x;
        let goal = ty * self.xsize + tx;
        assert(graph@.len() == view_graph(graph@).len());
        let came_from = match shortest_path(&graph, start, goal) {
            Some(c) => c,
            None => {
                return None;
            },
        };
        let ghost g = self.graph_spec();
        assert(came_from_closed(came_from@)) by {
            assert forall|n: int| 0 <= n < came_from@.len() && #[trigger] came_from@[n] is Some implies came_from@[n]->0
                < came_from@.len() by {
                assert(has_edge(g, came_from@[n]->0 as int, n));
            }
        }
        let nodes = match reconstruct_path(&came_from, start, goal) {
            Some(p) => p,
            None => {
                return None;
            },
        };
        proof {
            assert forall|k: int| 0 <= k < nodes@.len() implies #[trigger] nodes@[k] < g.len() by {
                assert(nodes@[k] < came_from@.len());
            }
        }
        let mut path: Vec<Position> = Vec::new();
        let mut i: usize = 0;
        while i < nodes.len()
            invariant
                self.wf(),
                i <= nodes@.len(),
                came_from_wf(g, came_from@),
                g == self.graph_spec(),
                g.len() == self.xsize * self.ysize,
                forall|k: int| 0 <= k < nodes@.len() ==> #[trigger] nodes@[k] < g.len(),
                path@.len() == i,
                forall|k: int| 0 <= k < i ==> #[trigger] path@[k] == self.cell_of(nodes@[k] as int),
            decreases nodes@.len() - i,
        {
            let k = nodes[i];
            path.push(Position::new(k % self.xsize, k / self.xsize));
            i = i + 1;
        }
        proof {
            assert forall|k: int| 0 <= k < path@.len() implies self.in_bounds(
                (#[trigger] path@[k]).x as int,
                path@[k].y as int,
            ) by {
                self.lemma_cell_of(nodes@[k] as int);
            }
            assert forall|k: int| 0 <= k < path@.len() - 1 implies has_edge(
                g,
                self.node_of(#[trigger] path@[k]),
                self.node_of(path@[k + 1]),
            ) by {
                self.lemma_cell_of(nodes@[k] as int);
                self.lemma_cell_of(nodes@[k + 1] as int);
                assert(came_from@[nodes@[k + 1] as int] == Some(nodes@[k]));
            }
            self.lemma_cell_of(start as int);
            self.lemma_cell_of(goal as int);
            assert(self.cell_of(start as int) == (Position { x, y }));
            let d = choose|d: Seq<Option<usize>>| distances_for(g, came_from@, start as int, goal as int, d);
            let q = nodes@.map_values(|v: usize| v as int);
            assert forall|i: int| 0 <= i < q.len() implies 0 <= #[trigger] q[i] < g.len() by {
                assert(nodes@[i] < g.len());
            }
            assert forall|i: int| 0 <= i < q.len() - 1 implies came_from@[#[trigger] q[i + 1]] == Some(q[i] as usize) by {
                assert(came_from@[nodes@[i + 1] as int] == Some(nodes@[i]));
            }
            let e = lemma_tree_route(g, came_from@, d, start as int, q, q.len() as int);
            assert(q.take(q.len() as int) =~= q);
            assert(self.nodes_of(path@) =~= q) by {
                assert forall|k: int| 0 <= k < q.len() implies self.nodes_of(path@)[k] == q[k] by {
                    self.lemma_cell_of(nodes@[k] as int);
                }
            }
            assert(is_route(g, self.nodes_of(path@), e));
            assert forall|a: int, b: int| 0 <= a < b < path@.len() implies path@[a] != path@[b] by {
                self.lemma_cell_of(nodes@[a] as int);
                self.lemma_cell_of(nodes@[b] as int);
                assert(nodes@[a] != nodes@[b]);
            }
            assert(q.last() == goal);
        }
        Some(path)
    }

    /// Number of target cells among the first `n` cells of a scan by columns.
    pub open spec fn targets_upto(&self, n: nat) -> nat
        decreases n,
    {
        if n == 0 {
            0
        } else {
            let c = scan_cell(self.ysize as int, n - 1);
            self.targets_upto((n - 1) as nat) + if self.kind_spec(c.0, c.1) == TileType::Target {
                1nat
            } else {
                0nat
            }
        }
    }

    /// A walkable or spawn cell: one that enemies walk from.
    pub open spec fn is_route_kind(kind: TileType) -> bool {
        kind == TileType::Spawn || kind is Walk
    }

    /// The map has exactly one target cell and at least one spawn cell, and
    /// every walkable or spawn cell has a path to the target.
    pub open spec fn playable(&self) -> bool {
        &&& self.targets_upto((self.xsize * self.ysize) as nat) == 1
        &&& self.spawn_points_spec().len() > 0
        &&& forall|x: int, y: int|
            self.in_bounds(x, y) && GameMap::is_route_kind(#[trigger] self.kind_spec(x, y))
                ==> self.reaches_target(x, y)
    }

    /// Whether the map is [`playable`](GameMap::playable).
    pub fn is_playable(&self) -> (r: bool)
        requires
            self.wf(),
        ensures
            r == self.playable(),
    {
        let n = self.xsize * self.ysize;
        let mut targets: usize = 0;
        let mut k: usize = 0;
        while k < n
            invariant
                self.wf(),
                n == self.xsize * self.ysize,
                k <= n,
                targets == self.targets_upto(k as nat),
                targets <= k,
            decreases n - k,
        {
            let x = k / self.ysize;
            let y = k % self.ysize;
            assert(x < self.xsize) by (nonlinear_arith)
                requires x == k / self.ysize, k < self.xsize * self.ysize, self.ysize > 0;
            match self.get_tile_type(x, y) {
                TileType::Target => {
                    targets = targets + 1;
                },
                _ => {},
            }
            k = k + 1;
        }
        if targets != 1 {
            return false;
        }
        if self.get_spawn_points().len() == 0 {
            return false;
        }
        let graph = self.build_graph();
        let target = self.target();
        let tx = target.position.x;
        let ty = target.position.y;
        proof {
            self.lemma_cell_index(tx as int, ty as int);
        }
        let goal = ty * self.xsize + tx;
        assert(graph@.len() == view_graph(graph@).len());
        let mut y: usize = 0;
        while y < self.ysize
            invariant
                self.wf(),
                view_graph(graph@) == self.graph_spec(),
                graph_wf(view_graph(graph@)),
                graph@.len() == self.xsize * self.ysize,
                goal == cell_index(self.xsize as int, self.target_spec().0, self.target_spec().1),
                goal < graph@.len(),
                y <= self.ysize,
                forall|cx: int, cy: int|
                    self.in_bounds(cx, cy) && cy < y && GameMap::is_route_kind(#[trigger] self.kind_spec(cx, cy))
                        ==> self.reaches_target(cx, cy),
            decreases self.ysize - y,
        {
            let mut x: usize = 0;
            while x < self.xsize
                invariant
                    self.wf(),
                    view_graph(graph@) == self.graph_spec(),
                    graph_wf(view_graph(graph@)),
                    graph@.len() == self.xsize * self.ysize,
                    goal == cell_index(self.xsize as int, self.target_spec().0, self.target_spec().1),
                    goal < graph@.len(),
                    y < self.ysize,
                    x <= self.xsize,
                    forall|cx: int, cy: int|
                        self.in_bounds(cx, cy) && (cy < y || (cy == y && cx < x)) && GameMap::is_route_kind(
                            #[trigger] self.kind_spec(cx, cy),
                        ) ==> self.reaches_target(cx, cy),
                decreases self.xsize - x,
            {
                let kind = self.get_tile_type(x, y);
                let route = match kind {
                    TileType::Walk(_) => true,
                    TileType::Spawn => true,
                    _ => false,
                };
                if route {
                    proof {
                        self.lemma_cell_index(x as int, y as int);
                    }
                    if shortest_path(&graph, y * self.xsize + x, goal).is_none() {
                        return false;
                    }
                }
                x = x + 1;
            }
            y = y + 1;
        }
        true
    }

    /// A rectangular table of at least one row and one column, within the size limits.
    pub open spec fn layout_ok(kinds: Seq<Vec<TileType>>) -> bool {
        &&& 0 < kinds.len() <= MAX_MAP_SIDE
        &&& 0 < kinds[0]@.len() <= MAX_MAP_SIDE
        &&& kinds[0]@.len() * kinds.len() <= usize::MAX
        &&& forall|y: int| 0 <= y < kinds.len() ==> (#[trigger] kinds[y])@.len() == kinds[0]@.len()
    }

    /// The map whose row `y` holds the tile kinds `kinds[y]`, each tile
    /// costing what its kind costs; `None` unless the table is a nonempty
    /// rectangle within the size limits.
    pub fn from_kinds(kinds: &Vec<Vec<TileType>>) -> (r: Option<GameMap>)
        ensures
            r is Some <==> GameMap::layout_ok(kinds@),
            r matches Some(m) ==> {
                &&& m.wf()
                &&& m.ysize == kinds@.len()
                &&& m.xsize == kinds@[0]@.len()
                &&& forall|x: int, y: int| m.in_bounds(x, y) ==> #[trigger] m.kind_spec(x, y) == kinds@[y]@[x]
            },
    {
        let ysize = kinds.len();
        if ysize == 0 || ysize > MAX_MAP_SIDE {
            return None;
        }
        let xsize = kinds[0].len();
        if xsize == 0 || xsize > MAX_MAP_SIDE {
            return None;
        }
        if xsize.checked_mul(ysize).is_none() {
            return None;
        }
        let mut data: Vec<Vec<Tile>> = Vec::new();
        let mut y: usize = 0;
        while y < ysize
            invariant
                ysize == kinds@.len(),
                xsize == kinds@[0]@.len(),
                0 < xsize <= MAX_MAP_SIDE,
                0 < ysize <= MAX_MAP_SIDE,
                xsize * ysize <= usize::MAX,
                y <= ysize,
                data@.len() == y,
                forall|j: int| 0 <= j < y ==> (#[trigger] kinds@[j])@.len() == xsize,
                forall|j: int| 0 <= j < y ==> (#[trigger] data@[j])@.len() == xsize,
                forall|i: int, j: int|
                    0 <= i < xsize && 0 <= j < y ==> #[trigger] data@[j]@[i] == (Tile {
                        kind: kinds@[j]@[i],
                        cost: cost_of(kinds@[j]@[i]),
                        position: Position { x: i as usize, y: j as usize },
                    }),
            decreases ysize - y,
        {
            let row = &kinds[y];
            if row.len() != xsize {
                return None;
            }
            let mut tiles: Vec<Tile> = Vec::new();
            let mut x: usize = 0;
            while x < xsize
                invariant
                    row@.len() == xsize,
                    row@ == kinds@[y as int]@,
                    x <= xsize,
                    tiles@.len() == x,
                    forall|i: int| 0 <= i < x ==> #[trigger] tiles@[i] == (Tile {
                        kind: row@[i],
                        cost: cost_of(row@[i]),
                        position: Position { x: i as usize, y: y },
                    }),
                decreases xsize - x,
            {
                tiles.push(Tile::new_from_type(row[x], x, y));
                x = x + 1;
            }
            data.push(tiles);
            y = y + 1;
        }
        let m = GameMap { xsize, ysize, data };
        assert(m.wf());
        Some(m)
    }

    /// `self` is the map of the tile kinds `kinds`: same size, same kinds,
    /// each tile at its place with its kind's cost. Whether such a map is
    /// playable depends on `kinds` alone.
    pub open spec fn built_from(&self, kinds: Seq<Vec<TileType>>) -> bool {
        &&& self.wf()
        &&& self.ysize == kinds.len()
        &&& self.xsize == kinds[0]@.len()
        &&& forall|x: int, y: int| self.in_bounds(x, y) ==> #[trigger] self.kind_spec(x, y) == kinds[y]@[x]
    }

    /// The map of the tile kinds `kinds`, rows first; `None` unless the table
    /// is a nonempty rectangle within the size limits (see
    /// [`from_kinds`](GameMap::from_kinds)) and the map it describes is
    /// [`playable`](GameMap::playable).
    pub fn new(kinds: &Vec<Vec<TileType>>) -> (r: Option<GameMap>)
        ensures
            !GameMap::layout_ok(kinds@) ==> r is None,
            GameMap::layout_ok(kinds@) ==> exists|m: GameMap|
                #[trigger] m.built_from(kinds@) && (r is Some <==> m.playable()),
            r matches Some(m) ==> {
                &&& m.wf()
                &&& m.playable()
                &&& m.ysize == kinds@.len()
                &&& m.xsize == kinds@[0]@.len()
                &&& forall|x: int, y: int| m.in_bounds(x, y) ==> #[trigger] m.kind_spec(x, y) == kinds@[y]@[x]
            },
    {
        match GameMap::from_kinds(kinds) {
            None => None,
            Some(m) => {
                assert(m.built_from(kinds@));
                if m.is_playable() {
                    Some(m)
                } else {
                    None
                }
            },
        }
    }

    /// Every spawn point is a cell of the map.
    pub proof fn lemma_spawn_points_in_bounds(&self)
        requires
            self.wf(),
        ensures
            forall|i: int| 0 <= i < self.spawn_points_spec().len() ==> self.in_bounds(
                (#[trigger] self.spawn_points_spec()[i]).0 as int,
                self.spawn_points_spec()[i].1 as int,
            ),
    {
        self.lemma_spawns_upto((self.xsize * self.ysize) as nat);
    }

    proof fn lemma_spawns_upto(&self, n: nat)
        requires
            self.wf(),
            n <= self.xsize * self.ysize,
        ensures
            forall|i: int| 0 <= i < self.spawns_upto(n).len() ==> self.in_bounds(
                (#[trigger] self.spawns_upto(n)[i]).0 as int,
                self.spawns_upto(n)[i].1 as int,
            ),
        decreases n,
    {
        if n > 0 {
            self.lemma_spawns_upto((n - 1) as nat);
            let k = n - 1;
            let c = scan_cell(self.ysize as int, k);
            let h = self.ysize as int;
            assert(0 <= k / h < self.xsize) by (nonlinear_arith)
                requires 0 <= k < self.xsize * h, h > 0;
            assert(0 <= k % h < h) by (nonlinear_arith)
                requires h > 0, 0 <= k;
            let rest = self.spawns_upto((n - 1) as nat);
            let all = self.spawns_upto(n);
            assert forall|i: int| 0 <= i < all.len() implies self.in_bounds(
                (#[trigger] all[i]).0 as int,
                all[i].1 as int,
            ) by {
                if i < rest.len() {
                    assert(all[i] == rest[i]);
                }
            }
        }
    }

    fn center_distance(x: usize, y: usize, p: Point) -> (r: u128)
        requires
            x <= 4_000_000,
            y <= 4_000_000,
        ensures
            r == center_dist2(x as int, y as int, p),
    {
        let xi = x as i64;
        let yi = y as i64;
        let shift: i64 = if y % 2 == 0 { 0 } else { 35 };
        let cx: i64 = (shift + 69 * xi) * 10 + 355;
        let cy: i64 = 59 * yi * 10 + 395;
        let dx: i64 = cx - p.x as i64;
        let dy: i64 = cy - p.y as i64;
        let ax: u128 = if dx < 0 { (-dx) as u128 } else { dx as u128 };
        let ay: u128 = if dy < 0 { (-dy) as u128 } else { dy as u128 };
        assert(ax * ax == dx * dx) by (nonlinear_arith)
            requires ax == dx || ax == -dx;
        assert(ay * ay == dy * dy) by (nonlinear_arith)
            requires ay == dy || ay == -dy;
        assert(ax < 0x1_0000_0000_0000);
        assert(ay < 0x1_0000_0000_0000);
        assert(ax * ax <= 0x1_0000_0000_0000 * 0x1_0000_0000_0000) by (nonlinear_arith)
            requires ax < 0x1_0000_0000_0000;
        assert(ay * ay <= 0x1_0000_0000_0000 * 0x1_0000_0000_0000) by (nonlinear_arith)
            requires ay < 0x1_0000_0000_0000;
        ax * ax + ay * ay
    }

    /// The cell whose center is nearest to `p` among the cell that the
    /// coordinates' quotients by the cell size name and its neighbors up
    /// and to the left; the first of them, in the order weighed, on a tie.
    #[verifier::spinoff_prover]
    pub fn tile_index_at(point: Point) -> (r: (usize, usize))
        ensures
            nearest_cell(point, r.0 as int, r.1 as int),
    {
        let x: usize = if point.x < 0 { 0 } else { (point.x / 690) as usize };
        let y: usize = if point.y < 0 { 0 } else { (point.y / 590) as usize };
        let ghost c = candidates(point);
        let x0: usize = if x > 0 { x - 1 } else { x };
        let y0: usize = if y > 0 { y - 1 } else { y };
        let nx: usize = x + 1 - x0;
        let ny: usize = y + 1 - y0;
        assert(nx <= 2 && ny <= 2);
        assert(nx * ny <= 4) by (nonlinear_arith)
            requires 1 <= nx <= 2, 1 <= ny <= 2;
        assert(x == coarse(point.x as int, TILE_WIDTH * UNITS_PER_PIXEL));
        assert(y == coarse(point.y as int, TILE_HEIGHT * UNITS_PER_PIXEL));
        assert(c.len() == nx * ny);
        assert forall|j: int| 0 <= j < c.len() implies #[trigger] c[j] == ((x0 + j / ny as int), (y0 + j % ny as int)) by {
            assert(0 <= j < 4);
            if ny == 1 {
                assert(j / 1 == j && j % 1 == 0);
            } else {
                assert(j == 0 || j == 1 || j == 2 || j == 3);
                if j == 0 {
                    assert(j / 2 == 0 && j % 2 == 0);
                } else if j == 1 {
                    assert(j / 2 == 0 && j % 2 == 1);
                } else if j == 2 {
                    assert(j / 2 == 1 && j % 2 == 0);
                } else {
                    assert(j / 2 == 1 && j % 2 == 1);
                }
            }
        }
        let mut best: u128 = 0;
        let mut rx: usize = x0;
        let mut ry: usize = y0;
        let mut k: usize = 0;
        let ghost mut bk: int = 0;
        while k < nx * ny
            invariant
                c == candidates(point),
                c.len() == nx * ny,
                1 <= nx <= 2,
                1 <= ny <= 2,
                x0 + nx == x + 1,
                y0 + ny == y + 1,
                x <= 3_200_000,
                y <= 3_700_000,
                forall|j: int| 0 <= j < c.len() ==> #[trigger] c[j] == ((x0 + j / ny as int), (y0 + j % ny as int)),
                k <= nx * ny,
                k > 0 ==> 0 <= bk < k && c[bk] == (rx as int, ry as int) && best == center_dist2(rx as int, ry as int, point),
                k > 0 ==> forall|j: int| 0 <= j < bk ==> center_dist2(c[j].0, c[j].1, point) > best,
                k > 0 ==> forall|j: int| bk < j < k ==> center_dist2(c[j].0, c[j].1, point) >= best,
            decreases nx * ny - k,
        {
            let xi = x0 + k / ny;
            let yi = y0 + k % ny;
            let d = GameMap::center_distance(xi, yi, point);
            if k == 0 || d < best {
                best = d;
                rx = xi;
                ry = yi;
                proof {
                    bk = k as int;
                }
            }
            k = k + 1;
        }
        proof {
            assert(k > 0);
            assert(0 <= bk < c.len() && c[bk] == (rx as int, ry as int));
            assert(nearest_cell(point, rx as int, ry as int));
        }
        (rx, ry)
    }

    /// The kind of the cell `tile_index_at` gives for `point`, if that cell
    /// is on the map.
    pub fn tile_at(&self, point: Point) -> (r: Option<TileType>)
        requires
            self.wf(),
        ensures
            exists|cx: int, cy: int| {
                &&& #[trigger] nearest_cell(point, cx, cy)
                &&& r is Some <==> self.in_bounds(cx, cy)
                &&& r matches Some(k) ==> k == self.kind_spec(cx, cy)
            },
    {
        let (x, y) = GameMap::tile_index_at(point);
        assert(nearest_cell(point, x as int, y as int));
        if x < self.xsize && y < self.ysize {
            Some(self.get_tile_type(x, y))
        } else {
            None
        }
    }
}

/// On a playable map, every walkable or spawn cell has a path to the
/// target: a walk over adjacent valid cells, which `GameMap::path` returns.
pub proof fn lemma_route_cells_reach_target(m: GameMap, x: int, y: int)
    requires
        m.wf(),
        m.playable(),
        m.in_bounds(x, y),
        GameMap::is_route_kind(m.kind_spec(x, y)),
    ensures
        m.reaches_target(x, y),
{

}

} // verus!
