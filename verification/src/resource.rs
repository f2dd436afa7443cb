//! Grid geometry, shape rasterizers, and the snake simulation state.

use vstd::arithmetic::div_mod::{lemma_fundamental_div_mod, lemma_fundamental_div_mod_converse};
use vstd::prelude::*;

verus! {

/// Largest supported cell size, in pixels.
pub const MAX_CELL_SIZE: u32 = 0x4000;

/// Largest supported window dimension, in pixels.
pub const MAX_WINDOW_DIM: u32 = 0x2000_0000;

/// The direction the snake moves in, set by input and read once per tick.
#[derive(Clone, Copy, Debug)]
pub enum Direction {
    Up,
    Down,
    Left,
    Right,
}

/// A logical cell grid laid over a pixel buffer: `grid_width` columns and
/// `grid_height` rows of `size`-pixel squares.
#[derive(Clone, Copy, Debug)]
pub struct Grid {
    pub width: u32,
    pub height: u32,
    pub size: u32,
    pub grid_width: u32,
    pub grid_height: u32,
}

impl Grid {
    /// The column/row counts are always the integer quotients of the pixel
    /// dimensions by the cell size, and the dimensions stay within the
    /// machine limits the rasterizers need.
    pub open spec fn wf(self) -> bool {
        &&& 1 <= self.size <= MAX_CELL_SIZE
        &&& self.width <= MAX_WINDOW_DIM
        &&& self.height <= MAX_WINDOW_DIM
        &&& self.grid_width == self.width / self.size
        &&& self.grid_height == self.height / self.size
    }

    pub fn new(width: u32, height: u32, size: u32) -> (g: Grid)
        requires
            1 <= size <= MAX_CELL_SIZE,
            width <= MAX_WINDOW_DIM,
            height <= MAX_WINDOW_DIM,
        ensures
            g.width == width,
            g.height == height,
            g.size == size,
            g.grid_width == width / size,
            g.grid_height == height / size,
            g.wf(),
    {
        let grid_height = height / size;
        let grid_width = width / size;

        Grid { width, height, size, grid_width, grid_height }
    }

    /// Updates the pixel dimensions and recomputes both cell counts from
    /// the unchanged cell size.
    pub fn change_window(&mut self, width: u32, height: u32)
        requires
            old(self).wf(),
            width <= MAX_WINDOW_DIM,
            height <= MAX_WINDOW_DIM,
        ensures
            final(self).width == width,
            final(self).height == height,
            final(self).size == old(self).size,
            final(self).grid_width == width / old(self).size,
            final(self).grid_height == height / old(self).size,
            final(self).wf(),
    {
        self.width = width;
        self.height = height;

        self.grid_height = height / self.size;
        self.grid_width = width / self.size;
    }

    /// Every raw pixel of the `size x size` block of cell
    /// `(grid_x, grid_y)` whose squared distance from the block's center
    /// is at most `radius` squared; scanned column by column.
    pub fn get_circle_points_at_grid(&self, grid_x: u32, grid_y: u32, radius: u32) -> (points: Vec<
        [u32; 2],
    >)
        requires
            self.wf(),
            ((grid_x + 1) as int) * (self.size as int) <= MAX_WINDOW_DIM,
            ((grid_y + 1) as int) * (self.size as int) <= MAX_WINDOW_DIM,
            radius <= MAX_CELL_SIZE,
        ensures
            circle_points_ok(points@, grid_x as int, grid_y as int, self.size as int, radius as int),
    {
        let mut points: Vec<[u32; 2]> = Vec::new();
        proof {
            assert(grid_x as int * self.size as int + self.size as int == ((grid_x as int) + 1)
                * (self.size as int)) by (nonlinear_arith);
            assert(grid_y as int * self.size as int + self.size as int == ((grid_y as int) + 1)
                * (self.size as int)) by (nonlinear_arith);
        }
        let size = self.size;
        let start_x = grid_x * size;
        let start_y = grid_y * size;

        let cx = start_x + size / 2;
        let cy = start_y + size / 2;
        let ghost cxi = cx as int;
        let ghost cyi = cy as int;
        let ghost ri = radius as int;

        let mut x = start_x;
        while x < start_x + size
            invariant
                start_x + size <= MAX_WINDOW_DIM,
                start_y + size <= MAX_WINDOW_DIM,
                1 <= size <= MAX_CELL_SIZE,
                radius <= MAX_CELL_SIZE,
                cx == start_x + size / 2,
                cy == start_y + size / 2,
                cxi == cx as int,
                cyi == cy as int,
                ri == radius as int,
                start_x <= x <= start_x + size,
                forall|k: int|
                    0 <= k < points@.len() ==> start_x <= (#[trigger] points@[k])@[0] < start_x
                        + size && start_y <= points@[k]@[1] < start_y + size && in_circle(
                        points@[k]@[0] as int,
                        points@[k]@[1] as int,
                        cxi,
                        cyi,
                        ri,
                    ),
                forall|px: int, py: int|
                    start_x <= px < x && start_y <= py < start_y + size && #[trigger] in_circle(
                        px,
                        py,
                        cxi,
                        cyi,
                        ri,
                    ) ==> has_point(points@, px, py),
                forall|k: int| 0 <= k < points@.len() ==> (#[trigger] points@[k])@[0] < x,
                forall|k1: int, k2: int|
                    0 <= k1 < k2 < points@.len() ==> point_lex_lt(
                        #[trigger] points@[k1],
                        #[trigger] points@[k2],
                    ),
            decreases start_x + size - x,
        {
            let mut y = start_y;
            while y < start_y + size
                invariant
                    start_x + size <= MAX_WINDOW_DIM,
                    start_y + size <= MAX_WINDOW_DIM,
                    1 <= size <= MAX_CELL_SIZE,
                    radius <= MAX_CELL_SIZE,
                    cx == start_x + size / 2,
                    cy == start_y + size / 2,
                    cxi == cx as int,
                    cyi == cy as int,
                    ri == radius as int,
                    start_x <= x < start_x + size,
                    start_y <= y <= start_y + size,
                    forall|k: int|
                        0 <= k < points@.len() ==> start_x <= (#[trigger] points@[k])@[0] < start_x
                            + size && start_y <= points@[k]@[1] < start_y + size && in_circle(
                            points@[k]@[0] as int,
                            points@[k]@[1] as int,
                            cxi,
                            cyi,
                            ri,
                        ),
                    forall|px: int, py: int|
                        (start_x <= px < x && start_y <= py < start_y + size || px == x && start_y
                            <= py < y) && #[trigger] in_circle(px, py, cxi, cyi, ri) ==> has_point(
                            points@,
                            px,
                            py,
                        ),
                    forall|k: int|
                        0 <= k < points@.len() ==> (#[trigger] points@[k])@[0] < x || (
                        points@[k]@[0] == x && points@[k]@[1] < y),
                    forall|k1: int, k2: int|
                        0 <= k1 < k2 < points@.len() ==> point_lex_lt(
                            #[trigger] points@[k1],
                            #[trigger] points@[k2],
                        ),
                decreases start_y + size - y,
            {
                let ghost points_before = points@;
                if point_in_circle(x as i32, y as i32, cx as i32, cy as i32, radius as i32) {
                    points.push([x, y]);
                    proof {
                        assert(points@[points@.len() - 1]@ =~= seq![x, y]);
                    }
                }
                proof {
                    assert forall|px: int, py: int|
                        (start_x <= px < x && start_y <= py < start_y + size || px == x && start_y
                            <= py < y + 1) && #[trigger] in_circle(px, py, cxi, cyi, ri)
                        implies has_point(points@, px, py) by {
                        if px == x && py == y {
                            assert(has_point(points@, px, py)) by {
                                assert(0 <= points@.len() - 1 < points@.len() && points@[points@.len()
                                    - 1]@[0] == px && points@[points@.len() - 1]@[1] == py);
                            }
                        } else {
                            assert(has_point(points_before, px, py));
                            let k = choose|k: int|
                                0 <= k < points_before.len() && points_before[k]@[0] == px
                                    && points_before[k]@[1] == py;
                            assert(points@[k]@[0] == px && points@[k]@[1] == py);
                        }
                    }
                }
                y = y + 1;
            }
            x = x + 1;
        }
        points
    }

    /// Every raw pixel of the `size x size` block of cell
    /// `(grid_x, grid_y)`, column by column, top to bottom within each
    /// column.
    pub fn get_square_points_at_grid(self, grid_x: u32, grid_y: u32) -> (points: Vec<[u32; 2]>)
        requires
            ((grid_x + 1) as int) * (self.size as int) <= u32::MAX,
            ((grid_y + 1) as int) * (self.size as int) <= u32::MAX,
        ensures
            square_points_ok(points@, grid_x as int, grid_y as int, self.size as int),
    {
        let mut points: Vec<[u32; 2]> = Vec::new();

        proof {
            assert(grid_x as int * self.size as int + self.size as int == ((grid_x as int) + 1)
                * (self.size as int)) by (nonlinear_arith);
            assert(grid_y as int * self.size as int + self.size as int == ((grid_y as int) + 1)
                * (self.size as int)) by (nonlinear_arith);
        }
        let start_x = grid_x * self.size;
        let start_y = grid_y * self.size;
        let size = self.size;

        let mut x = start_x;
        while x < start_x + size
            invariant
                start_x == grid_x * size,
                start_y == grid_y * size,
                start_x + size <= u32::MAX,
                start_y + size <= u32::MAX,
                start_x <= x <= start_x + size,
                points@.len() == (x - start_x) * size,
                forall|k: int|
                    0 <= k < points@.len() ==> #[trigger] points@[k]@ == square_point(
                        grid_x as int,
                        grid_y as int,
                        size as int,
                        k,
                    ),
            decreases start_x + size - x,
        {
            let mut y = start_y;
            while y < start_y + size
                invariant
                    start_x == grid_x * size,
                    start_y == grid_y * size,
                    start_x + size <= u32::MAX,
                    start_y + size <= u32::MAX,
                    start_x <= x < start_x + size,
                    start_y <= y <= start_y + size,
                    points@.len() == (x - start_x) * size + (y - start_y),
                    forall|k: int|
                        0 <= k < points@.len() ==> #[trigger] points@[k]@ == square_point(
                            grid_x as int,
                            grid_y as int,
                            size as int,
                            k,
                        ),
                decreases start_y + size - y,
            {
                let ghost k = points@.len() as int;
                points.push([x, y]);
                proof {
                    lemma_fundamental_div_mod_converse(
                        k,
                        size as int,
                        x as int - start_x as int,
                        y as int - start_y as int,
                    );
                    assert(points@[k]@ =~= square_point(
                        grid_x as int,
                        grid_y as int,
                        size as int,
                        k,
                    ));
                }
                y = y + 1;
            }
            proof {
                assert((x as int + 1 - start_x as int) * (size as int) == (x as int
                    - start_x as int) * (size as int) + size as int) by (nonlinear_arith);
            }
            x = x + 1;
        }
        proof {
            assert(points@.len() == size * size) by (nonlinear_arith)
                requires
                    points@.len() == (x - start_x) * (size as int),
                    x == start_x + size,
            ;
        }
        points
    }
}

/// The `k`-th pixel (as an `[x, y]` view) of the square block of cell
/// `(grid_x, grid_y)` on a grid with cells of `size` pixels.
pub open spec fn square_point(grid_x: int, grid_y: int, size: int, k: int) -> Seq<u32> {
    seq![
        (grid_x * size + k / size) as u32,
        (grid_y * size + k % size) as u32,
    ]
}

/// The pixel list of a square: one entry per pixel of the cell's block,
/// ordered column by column.
pub open spec fn square_points_ok(points: Seq<[u32; 2]>, grid_x: int, grid_y: int, size: int) -> bool {
    &&& points.len() == size * size
    &&& forall|k: int|
        0 <= k < points.len() ==> #[trigger] points[k]@ == square_point(grid_x, grid_y, size, k)
}

/// A square's pixel list holds exactly `size * size` pairwise distinct
/// coordinates, all of them inside the half-open block
/// `[grid_x*size, (grid_x+1)*size) x [grid_y*size, (grid_y+1)*size)`.
pub proof fn lemma_square_points_exact(points: Seq<[u32; 2]>, grid_x: int, grid_y: int, size: int)
    requires
        0 <= grid_x,
        0 <= grid_y,
        1 <= size,
        (grid_x + 1) * size <= u32::MAX,
        (grid_y + 1) * size <= u32::MAX,
        square_points_ok(points, grid_x, grid_y, size),
    ensures
        points.len() == size * size,
        forall|k: int|
            0 <= k < points.len() ==> grid_x * size <= #[trigger] points[k]@[0] < (grid_x + 1)
                * size && grid_y * size <= points[k]@[1] < (grid_y + 1) * size,
        forall|k1: int, k2: int|
            0 <= k1 < k2 < points.len() ==> #[trigger] points[k1]@ != #[trigger] points[k2]@,
{
    assert((grid_x + 1) * size == grid_x * size + size) by (nonlinear_arith);
    assert((grid_y + 1) * size == grid_y * size + size) by (nonlinear_arith);
    assert forall|k: int| 0 <= k < points.len() implies grid_x * size <= #[trigger] points[k]@[0]
        < (grid_x + 1) * size && grid_y * size <= points[k]@[1] < (grid_y + 1) * size by {
        lemma_fundamental_div_mod(k, size);
        assert(k / size < size) by (nonlinear_arith)
            requires
                0 <= k < size * size,
                1 <= size,
                k == size * (k / size) + k % size,
                0 <= k % size < size,
        ;
        assert(0 <= k / size) by (nonlinear_arith)
            requires
                0 <= k,
                1 <= size,
                k == size * (k / size) + k % size,
                0 <= k % size < size,
        ;
        assert(points[k]@ == square_point(grid_x, grid_y, size, k));
    }
    assert forall|k1: int, k2: int|
        0 <= k1 < k2 < points.len() implies #[trigger] points[k1]@ != #[trigger] points[k2]@ by {
        lemma_fundamental_div_mod(k1, size);
        lemma_fundamental_div_mod(k2, size);
        assert(0 <= k1 / size && k1 / size < size && 0 <= k2 / size && k2 / size < size)
            by (nonlinear_arith)
            requires
                0 <= k1 < size * size,
                0 <= k2 < size * size,
                1 <= size,
                k1 == size * (k1 / size) + k1 % size,
                0 <= k1 % size < size,
                k2 == size * (k2 / size) + k2 % size,
                0 <= k2 % size < size,
        ;
        assert(points[k1]@ == square_point(grid_x, grid_y, size, k1));
        assert(points[k2]@ == square_point(grid_x, grid_y, size, k2));
        if points[k1]@ == points[k2]@ {
            assert(grid_x * size + k1 / size == grid_x * size + k2 / size);
            assert(grid_y * size + k1 % size == grid_y * size + k2 % size);
            assert(k1 == k2);
        }
    }
}

/// Whether some entry of `points` is the pixel `[px, py]`.
pub open spec fn has_point(points: Seq<[u32; 2]>, px: int, py: int) -> bool {
    exists|k: int| 0 <= k < points.len() && (#[trigger] points[k])@[0] == px && points[k]@[1] == py
}

/// The pixel list of an inscribed circle: every entry lies in the cell's
/// block and within the circle, and every block pixel within the circle
/// is listed. The circle's center is the block's center (rounded down),
/// and membership is decided by squared distance.
pub open spec fn circle_points_ok(
    points: Seq<[u32; 2]>,
    grid_x: int,
    grid_y: int,
    size: int,
    radius: int,
) -> bool {
    let sx = grid_x * size;
    let sy = grid_y * size;
    let cx = sx + size / 2;
    let cy = sy + size / 2;
    &&& forall|k: int|
        0 <= k < points.len() ==> sx <= (#[trigger] points[k])@[0] < sx + size && sy
            <= points[k]@[1] < sy + size && in_circle(
            points[k]@[0] as int,
            points[k]@[1] as int,
            cx,
            cy,
            radius,
        )
    &&& forall|px: int, py: int|
        sx <= px < sx + size && sy <= py < sy + size && #[trigger] in_circle(px, py, cx, cy, radius)
            ==> has_point(points, px, py)
    &&& forall|k1: int, k2: int|
        0 <= k1 < k2 < points.len() ==> point_lex_lt(#[trigger] points[k1], #[trigger] points[k2])
}

/// Column-major order on pixels: `a` comes strictly before `b`.
pub open spec fn point_lex_lt(a: [u32; 2], b: [u32; 2]) -> bool {
    a@[0] < b@[0] || (a@[0] == b@[0] && a@[1] < b@[1])
}

/// Squared-distance test: a point lies in a circle when its squared
/// distance from the center is at most the squared radius.
pub open spec fn in_circle(px: int, py: int, cx: int, cy: int, radius: int) -> bool {
    (px - cx) * (px - cx) + (py - cy) * (py - cy) <= radius * radius
}

/// An inscribed circle's pixel list is never empty: the block's center
/// pixel always lies within the circle, whatever the radius.
pub proof fn lemma_circle_points_nonempty(
    points: Seq<[u32; 2]>,
    grid_x: int,
    grid_y: int,
    size: int,
    radius: int,
)
    requires
        0 <= grid_x,
        0 <= grid_y,
        1 <= size,
        0 <= radius,
        circle_points_ok(points, grid_x, grid_y, size, radius),
    ensures
        points.len() >= 1,
{
    let sx = grid_x * size;
    let sy = grid_y * size;
    let cx = sx + size / 2;
    let cy = sy + size / 2;
    assert(0 <= radius * radius) by (nonlinear_arith)
        requires
            0 <= radius,
    ;
    assert(in_circle(cx, cy, cx, cy, radius));
    assert(has_point(points, cx, cy));
}

/// Whether a point within a circle's bounding block is lit, decided over
/// squared distances so no rounding is involved.
pub fn point_in_circle(px: i32, py: i32, cx: i32, cy: i32, radius: i32) -> (r: bool)
    requires
        -0x4000 <= px - cx <= 0x4000,
        -0x4000 <= py - cy <= 0x4000,
        0 <= radius <= 0x4000,
    ensures
        r == in_circle(px as int, py as int, cx as int, cy as int, radius as int),
{
    let dx = px - cx;
    let dy = py - cy;
    proof {
        assert(dx * dx <= 0x1000_0000 && dx * dx >= 0) by (nonlinear_arith)
            requires
                -0x4000 <= dx <= 0x4000,
        ;
        assert(dy * dy <= 0x1000_0000 && dy * dy >= 0) by (nonlinear_arith)
            requires
                -0x4000 <= dy <= 0x4000,
        ;
        assert(radius * radius <= 0x1000_0000) by (nonlinear_arith)
            requires
                0 <= radius <= 0x4000,
        ;
    }
    (dx * dx + dy * dy) <= (radius * radius)
}

/// A grid cell to be drawn as a full square block, together with its
/// resolved pixel list.
#[derive(Clone, Debug)]
pub struct Square {
    pub grid_x: u32,
    pub grid_y: u32,
    pub points: Vec<[u32; 2]>,
}

impl Square {
    pub fn new(grid_x: u32, grid_y: u32) -> (r: Square)
        ensures
            r.grid_x == grid_x,
            r.grid_y == grid_y,
            r.points@.len() == 0,
    {
        Square { grid_x, grid_y, points: Vec::new() }
    }

    /// Resolves the square's pixel list against `grid`.
    pub fn on_grid(self, grid: &Grid) -> (r: Square)
        requires
            ((self.grid_x + 1) as int) * (grid.size as int) <= u32::MAX,
            ((self.grid_y + 1) as int) * (grid.size as int) <= u32::MAX,
        ensures
            r.grid_x == self.grid_x,
            r.grid_y == self.grid_y,
            square_points_ok(r.points@, self.grid_x as int, self.grid_y as int, grid.size as int),
    {
        let points = grid.get_square_points_at_grid(self.grid_x, self.grid_y);
        Square { grid_x: self.grid_x, grid_y: self.grid_y, points }
    }
}

/// A grid cell to be drawn as an inscribed circle, together with its
/// resolved pixel list.
#[derive(Clone, Debug)]
pub struct Circle {
    pub grid_x: u32,
    pub grid_y: u32,
    pub points: Vec<[u32; 2]>,
}

impl Circle {
    pub fn new(grid_x: u32, grid_y: u32) -> (r: Circle)
        ensures
            r.grid_x == grid_x,
            r.grid_y == grid_y,
            r.points@.len() == 0,
    {
        Circle { grid_x, grid_y, points: Vec::new() }
    }

    /// Resolves the circle's pixel list against `grid`, with the radius
    /// fixed to half a cell so the circle is inscribed in its cell.
    pub fn on_grid(self, grid: &Grid) -> (r: Circle)
        requires
            grid.wf(),
            ((self.grid_x + 1) as int) * (grid.size as int) <= MAX_WINDOW_DIM,
            ((self.grid_y + 1) as int) * (grid.size as int) <= MAX_WINDOW_DIM,
        ensures
            r.grid_x == self.grid_x,
            r.grid_y == self.grid_y,
            circle_points_ok(
                r.points@,
                self.grid_x as int,
                self.grid_y as int,
                grid.size as int,
                (grid.size / 2) as int,
            ),
    {
        let points = grid.get_circle_points_at_grid(self.grid_x, self.grid_y, grid.size / 2);
        Circle { grid_x: self.grid_x, grid_y: self.grid_y, points }
    }
}

/// The adjacent cell in direction `dir` from head `(hx, hy)` on a
/// `cols x rows` grid, with toroidal wraparound at every edge.
pub open spec fn next_head(dir: Direction, hx: u32, hy: u32, cols: u32, rows: u32) -> (u32, u32) {
    match dir {
        Direction::Up => (hx, (if hy == 0 { rows as int - 1 } else { hy as int - 1 }) as u32),
        Direction::Down => (
            hx,
            (if hy as int + 1 >= rows as int {
                0int
            } else {
                hy as int + 1
            }) as u32,
        ),
        Direction::Left => ((if hx == 0 { cols as int - 1 } else { hx as int - 1 }) as u32, hy),
        Direction::Right => (
            (if hx as int + 1 >= cols as int {
                0int
            } else {
                hx as int + 1
            }) as u32,
            hy,
        ),
    }
}

/// The tick rate that belongs to a score: a base rate of 8 steps per
/// second, raised by 2 for every 5 points scored.
pub open spec fn tick_rate(score: u32) -> u32 {
    (8 + 2 * (score as int / 5)) as u32
}

/// The whole simulation state: the grid, the snake's body (head first),
/// the apple cell, the score, the movement direction, and the tick rate
/// in simulation steps per second.
#[derive(Clone, Debug)]
pub struct GameWorld {
    pub grid: Grid,
    pub snake_body: Vec<[u32; 2]>,
    pub apple: [u32; 2],
    pub score: u32,
    pub direction: Direction,
    pub snake_fps: u32,
}

impl GameWorld {
    /// The simulation only makes sense on a grid of at least one cell,
    /// with a nonempty snake whose head can still be stepped.
    pub open spec fn wf_sim(self) -> bool {
        &&& self.grid.wf()
        &&& self.grid.grid_width >= 1
        &&& self.grid.grid_height >= 1
        &&& self.snake_body@.len() >= 1
        &&& self.snake_body@[0]@[0] < u32::MAX
        &&& self.snake_body@[0]@[1] < u32::MAX
    }

    /// The cell the head would move to this tick.
    pub open spec fn next_head_of(self) -> (u32, u32) {
        next_head(
            self.direction,
            self.snake_body@[0]@[0],
            self.snake_body@[0]@[1],
            self.grid.grid_width,
            self.grid.grid_height,
        )
    }

    /// Whether the head currently sits on the apple.
    pub open spec fn head_on_apple(self) -> bool {
        self.snake_body@[0]@[0] == self.apple@[0] && self.snake_body@[0]@[1] == self.apple@[1]
    }

    pub fn new(width: u32, height: u32, size: u32) -> (r: GameWorld)
        requires
            1 <= size <= MAX_CELL_SIZE,
            size <= width <= MAX_WINDOW_DIM,
            size <= height <= MAX_WINDOW_DIM,
        ensures
            r.grid.width == width,
            r.grid.height == height,
            r.grid.size == size,
            r.grid.grid_width == width / size,
            r.grid.grid_height == height / size,
            r.direction is Down,
            r.apple@[0] == (width / size) / 2,
            r.apple@[1] == (height / size) / 2,
            r.score == 0,
            r.snake_fps == tick_rate(0),
            r.snake_body@.len() == 2,
            r.snake_body@[0]@ == seq![0u32, 0u32],
            r.snake_body@[1]@ == seq![0u32, 1u32],
            r.wf_sim(),
    {
        let grid = Grid::new(width, height, size);
        let r = GameWorld {
            grid,
            direction: Direction::Down,
            apple: [grid.grid_width / 2, grid.grid_height / 2],
            score: 0,
            snake_body: vec![[0u32, 0u32], [0u32, 1u32]],
            snake_fps: 8,
        };
        proof {
            assert(r.snake_body@[0]@ =~= seq![0u32, 0u32]);
            assert(r.snake_body@[1]@ =~= seq![0u32, 1u32]);
            vstd::arithmetic::div_mod::lemma_div_non_zero(width as int, size as int);
            vstd::arithmetic::div_mod::lemma_div_non_zero(height as int, size as int);
        }
        r
    }

    pub fn update_score(&mut self)
        requires
            old(self).score < u32::MAX,
        ensures
            final(self).score == old(self).score + 1,
            final(self).grid == old(self).grid,
            final(self).snake_body == old(self).snake_body,
            final(self).apple == old(self).apple,
            final(self).direction == old(self).direction,
            final(self).snake_fps == old(self).snake_fps,
    {
        self.score = self.score + 1;
    }

    /// Overwrites the movement direction unconditionally; there is no
    /// reversal guard.
    pub fn change_direction(&mut self, direction: Direction)
        ensures
            final(self).direction == direction,
            final(self).grid == old(self).grid,
            final(self).snake_body == old(self).snake_body,
            final(self).apple == old(self).apple,
            final(self).score == old(self).score,
            final(self).snake_fps == old(self).snake_fps,
    {
        self.direction = direction;
    }

    /// The cell adjacent to the head in the current direction, wrapping
    /// around every grid edge.
    pub fn get_next(&mut self) -> (r: [u32; 2])
        requires
            old(self).wf_sim(),
        ensures
            *final(self) == *old(self),
            r@[0] == old(self).next_head_of().0,
            r@[1] == old(self).next_head_of().1,
    {
        let max_x = self.grid.grid_width;
        let max_y = self.grid.grid_height;

        match self.direction {
            Direction::Up => {
                let last = &self.snake_body[0];
                [last[0], if last[1] == 0 { max_y - 1 } else { last[1] - 1 }]
            },
            Direction::Left => {
                let last = &self.snake_body[0];
                [if last[0] == 0 { max_x - 1 } else { last[0] - 1 }, last[1]]
            },
            Direction::Down => {
                let last = &self.snake_body[0];
                [last[0], if last[1] + 1 >= max_y { 0 } else { last[1] + 1 }]
            },
            Direction::Right => {
                let last = &self.snake_body[0];
                [if last[0] + 1 >= max_x { 0 } else { last[0] + 1 }, last[1]]
            },
        }
    }

    /// One plain movement tick: the next head cell is pushed in front and
    /// the tail cell removed, so the body keeps its length.
    pub fn move_snake(&mut self)
        requires
            old(self).wf_sim(),
        ensures
            final(self).grid == old(self).grid,
            final(self).direction == old(self).direction,
            final(self).score == old(self).score,
            final(self).apple == old(self).apple,
            final(self).snake_fps == old(self).snake_fps,
            final(self).snake_body@.len() == old(self).snake_body@.len(),
            final(self).snake_body@[0]@[0] == old(self).next_head_of().0,
            final(self).snake_body@[0]@[1] == old(self).next_head_of().1,
            forall|k: int|
                1 <= k < final(self).snake_body@.len() ==> final(self).snake_body@[k]
                    == old(self).snake_body@[k - 1],
            final(self).wf_sim(),
    {
        let next = self.get_next();
        self.snake_body.insert(0, next);
        self.snake_body.pop();
    }

    /// The apple check of a tick: when the head sits on the apple, the
    /// score goes up by one, the tick rate is recomputed from the score,
    /// the next head cell is pushed in front without removing the tail,
    /// and the apple moves to a pseudo-random cell of the grid (possibly
    /// on the snake's body).
    pub fn check_for_apple(&mut self)
        requires
            old(self).wf_sim(),
            old(self).score < u32::MAX,
        ensures
            final(self).grid == old(self).grid,
            final(self).direction == old(self).direction,
            !old(self).head_on_apple() ==> *final(self) == *old(self),
            old(self).head_on_apple() ==> {
                &&& final(self).score == old(self).score + 1
                &&& final(self).snake_fps == tick_rate(final(self).score)
                &&& final(self).snake_body@.len() == old(self).snake_body@.len() + 1
                &&& final(self).snake_body@[0]@[0] == old(self).next_head_of().0
                &&& final(self).snake_body@[0]@[1] == old(self).next_head_of().1
                &&& forall|k: int|
                    1 <= k < final(self).snake_body@.len() ==> final(self).snake_body@[k]
                        == old(self).snake_body@[k - 1]
                &&& final(self).apple@[0] < old(self).grid.grid_width
                &&& final(self).apple@[1] < old(self).grid.grid_height
            },
            final(self).wf_sim(),
    {
        if self.snake_body[0][0] == self.apple[0] && self.snake_body[0][1] == self.apple[1] {
            self.update_score();
            proof {
                assert(self.score as int / 5 <= u32::MAX as int / 5) by (nonlinear_arith)
                    requires
                        self.score <= u32::MAX,
                ;
            }
            self.snake_fps = 8 + 2 * (self.score / 5);
            let next = self.get_next();
            self.snake_body.insert(0, next);
            self.apple = [
                crate::game::random(self.grid.grid_width),
                crate::game::random(self.grid.grid_height),
            ];
        }
    }

    /// One full simulation step: the apple check, then the movement tick.
    /// On an eat tick the head advances twice while only one net cell is
    /// gained; on a plain tick the body slides one cell.
    pub fn step(&mut self)
        requires
            old(self).wf_sim(),
            old(self).score < u32::MAX,
        ensures
            final(self).grid == old(self).grid,
            final(self).direction == old(self).direction,
            final(self).wf_sim(),
            !old(self).head_on_apple() ==> {
                &&& final(self).score == old(self).score
                &&& final(self).snake_fps == old(self).snake_fps
                &&& final(self).apple == old(self).apple
                &&& final(self).snake_body@.len() == old(self).snake_body@.len()
                &&& final(self).snake_body@[0]@[0] == old(self).next_head_of().0
                &&& final(self).snake_body@[0]@[1] == old(self).next_head_of().1
                &&& forall|k: int|
                    1 <= k < final(self).snake_body@.len() ==> final(self).snake_body@[k]
                        == old(self).snake_body@[k - 1]
            },
            old(self).head_on_apple() ==> {
                &&& final(self).score == old(self).score + 1
                &&& final(self).snake_fps == tick_rate(final(self).score)
                &&& final(self).snake_body@.len() == old(self).snake_body@.len() + 1
                &&& final(self).snake_body@[0]@[0] == next_head(
                    old(self).direction,
                    old(self).next_head_of().0,
                    old(self).next_head_of().1,
                    old(self).grid.grid_width,
                    old(self).grid.grid_height,
                ).0
                &&& final(self).snake_body@[0]@[1] == next_head(
                    old(self).direction,
                    old(self).next_head_of().0,
                    old(self).next_head_of().1,
                    old(self).grid.grid_width,
                    old(self).grid.grid_height,
                ).1
                &&& final(self).snake_body@[1]@[0] == old(self).next_head_of().0
                &&& final(self).snake_body@[1]@[1] == old(self).next_head_of().1
                &&& forall|k: int|
                    2 <= k < final(self).snake_body@.len() ==> final(self).snake_body@[k]
                        == old(self).snake_body@[k - 2]
                &&& final(self).apple@[0] < old(self).grid.grid_width
                &&& final(self).apple@[1] < old(self).grid.grid_height
            },
    {
        self.check_for_apple();
        self.move_snake();
    }

    /// Builds the square shape for a cell, resolved against this world's
    /// grid.
    pub fn add_square(&mut self, x: u32, y: u32) -> (r: Square)
        requires
            ((x + 1) as int) * (old(self).grid.size as int) <= u32::MAX,
            ((y + 1) as int) * (old(self).grid.size as int) <= u32::MAX,
        ensures
            *final(self) == *old(self),
            r.grid_x == x,
            r.grid_y == y,
            square_points_ok(r.points@, x as int, y as int, old(self).grid.size as int),
    {
        Square::new(x, y).on_grid(&self.grid)
    }

    /// Builds the circle shape for a cell, resolved against this world's
    /// grid.
    pub fn add_circle(&mut self, x: u32, y: u32) -> (r: Circle)
        requires
            old(self).grid.wf(),
            ((x + 1) as int) * (old(self).grid.size as int) <= MAX_WINDOW_DIM,
            ((y + 1) as int) * (old(self).grid.size as int) <= MAX_WINDOW_DIM,
        ensures
            *final(self) == *old(self),
            r.grid_x == x,
            r.grid_y == y,
            circle_points_ok(
                r.points@,
                x as int,
                y as int,
                old(self).grid.size as int,
                (old(self).grid.size / 2) as int,
            ),
    {
        Circle::new(x, y).on_grid(&self.grid)
    }
}

} // verus!
