//! The tile grid: terrain state of every cell, stored column by column.

use vstd::prelude::*;
use crate::color::{Color, light_ground, dark_ground, light_wall, dark_wall, blue, dark_blue};

verus! {

/// Terrain state of one cell.
#[derive(Clone, Copy, Debug, PartialEq, Eq, Structural)]
pub struct Tile {
    pub blocked: bool,
    pub explored: bool,
    pub block_sight: bool,
    pub glyph: char,
    pub light_color: Color,
    pub dark_color: Color,
}

impl Tile {
    /// A tile with the given fields.
    pub fn new(
        blocked: bool,
        explored: bool,
        block_sight: bool,
        glyph: char,
        light_color: Color,
        dark_color: Color,
    ) -> (t: Tile)
        ensures
            t == (Tile { blocked, explored, block_sight, glyph, light_color, dark_color }),
    {
        Tile { blocked, explored, block_sight, glyph, light_color, dark_color }
    }

    /// Open ground drawn as a dot.
    #[verifier::allow_in_spec]
    pub fn empty() -> Tile
        returns
            (Tile {
                blocked: false,
                explored: false,
                block_sight: false,
                glyph: '.',
                light_color: light_ground(),
                dark_color: dark_ground(),
            }),
    {
        Tile {
            blocked: false,
            explored: false,
            block_sight: false,
            glyph: '.',
            light_color: light_ground(),
            dark_color: dark_ground(),
        }
    }

    /// Open ground drawn as `glyph`.
    #[verifier::allow_in_spec]
    pub fn floor(glyph: char) -> Tile
        returns
            (Tile {
                blocked: false,
                explored: false,
                block_sight: false,
                glyph: glyph,
                light_color: light_ground(),
                dark_color: dark_ground(),
            }),
    {
        Tile {
            blocked: false,
            explored: false,
            block_sight: false,
            glyph: glyph,
            light_color: light_ground(),
            dark_color: dark_ground(),
        }
    }

    /// Solid rock: blocks movement and sight.
    #[verifier::allow_in_spec]
    pub fn wall() -> Tile
        returns
            (Tile {
                blocked: true,
                explored: false,
                block_sight: true,
                glyph: '#',
                light_color: light_wall(),
                dark_color: dark_wall(),
            }),
    {
        Tile {
            blocked: true,
            explored: false,
            block_sight: true,
            glyph: '#',
            light_color: light_wall(),
            dark_color: dark_wall(),
        }
    }

    /// Shallow water: blocks neither movement nor sight.
    #[verifier::allow_in_spec]
    pub fn water() -> Tile
        returns
            (Tile {
                blocked: false,
                explored: false,
                block_sight: false,
                glyph: '~',
                light_color: blue(),
                dark_color: dark_blue(),
            }),
    {
        Tile {
            blocked: false,
            explored: false,
            block_sight: false,
            glyph: '~',
            light_color: blue(),
            dark_color: dark_blue(),
        }
    }
}

/// A grid as the contracts see it: `grid[x][y]` is the tile in column `x`,
/// row `y`.
pub type GridView = Seq<Seq<Tile>>;

/// Every column of `g` has `height` cells.
pub open spec fn rectangular(g: GridView, height: int) -> bool {
    forall|x: int| 0 <= x < g.len() ==> (#[trigger] g[x]).len() == height
}

/// The cell `(x, y)` lies on `g`.
pub open spec fn on_grid(g: GridView, x: int, y: int) -> bool {
    0 <= x < g.len() && 0 <= y < g[x].len()
}

/// The cell `(x, y)` lies on `g` and its tile can be stepped on.
pub open spec fn open_at(g: GridView, x: int, y: int) -> bool {
    on_grid(g, x, y) && !g[x][y].blocked
}

/// Every cell that can be stepped on in `before` can be stepped on in
/// `after`.
pub open spec fn keeps_open(before: GridView, after: GridView) -> bool {
    forall|x: int, y: int| #[trigger] open_at(before, x, y) ==> open_at(after, x, y)
}

/// Two cells are the same or neighbours, along a side or a corner: one
/// step takes an entity from one to the other.
pub open spec fn near(a: (int, int), b: (int, int)) -> bool {
    a.0 - 1 <= b.0 <= a.0 + 1 && a.1 - 1 <= b.1 <= a.1 + 1
}

/// `path` is a walk on `g`: every cell of it can be stepped on, and each
/// is one step from the cell before it.
pub open spec fn is_walk(g: GridView, path: Seq<(int, int)>) -> bool {
    &&& path.len() > 0
    &&& forall|i: int| 0 <= i < path.len() ==> open_at(g, (#[trigger] path[i]).0, path[i].1)
    &&& forall|i: int| 0 <= i < path.len() - 1 ==> near(#[trigger] path[i], path[i + 1])
}

/// A walk on `g` leads from `a` to `b`.
pub open spec fn joined_by_walk(g: GridView, a: (int, int), b: (int, int)) -> bool {
    exists|path: Seq<(int, int)>| #[trigger] is_walk(g, path) && path[0] == a && path.last() == b
}

/// A walk stays a walk when no cell is closed.
pub proof fn lemma_walk_stays(before: GridView, after: GridView, a: (int, int), b: (int, int))
    requires
        keeps_open(before, after),
        joined_by_walk(before, a, b),
    ensures
        joined_by_walk(after, a, b),
{
    let path = choose|path: Seq<(int, int)>| #[trigger]
        is_walk(before, path) && path[0] == a && path.last() == b;
    assert forall|i: int| 0 <= i < path.len() implies open_at(
        after,
        (#[trigger] path[i]).0,
        path[i].1,
    ) by {
        assert(open_at(before, path[i].0, path[i].1));
    }
    assert(is_walk(after, path));
}

/// A walk from `a` to `b` and one from `b` to `c` make one from `a` to
/// `c`.
pub proof fn lemma_walks_join(g: GridView, a: (int, int), b: (int, int), c: (int, int))
    requires
        joined_by_walk(g, a, b),
        joined_by_walk(g, b, c),
    ensures
        joined_by_walk(g, a, c),
{
    let p = choose|path: Seq<(int, int)>| #[trigger] is_walk(g, path) && path[0] == a && path.last() == b;
    let q = choose|path: Seq<(int, int)>| #[trigger] is_walk(g, path) && path[0] == b && path.last() == c;
    let r = p + q;
    assert forall|i: int| 0 <= i < r.len() implies open_at(g, (#[trigger] r[i]).0, r[i].1) by {
        if i < p.len() {
            assert(r[i] == p[i]);
        } else {
            assert(r[i] == q[i - p.len()]);
        }
    }
    assert forall|i: int| 0 <= i < r.len() - 1 implies near(#[trigger] r[i], r[i + 1]) by {
        if i < p.len() - 1 {
            assert(r[i] == p[i] && r[i + 1] == p[i + 1]);
        } else if i == p.len() - 1 {
            assert(r[i] == p[i] && r[i + 1] == q[0]);
        } else {
            assert(r[i] == q[i - p.len()] && r[i + 1] == q[i - p.len() + 1]);
        }
    }
    assert(is_walk(g, r));
    assert(r[0] == a && r.last() == c);
}

/// Painting with a tile that does not block closes no cell, and opens
/// every cell of the grid that the mask selects.
pub proof fn lemma_painted_open(g: GridView, mask: spec_fn(int, int) -> bool, t: Tile)
    requires
        !t.blocked,
    ensures
        keeps_open(g, painted(g, mask, t)),
        forall|x: int, y: int| on_grid(g, x, y) && mask(x, y) ==> #[trigger] open_at(painted(g, mask, t), x, y),
{
}

/// `g` with the tile `t` on every cell that `mask` selects.
pub open spec fn painted(g: GridView, mask: spec_fn(int, int) -> bool, t: Tile) -> GridView {
    Seq::new(
        g.len(),
        |x: int| Seq::new(g[x].len(), |y: int| if mask(x, y) { t } else { g[x][y] }),
    )
}

/// The grid of `width` columns and `height` rows that is all rock.
pub open spec fn solid(width: int, height: int) -> GridView {
    Seq::new(width as nat, |x: int| Seq::new(height as nat, |y: int| Tile::wall()))
}

/// The outline of what a painting covers inside its bounding box.
#[derive(Clone, Copy, Debug, PartialEq, Eq, Structural)]
pub enum Shape {
    /// The whole box.
    Block,
    /// Two opposite quarters around a pillar: the cells left of `col_x1`
    /// and above `col_y2`, and the cells right of `col_x2` and below
    /// `col_y2`.
    Pillar { col_x1: i32, col_y2: i32, col_x2: i32 },
    /// The cells whose squared distance from the origin of the grid is
    /// less than half the squared radius.
    Disc { radius: i32 },
}

impl Shape {
    /// Whether the shape covers the cell `(x, y)`.
    pub open spec fn covers(self, x: int, y: int) -> bool {
        match self {
            Shape::Block => true,
            Shape::Pillar { col_x1, col_y2, col_x2 } => (x < col_x1 && y < col_y2) || (y > col_y2
                && x > col_x2),
            Shape::Disc { radius } => x * x + y * y < (radius * radius) / 2,
        }
    }

    /// Whether the shape covers the cell `(x, y)`.
    pub fn contains(&self, x: i32, y: i32) -> (r: bool)
        ensures
            r == self.covers(x as int, y as int),
    {
        match self {
            Shape::Block => true,
            Shape::Pillar { col_x1, col_y2, col_x2 } => (x < *col_x1 && y < *col_y2) || (y
                > *col_y2 && x > *col_x2),
            Shape::Disc { radius } => {
                let r: i128 = *radius as i128;
                let xx: i128 = x as i128;
                let yy: i128 = y as i128;
                assert(0 <= r * r <= 0x1_0000_0000 * 0x1_0000_0000) by (nonlinear_arith)
                    requires
                        -0x1_0000_0000 <= r <= 0x1_0000_0000,
                ;
                assert(0 <= xx * xx <= 0x1_0000_0000 * 0x1_0000_0000) by (nonlinear_arith)
                    requires
                        -0x1_0000_0000 <= xx <= 0x1_0000_0000,
                ;
                assert(0 <= yy * yy <= 0x1_0000_0000 * 0x1_0000_0000) by (nonlinear_arith)
                    requires
                        -0x1_0000_0000 <= yy <= 0x1_0000_0000,
                ;
                xx * xx + yy * yy < (r * r) / 2
            },
        }
    }
}

/// The cells of the box `x_lo..x_hi` by `y_lo..y_hi` that `shape` covers.
pub open spec fn region(x_lo: int, x_hi: int, y_lo: int, y_hi: int, shape: Shape) -> spec_fn(
    int,
    int,
) -> bool {
    |x: int, y: int| x_lo <= x < x_hi && y_lo <= y < y_hi && shape.covers(x, y)
}

/// A rectangular grid of tiles.
#[derive(Debug)]
pub struct TileGrid {
    tiles: Vec<Vec<Tile>>,
    height: usize,
}

impl View for TileGrid {
    type V = GridView;

    closed spec fn view(&self) -> GridView {
        Seq::new(self.tiles@.len(), |x: int| self.tiles@[x]@)
    }
}

impl TileGrid {
    /// Number of rows.
    pub closed spec fn rows(&self) -> int {
        self.height as int
    }

    /// Number of columns.
    pub open spec fn cols(&self) -> int {
        self@.len() as int
    }

    /// All columns have `rows()` cells, and both dimensions fit a coordinate.
    pub open spec fn wf(&self) -> bool {
        &&& rectangular(self@, self.rows())
        &&& self.cols() <= i32::MAX
        &&& 0 <= self.rows() <= i32::MAX
    }

    /// The cell `(x, y)` lies on the grid.
    pub open spec fn in_bounds(&self, x: int, y: int) -> bool {
        on_grid(self@, x, y)
    }

    /// The tile at `(x, y)`.
    pub open spec fn at(&self, x: int, y: int) -> Tile {
        self@[x][y]
    }

    /// A grid of `width` by `height` cells that is all rock.
    pub fn new(width: i32, height: i32) -> (g: TileGrid)
        requires
            0 <= width,
            0 <= height,
        ensures
            g.wf(),
            g.cols() == width,
            g.rows() == height,
            g@ == solid(width as int, height as int),
    {
        let mut tiles: Vec<Vec<Tile>> = Vec::new();
        let mut x: i32 = 0;
        while x < width
            invariant
                0 <= x <= width,
                0 <= height,
                tiles@.len() == x,
                forall|i: int| 0 <= i < x ==> (#[trigger] tiles@[i])@ == Seq::new(
                    height as nat,
                    |y: int| Tile::wall(),
                ),
            decreases width - x,
        {
            let mut column: Vec<Tile> = Vec::new();
            let mut y: i32 = 0;
            while y < height
                invariant
                    0 <= y <= height,
                    column@.len() == y,
                    forall|j: int| 0 <= j < y ==> #[trigger] column@[j] == Tile::wall(),
                decreases height - y,
            {
                column.push(Tile::wall());
                y = y + 1;
            }
            assert(column@ =~= Seq::new(height as nat, |y: int| Tile::wall()));
            tiles.push(column);
            x = x + 1;
        }
        let g = TileGrid { tiles, height: height as usize };
        assert(g@ =~= solid(width as int, height as int));
        g
    }

    /// Number of columns.
    pub fn width(&self) -> (w: i32)
        requires
            self.wf(),
        ensures
            w == self.cols(),
    {
        self.tiles.len() as i32
    }

    /// Number of rows.
    pub fn height(&self) -> (h: i32)
        requires
            self.wf(),
        ensures
            h == self.rows(),
    {
        self.height as i32
    }

    /// Whether `(x, y)` lies on the grid.
    pub fn contains(&self, x: i32, y: i32) -> (r: bool)
        requires
            self.wf(),
        ensures
            r == self.in_bounds(x as int, y as int),
    {
        0 <= x && (x as usize) < self.tiles.len() && 0 <= y && (y as usize) < self.height
    }

    /// The tile at `(x, y)`.
    pub fn get(&self, x: i32, y: i32) -> (t: Tile)
        requires
            self.wf(),
            self.in_bounds(x as int, y as int),
        ensures
            t == self.at(x as int, y as int),
    {
        assert(self@[x as int].len() == self.rows());
        self.tiles[x as usize][y as usize]
    }

    /// Replaces the tile at `(x, y)`.
    pub fn set(&mut self, x: i32, y: i32, t: Tile)
        requires
            old(self).wf(),
            old(self).in_bounds(x as int, y as int),
        ensures
            final(self).wf(),
            final(self).rows() == old(self).rows(),
            final(self).cols() == old(self).cols(),
            final(self)@ == old(self)@.update(x as int, old(self)@[x as int].update(y as int, t)),
    {
        assert(self@[x as int].len() == self.rows());
        self.tiles[x as usize][y as usize] = t;
        assert(self@ =~= old(self)@.update(x as int, old(self)@[x as int].update(y as int, t)));
        assert(rectangular(self@, self.rows())) by {
            assert forall|i: int| 0 <= i < self@.len() implies (#[trigger] self@[i]).len()
                == self.rows() by {
                assert(old(self)@[i].len() == self.rows());
            }
        }
    }
}

impl TileGrid {
    /// Puts the tile `t` on every cell of the box `x_lo..x_hi` by
    /// `y_lo..y_hi` that `shape` covers. The part of the box that lies off
    /// the grid is skipped.
    pub fn paint(&mut self, x_lo: i64, x_hi: i64, y_lo: i64, y_hi: i64, shape: Shape, t: Tile)
        requires
            old(self).wf(),
        ensures
            final(self).wf(),
            final(self).rows() == old(self).rows(),
            final(self).cols() == old(self).cols(),
            final(self)@ == painted(
                old(self)@,
                region(x_lo as int, x_hi as int, y_lo as int, y_hi as int, shape),
                t,
            ),
    {
        let width: i64 = self.width() as i64;
        let height: i64 = self.height() as i64;
        let x_from: i64 = if x_lo < 0 { 0 } else { x_lo };
        let x_to: i64 = if x_hi > width { width } else { x_hi };
        let y_from: i64 = if y_lo < 0 { 0 } else { y_lo };
        let y_to: i64 = if y_hi > height { height } else { y_hi };
        let ghost mask = region(x_lo as int, x_hi as int, y_lo as int, y_hi as int, shape);
        let mut x: i64 = x_from;
        while x < x_to
            invariant
                self.wf(),
                self.rows() == old(self).rows() == height,
                self.cols() == old(self).cols() == width,
                old(self).wf(),
                0 <= x_from <= x,
                x <= x_to || x == x_from,
                x_to <= width,
                x_from == (if x_lo < 0 { 0 } else { x_lo }),
                x_to == (if x_hi > width { width } else { x_hi }),
                y_from == (if y_lo < 0 { 0 } else { y_lo }),
                y_to == (if y_hi > height { height } else { y_hi }),
                mask == region(x_lo as int, x_hi as int, y_lo as int, y_hi as int, shape),
                forall|i: int, j: int|
                    0 <= i < width && 0 <= j < height ==> #[trigger] self@[i][j] == (if i < x
                        && mask(i, j) {
                        t
                    } else {
                        old(self)@[i][j]
                    }),
            decreases x_to - x,
        {
            let mut y: i64 = y_from;
            while y < y_to
                invariant
                    self.wf(),
                    self.rows() == old(self).rows() == height,
                    self.cols() == old(self).cols() == width,
                    old(self).wf(),
                    0 <= x < x_to <= width,
                    0 <= y_from <= y,
                    y <= y_to || y == y_from,
                    y_to <= height,
                    x_lo <= x < x_hi,
                    y_from == (if y_lo < 0 { 0 } else { y_lo }),
                    y_to == (if y_hi > height { height } else { y_hi }),
                    mask == region(x_lo as int, x_hi as int, y_lo as int, y_hi as int, shape),
                    forall|i: int, j: int|
                        0 <= i < width && 0 <= j < height ==> #[trigger] self@[i][j] == (if (i < x
                            || (i == x && j < y)) && mask(i, j) {
                            t
                        } else {
                            old(self)@[i][j]
                        }),
                decreases y_to - y,
            {
                if shape.contains(x as i32, y as i32) {
                    self.set(x as i32, y as i32, t);
                }
                y = y + 1;
            }
            x = x + 1;
        }
        assert(self@ =~~= painted(old(self)@, mask, t)) by {
            assert forall|i: int| 0 <= i < width implies #[trigger] self@[i] =~= painted(
                old(self)@,
                mask,
                t,
            )[i] by {
                assert(self@[i].len() == height);
                assert(old(self)@[i].len() == height);
                assert forall|j: int| 0 <= j < height implies self@[i][j] == painted(
                    old(self)@,
                    mask,
                    t,
                )[i][j] by {
                    assert(self@[i][j] == (if i < x && mask(i, j) { t } else { old(self)@[i][j] }));
                }
            }
        }
    }
}

/// `g` with the explored flag of every tile flipped.
pub open spec fn flipped(g: GridView) -> GridView {
    Seq::new(
        g.len(),
        |x: int| Seq::new(g[x].len(), |y: int| Tile { explored: !g[x][y].explored, ..g[x][y] }),
    )
}

impl TileGrid {
    /// Flips the explored flag of every tile: a debugging aid that shows
    /// or hides the whole map.
    pub fn toggle_explored(&mut self)
        requires
            old(self).wf(),
        ensures
            final(self)@ == flipped(old(self)@),
            final(self).wf(),
            final(self).rows() == old(self).rows(),
            final(self).cols() == old(self).cols(),
    {
        let width: i32 = self.width();
        let height: i32 = self.height();
        let mut x: i32 = 0;
        while x < width
            invariant
                self.wf(),
                old(self).wf(),
                self.rows() == old(self).rows() == height,
                self.cols() == old(self).cols() == width,
                0 <= x <= width,
                forall|i: int, j: int|
                    0 <= i < width && 0 <= j < height ==> #[trigger] self@[i][j] == (if i < x {
                        Tile { explored: !old(self)@[i][j].explored, ..old(self)@[i][j] }
                    } else {
                        old(self)@[i][j]
                    }),
            decreases width - x,
        {
            let mut y: i32 = 0;
            while y < height
                invariant
                    self.wf(),
                    old(self).wf(),
                    self.rows() == old(self).rows() == height,
                    self.cols() == old(self).cols() == width,
                    0 <= x < width,
                    0 <= y <= height,
                    forall|i: int, j: int|
                        0 <= i < width && 0 <= j < height ==> #[trigger] self@[i][j] == (if i < x
                            || (i == x && j < y) {
                            Tile { explored: !old(self)@[i][j].explored, ..old(self)@[i][j] }
                        } else {
                            old(self)@[i][j]
                        }),
                decreases height - y,
            {
                let tile = self.get(x, y);
                self.set(x, y, Tile { explored: !tile.explored, ..tile });
                y = y + 1;
            }
            x = x + 1;
        }
        assert(self@ =~~= flipped(old(self)@)) by {
            assert forall|i: int| 0 <= i < width implies #[trigger] self@[i] =~= flipped(
                old(self)@,
            )[i] by {
                assert(self@[i].len() == height);
                assert(old(self)@[i].len() == height);
            }
        }
    }
}

} // verus!
