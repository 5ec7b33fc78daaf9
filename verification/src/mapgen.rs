//! The dungeon generator: rooms, tunnels, water and the entities that start
//! in them, all drawn from one seeded generator.

use vstd::prelude::*;
use bresenham::Bresenham;
use crate::dice::Dice;
use crate::color::{green, grey, troll_green, white};
use crate::enums::{Ai, DeathCallback};
use crate::map::{
    is_walk,
    joined_by_walk,
    keeps_open,
    lemma_painted_open,
    lemma_walk_stays,
    lemma_walks_join,
    near,
    on_grid,
    open_at,
    painted,
    region,
    GridView,
    Shape,
    Tile,
    TileGrid,
};
use crate::object::{all_wf, lemma_wf_kept, arena, extends, Fighter, Item, Object, ObjectView};
use crate::rect::{Circle, Rect};
use crate::store::{blocked, is_blocked, PLAYER};

verus! {

/// What the generator is asked to build.
#[derive(Clone, Copy, Debug, PartialEq, Eq, Structural)]
pub struct GenConfig {
    /// Columns of the grid.
    pub width: i32,
    /// Rows of the grid.
    pub height: i32,
    /// How many rooms are tried.
    pub max_rooms: i32,
    /// Smallest and largest side of a room.
    pub room_min_size: i32,
    pub room_max_size: i32,
    /// Most monsters and most items put into one room.
    pub max_room_monsters: i32,
    pub max_room_items: i32,
    /// Whether a room that touches an earlier one is dropped.
    pub reject_overlaps: bool,
    /// Whether rooms are carved around a pillar or as a whole.
    pub pillar_rooms: bool,
}

impl GenConfig {
    /// The smallest side that a room can have: five cells for a room
    /// around a pillar, three for a whole one.
    pub open spec fn least_side(self) -> int {
        if self.pillar_rooms {
            5
        } else {
            3
        }
    }

    /// Rooms are large enough to carve, fit on the grid with a wall to
    /// spare, and every count is small enough to draw.
    pub open spec fn valid(self) -> bool {
        &&& self.least_side() <= self.room_min_size <= self.room_max_size
        &&& self.room_max_size < self.width
        &&& self.room_max_size < self.height
        &&& 1 <= self.max_rooms
        &&& 0 <= self.max_room_monsters < i32::MAX
        &&& 0 <= self.max_room_items < i32::MAX
    }

    /// Whether the configuration is valid.
    pub fn is_valid(&self) -> (r: bool)
        ensures
            r == self.valid(),
    {
        (if self.pillar_rooms { 5 } else { 3 }) <= self.room_min_size && self.room_min_size
            <= self.room_max_size && self.room_max_size
            < self.width && self.room_max_size < self.height && 1 <= self.max_rooms && 0
            <= self.max_room_monsters && self.max_room_monsters < i32::MAX && 0
            <= self.max_room_items && self.max_room_items < i32::MAX
    }

    /// The full-size dungeon: 881 by 501 cells, 138 rooms of 5 to 30 cells
    /// a side that may overlap, up to three monsters and three items each.
    #[verifier::allow_in_spec]
    pub fn standard() -> GenConfig
        returns
            (GenConfig {
                width: 881,
                height: 501,
                max_rooms: 138,
                room_min_size: 5,
                room_max_size: 30,
                max_room_monsters: 3,
                max_room_items: 3,
                reject_overlaps: false,
                pillar_rooms: true,
            }),
    {
        GenConfig {
            width: 881,
            height: 501,
            max_rooms: 138,
            room_min_size: 5,
            room_max_size: 30,
            max_room_monsters: 3,
            max_room_items: 3,
            reject_overlaps: false,
            pillar_rooms: true,
        }
    }
}

/// A room lies on a grid of `width` by `height` cells and is at least
/// three cells wide and high.
pub open spec fn room_in(room: Rect, width: int, height: int) -> bool {
    &&& 0 <= room.x1
    &&& room.x1 + 3 <= room.x2 < width
    &&& 0 <= room.y1
    &&& room.y1 + 3 <= room.y2 < height
}

/// The width and the height of a room are in the range of a coordinate.
pub open spec fn sides_fit(room: Rect) -> bool {
    room.x2 - room.x1 <= i32::MAX && room.y2 - room.y1 <= i32::MAX
}

/// A room is more than `margin` cells wide and high.
pub open spec fn roomy(room: Rect, margin: int) -> bool {
    room.x1 + margin < room.x2 && room.y1 + margin < room.y2
}

/// The larger of `a` and one.
pub open spec fn at_least_one(a: int) -> int {
    if a < 1 {
        1
    } else {
        a
    }
}

/// The shape of a room carved around a pillar, and the generator after the
/// four draws that fix it: a corner of the pillar inside the room, and an
/// offset of the opposite corner along each axis, drawn from what is left
/// to the far wall.
pub open spec fn pillar_of(room: Rect, dice: Dice) -> (Shape, Dice) {
    let x_lo = (room.x1 + 2) as i32;
    let x_hi = (room.x2 - 2) as i32;
    let y_lo = (room.y1 + 2) as i32;
    let y_hi = (room.y2 - 2) as i32;
    let col_x1 = dice.value(x_lo, x_hi);
    let d1 = dice.next(x_lo, x_hi);
    let col_y1 = d1.value(y_lo, y_hi);
    let d2 = d1.next(y_lo, y_hi);
    let span_x = at_least_one(room.x2 - 2 - col_x1) as i32;
    let off_x = d2.value(0, span_x);
    let d3 = d2.next(0, span_x);
    let span_y = at_least_one(room.y2 - 2 - col_y1) as i32;
    let off_y = d3.value(0, span_y);
    let d4 = d3.next(0, span_y);
    (
        Shape::Pillar {
            col_x1,
            col_y2: (col_y1 + off_y) as i32,
            col_x2: (col_x1 + off_x) as i32,
        },
        d4,
    )
}

/// The shape in which a room is carved, and the generator afterwards.
pub open spec fn room_shape(room: Rect, dice: Dice, pillar: bool) -> (Shape, Dice) {
    if pillar {
        pillar_of(room, dice)
    } else {
        (Shape::Block, dice)
    }
}

/// `g` with the interior of `room` carved in `shape`.
pub open spec fn room_carved(g: GridView, room: Rect, shape: Shape) -> GridView {
    painted(g, region(room.x1 + 1, room.x2 as int, room.y1 + 1, room.y2 as int, shape), Tile::floor('.'))
}

/// The pillar of `shape`, if it has one, stands inside `room` with two
/// cells to spare on every side, its second corner not before its first.
pub open spec fn pillar_inside(shape: Shape, room: Rect) -> bool {
    shape matches Shape::Pillar { col_x1, col_y2, col_x2 } ==> room.x1 + 2 <= col_x1 <= col_x2
        < room.x2 - 2 && room.y1 + 2 <= col_y2 < room.y2 - 2
}

/// Draws the shape of `room` and carves its interior into floor.
pub fn carve_room(room: Rect, map: &mut TileGrid, dice: &mut Dice, pillar: bool) -> (shape: Shape)
    requires
        old(map).wf(),
        old(dice).wf(),
        pillar ==> roomy(room, 4) && sides_fit(room),
    ensures
        (shape, *final(dice)) == room_shape(room, *old(dice), pillar),
        final(map)@ == room_carved(old(map)@, room, shape),
        pillar == (shape is Pillar),
        pillar_inside(shape, room),
        keeps_open(old(map)@, final(map)@),
        final(map).wf(),
        final(map).rows() == old(map).rows(),
        final(map).cols() == old(map).cols(),
        final(dice).wf(),
{
    let shape = if pillar {
        let col_x1 = dice.roll(room.x1 + 2, room.x2 - 2);
        let col_y1 = dice.roll(room.y1 + 2, room.y2 - 2);
        let distance_x: i64 = room.x2 as i64 - 2 - col_x1 as i64;
        let distance_y: i64 = room.y2 as i64 - 2 - col_y1 as i64;
        let col_x2 = col_x1 + dice.roll(0, if distance_x < 1 { 1 } else { distance_x as i32 });
        let col_y2 = col_y1 + dice.roll(0, if distance_y < 1 { 1 } else { distance_y as i32 });
        Shape::Pillar { col_x1, col_y2, col_x2 }
    } else {
        Shape::Block
    };
    map.paint(
        room.x1 as i64 + 1,
        room.x2 as i64,
        room.y1 as i64 + 1,
        room.y2 as i64,
        shape,
        Tile::floor('.'),
    );
    proof {
        lemma_painted_open(
            old(map)@,
            region(room.x1 + 1, room.x2 as int, room.y1 + 1, room.y2 as int, shape),
            Tile::floor('.'),
        );
    }
    shape
}

/// The smaller of two coordinates.
pub open spec fn low(a: int, b: int) -> int {
    if a <= b {
        a
    } else {
        b
    }
}

/// The larger of two coordinates.
pub open spec fn high(a: int, b: int) -> int {
    if a <= b {
        b
    } else {
        a
    }
}

/// `g` with a corridor two cells thick dug along row `y` from column `x1`
/// to column `x2`.
pub open spec fn h_tunnel(g: GridView, x1: int, x2: int, y: int) -> GridView {
    painted(g, region(low(x1, x2), high(x1, x2) + 2, y, y + 2, Shape::Block), Tile::empty())
}

/// `g` with a corridor two cells thick dug along column `x` from row `y1`
/// to row `y2`.
pub open spec fn v_tunnel(g: GridView, y1: int, y2: int, x: int) -> GridView {
    painted(g, region(x, x + 2, low(y1, y2), high(y1, y2) + 2, Shape::Block), Tile::empty())
}

/// Every cell of row `y` from column `x1` to column `x2` can be stepped
/// on.
pub open spec fn row_open(g: GridView, x1: int, x2: int, y: int) -> bool {
    forall|x: int| low(x1, x2) <= x <= high(x1, x2) ==> #[trigger] open_at(g, x, y)
}

/// Every cell of column `x` from row `y1` to row `y2` can be stepped on.
pub open spec fn column_open(g: GridView, y1: int, y2: int, x: int) -> bool {
    forall|y: int| low(y1, y2) <= y <= high(y1, y2) ==> #[trigger] open_at(g, x, y)
}

/// A row that can be walked stays so when no cell is closed.
pub proof fn lemma_row_stays_open(before: GridView, after: GridView, x1: int, x2: int, y: int)
    requires
        keeps_open(before, after),
        row_open(before, x1, x2, y),
    ensures
        row_open(after, x1, x2, y),
{
    assert forall|x: int| low(x1, x2) <= x <= high(x1, x2) implies #[trigger] open_at(after, x, y) by {
        assert(open_at(before, x, y));
    }
}

/// A column that can be walked stays so when no cell is closed.
pub proof fn lemma_column_stays_open(before: GridView, after: GridView, y1: int, y2: int, x: int)
    requires
        keeps_open(before, after),
        column_open(before, y1, y2, x),
    ensures
        column_open(after, y1, y2, x),
{
    assert forall|y: int| low(y1, y2) <= y <= high(y1, y2) implies #[trigger] open_at(after, x, y) by {
        assert(open_at(before, x, y));
    }
}

/// What was open before two changes that close nothing is open after
/// both.
pub proof fn lemma_keeps_open_twice(a: GridView, b: GridView, c: GridView)
    requires
        keeps_open(a, b),
        keeps_open(b, c),
    ensures
        keeps_open(a, c),
{
    assert forall|x: int, y: int| #[trigger] open_at(a, x, y) implies open_at(c, x, y) by {
        assert(open_at(b, x, y));
    }
}

/// A row that is open from end to end can be walked from end to end.
pub proof fn lemma_row_walk(g: GridView, x1: int, x2: int, y: int)
    requires
        row_open(g, x1, x2, y),
    ensures
        joined_by_walk(g, (x1, y), (x2, y)),
{
    let n = high(x1, x2) - low(x1, x2);
    let path = Seq::new(
        (n + 1) as nat,
        |i: int|
            if x1 <= x2 {
                (x1 + i, y)
            } else {
                (x1 - i, y)
            },
    );
    assert forall|i: int| 0 <= i < path.len() implies open_at(g, (#[trigger] path[i]).0, path[i].1) by {
        assert(open_at(g, path[i].0, y));
    }
    assert(is_walk(g, path));
    assert(path[0] == (x1, y) && path.last() == (x2, y));
}

/// A column that is open from end to end can be walked from end to end.
pub proof fn lemma_column_walk(g: GridView, y1: int, y2: int, x: int)
    requires
        column_open(g, y1, y2, x),
    ensures
        joined_by_walk(g, (x, y1), (x, y2)),
{
    let n = high(y1, y2) - low(y1, y2);
    let path = Seq::new(
        (n + 1) as nat,
        |i: int|
            if y1 <= y2 {
                (x, y1 + i)
            } else {
                (x, y1 - i)
            },
    );
    assert forall|i: int| 0 <= i < path.len() implies open_at(g, (#[trigger] path[i]).0, path[i].1) by {
        assert(open_at(g, x, path[i].1));
    }
    assert(is_walk(g, path));
    assert(path[0] == (x, y1) && path.last() == (x, y2));
}

/// Digs a horizontal corridor: every cell from `x1` to `x2` in row `y`
/// with its three neighbours to the right and below.
pub fn create_h_tunnel(x1: i32, x2: i32, y: i32, map: &mut TileGrid)
    requires
        old(map).wf(),
    ensures
        final(map)@ == h_tunnel(old(map)@, x1 as int, x2 as int, y as int),
        keeps_open(old(map)@, final(map)@),
        old(map).in_bounds(x1 as int, y as int) && old(map).in_bounds(x2 as int, y as int) ==> row_open(
            final(map)@,
            x1 as int,
            x2 as int,
            y as int,
        ),
        final(map).wf(),
        final(map).rows() == old(map).rows(),
        final(map).cols() == old(map).cols(),
{
    let lo: i64 = if x1 <= x2 { x1 as i64 } else { x2 as i64 };
    let hi: i64 = if x1 <= x2 { x2 as i64 } else { x1 as i64 };
    map.paint(lo, hi + 2, y as i64, y as i64 + 2, Shape::Block, Tile::empty());
    proof {
        let mask = region(lo as int, hi + 2, y as int, y + 2, Shape::Block);
        lemma_painted_open(old(map)@, mask, Tile::empty());
        if old(map).in_bounds(x1 as int, y as int) && old(map).in_bounds(x2 as int, y as int) {
            assert forall|x: int| low(x1 as int, x2 as int) <= x <= high(x1 as int, x2 as int) implies
                #[trigger] open_at(map@, x, y as int) by {
                assert(old(map)@[x].len() == old(map).rows());
                assert(on_grid(old(map)@, x, y as int) && mask(x, y as int));
            }
        }
    }
}

/// Digs a vertical corridor: every cell from `y1` to `y2` in column `x`
/// with its three neighbours to the right and below.
pub fn create_v_tunnel(y1: i32, y2: i32, x: i32, map: &mut TileGrid)
    requires
        old(map).wf(),
    ensures
        final(map)@ == v_tunnel(old(map)@, y1 as int, y2 as int, x as int),
        keeps_open(old(map)@, final(map)@),
        old(map).in_bounds(x as int, y1 as int) && old(map).in_bounds(x as int, y2 as int) ==> column_open(
            final(map)@,
            y1 as int,
            y2 as int,
            x as int,
        ),
        final(map).wf(),
        final(map).rows() == old(map).rows(),
        final(map).cols() == old(map).cols(),
{
    let lo: i64 = if y1 <= y2 { y1 as i64 } else { y2 as i64 };
    let hi: i64 = if y1 <= y2 { y2 as i64 } else { y1 as i64 };
    map.paint(x as i64, x as i64 + 2, lo, hi + 2, Shape::Block, Tile::empty());
    proof {
        let mask = region(x as int, x + 2, lo as int, hi + 2, Shape::Block);
        lemma_painted_open(old(map)@, mask, Tile::empty());
        if old(map).in_bounds(x as int, y1 as int) && old(map).in_bounds(x as int, y2 as int) {
            assert forall|y: int| low(y1 as int, y2 as int) <= y <= high(y1 as int, y2 as int) implies
                #[trigger] open_at(map@, x as int, y) by {
                assert(old(map)@[x as int].len() == old(map).rows());
                assert(on_grid(old(map)@, x as int, y) && mask(x as int, y));
            }
        }
    }
}

/// The points that `bresenham::Bresenham::new((x1, y1), (x2, y2))` yields,
/// in order.
pub uninterp spec fn bresenham_line(x1: i32, y1: i32, x2: i32, y2: i32) -> Seq<(i64, i64)>;

/// Calls `bresenham::Bresenham::new` on the two points and collects what
/// the iterator yields.
///
/// Believed, not proved: the result is `bresenham_line` of the arguments.
/// Nothing is claimed of the points themselves. The coordinates are kept
/// non-negative so that no difference of two of them leaves the range of
/// the iterator's integers.
#[verifier::external_body]
fn line_points(x1: i32, y1: i32, x2: i32, y2: i32) -> (points: Vec<(i64, i64)>)
    requires
        0 <= x1,
        0 <= y1,
        0 <= x2,
        0 <= y2,
    ensures
        points@ == bresenham_line(x1, y1, x2, y2),
{
    Bresenham::new((x1 as isize, y1 as isize), (x2 as isize, y2 as isize))
        .map(|(x, y)| (x as i64, y as i64))
        .collect()
}

/// `g` with a block of two by two cells dug at each of `points`.
pub open spec fn dug_along(g: GridView, points: Seq<(i64, i64)>) -> GridView
    decreases points.len(),
{
    if points.len() == 0 {
        g
    } else {
        let p = points[0];
        dug_along(
            painted(g, region(p.0 as int, p.0 + 2, p.1 as int, p.1 + 2, Shape::Block), Tile::empty()),
            points.skip(1),
        )
    }
}

/// A point as a cell.
pub open spec fn cell(p: (i64, i64)) -> (int, int) {
    (p.0 as int, p.1 as int)
}

/// Each of the first `n` of `points` that lies on `g` can be stepped on.
pub open spec fn points_open(g: GridView, points: Seq<(i64, i64)>, n: int) -> bool {
    forall|i: int|
        0 <= i < n && on_grid(g, cell(#[trigger] points[i]).0, cell(points[i]).1) ==> open_at(
            g,
            cell(points[i]).0,
            cell(points[i]).1,
        )
}

/// Digs a block of two by two cells at each of `points`; what falls off
/// the grid is skipped.
pub fn dig_along(points: &Vec<(i64, i64)>, map: &mut TileGrid)
    requires
        old(map).wf(),
    ensures
        final(map)@ == dug_along(old(map)@, points@),
        keeps_open(old(map)@, final(map)@),
        points_open(final(map)@, points@, points@.len() as int),
        final(map).wf(),
        final(map).rows() == old(map).rows(),
        final(map).cols() == old(map).cols(),
{
    let mut i: usize = 0;
    assert(points@.skip(0) =~= points@);
    while i < points.len()
        invariant
            i <= points@.len(),
            map.wf(),
            map.rows() == old(map).rows(),
            map.cols() == old(map).cols(),
            keeps_open(old(map)@, map@),
            points_open(map@, points@, i as int),
            dug_along(old(map)@, points@) == dug_along(map@, points@.skip(i as int)),
        decreases points@.len() - i,
    {
        let (x, y) = points[i];
        let ghost before = map@;
        let ghost mask = region(x as int, x + 2, y as int, y + 2, Shape::Block);
        if x < i32::MAX as i64 && y < i32::MAX as i64 {
            map.paint(x, x + 2, y, y + 2, Shape::Block, Tile::empty());
        } else {
            assert(map@ =~~= painted(before, mask, Tile::empty())) by {
                assert forall|a: int| 0 <= a < before.len() implies #[trigger] before[a] =~= painted(
                    before,
                    mask,
                    Tile::empty(),
                )[a] by {
                    assert(before[a].len() == map.rows());
                }
            }
        }
        proof {
            lemma_painted_open(before, mask, Tile::empty());
            lemma_keeps_open_twice(old(map)@, before, map@);
            assert forall|k: int|
                0 <= k < i + 1 && on_grid(map@, cell(#[trigger] points@[k]).0, cell(points@[k]).1) implies open_at(
                map@,
                cell(points@[k]).0,
                cell(points@[k]).1,
            ) by {
                let p = cell(points@[k]);
                assert(before[p.0].len() == map.rows());
                assert(map@[p.0].len() == map.rows());
                assert(on_grid(before, p.0, p.1));
                if k < i {
                    assert(open_at(before, p.0, p.1));
                } else {
                    assert(mask(p.0, p.1));
                }
            }
        }
        assert(points@.skip(i as int).skip(1) =~= points@.skip(i as int + 1));
        assert(points@.skip(i as int)[0] == points@[i as int]);
        i = i + 1;
    }
}

/// `g` with a corridor dug along the line from `(x1, y1)` to `(x2, y2)`.
pub open spec fn d_tunnel(g: GridView, y1: i32, y2: i32, x1: i32, x2: i32) -> GridView {
    dug_along(g, bresenham_line(x1, y1, x2, y2))
}

/// Digs a corridor along the straight line from `(x1, y1)` to `(x2, y2)`.
pub fn create_d_tunnel(y1: i32, y2: i32, x1: i32, x2: i32, map: &mut TileGrid)
    requires
        old(map).wf(),
        0 <= x1,
        0 <= y1,
        0 <= x2,
        0 <= y2,
    ensures
        final(map)@ == d_tunnel(old(map)@, y1, y2, x1, x2),
        keeps_open(old(map)@, final(map)@),
        points_open(
            final(map)@,
            bresenham_line(x1, y1, x2, y2),
            bresenham_line(x1, y1, x2, y2).len() as int,
        ),
        final(map).wf(),
        final(map).rows() == old(map).rows(),
        final(map).cols() == old(map).cols(),
{
    let points = line_points(x1, y1, x2, y2);
    dig_along(&points, map);
}

/// `g` with water on the cells of `circle`'s bounding square that its disc
/// covers.
pub open spec fn circle_filled(g: GridView, circle: Circle) -> GridView {
    painted(
        g,
        region(
            circle.x + 1,
            circle.radius + circle.x + 1,
            circle.y + 1,
            circle.radius + circle.y + 1,
            Shape::Disc { radius: circle.radius },
        ),
        Tile::water(),
    )
}

/// Fills the disc of `circle` with water.
pub fn create_circle(circle: Circle, map: &mut TileGrid)
    requires
        old(map).wf(),
    ensures
        final(map)@ == circle_filled(old(map)@, circle),
        final(map).wf(),
        final(map).rows() == old(map).rows(),
        final(map).cols() == old(map).cols(),
{
    map.paint(
        circle.x as i64 + 1,
        circle.radius as i64 + circle.x as i64 + 1,
        circle.y as i64 + 1,
        circle.radius as i64 + circle.y as i64 + 1,
        Shape::Disc { radius: circle.radius },
        Tile::water(),
    );
}

/// Half of the distance between two coordinates, rounded down.
pub open spec fn half_span(a: int, b: int) -> int {
    (if a <= b { b - a } else { a - b }) / 2
}

/// A pool: the corner of its box and the width and height of the box.
pub struct Pool {
    pub x: int,
    pub y: int,
    pub w: int,
    pub h: int,
}

/// The pool drawn for `room` and the generator after its four draws: a
/// width and a height below half the room's, and a corner inside the room.
pub open spec fn pool_of(room: Rect, dice: Dice) -> (Pool, Dice) {
    let w_hi = half_span(room.x1 as int, room.x2 as int) as i32;
    let h_hi = half_span(room.y1 as int, room.y2 as int) as i32;
    let w = dice.value(0, w_hi);
    let d1 = dice.next(0, w_hi);
    let h = d1.value(0, h_hi);
    let d2 = d1.next(0, h_hi);
    let x_lo = (room.x1 + 1) as i32;
    let x_hi = (room.x2 - 1) as i32;
    let y_lo = (room.y1 + 1) as i32;
    let y_hi = (room.y2 - 1) as i32;
    let x = d2.value(x_lo, x_hi);
    let d3 = d2.next(x_lo, x_hi);
    let y = d3.value(y_lo, y_hi);
    let d4 = d3.next(y_lo, y_hi);
    (Pool { x: x as int, y: y as int, w: w as int, h: h as int }, d4)
}

/// The corner of `pool` lies in the interior of `room`, and the pool is
/// less than half as wide and as high as the room.
pub open spec fn pool_inside(pool: Pool, room: Rect) -> bool {
    &&& room.x1 < pool.x < room.x2 - 1
    &&& room.y1 < pool.y < room.y2 - 1
    &&& 0 <= pool.w < half_span(room.x1 as int, room.x2 as int)
    &&& 0 <= pool.h < half_span(room.y1 as int, room.y2 as int)
}

/// `g` with the interior of `pool` under water.
pub open spec fn flooded(g: GridView, pool: Pool) -> GridView {
    painted(
        g,
        region(pool.x + 1, pool.x + pool.w, pool.y + 1, pool.y + pool.h, Shape::Block),
        Tile::water(),
    )
}

/// Draws a pool for `room` and floods its interior; the part of the pool
/// that lies off the grid is skipped.
pub fn create_water(room: Rect, map: &mut TileGrid, dice: &mut Dice)
    requires
        old(map).wf(),
        old(dice).wf(),
        roomy(room, 2),
    ensures
        final(map)@ == flooded(old(map)@, pool_of(room, *old(dice)).0),
        *final(dice) == pool_of(room, *old(dice)).1,
        pool_inside(pool_of(room, *old(dice)).0, room),
        keeps_open(old(map)@, final(map)@),
        final(map).wf(),
        final(map).rows() == old(map).rows(),
        final(map).cols() == old(map).cols(),
        final(dice).wf(),
{
    let w = dice.roll(0, ((room.x2 as i64 - room.x1 as i64) / 2) as i32);
    let h = dice.roll(0, ((room.y2 as i64 - room.y1 as i64) / 2) as i32);
    let pos_x = dice.roll(room.x1 + 1, room.x2 - 1);
    let pos_z = dice.roll(room.y1 + 1, room.y2 - 1);
    map.paint(
        pos_x as i64 + 1,
        pos_x as i64 + w as i64,
        pos_z as i64 + 1,
        pos_z as i64 + h as i64,
        Shape::Block,
        Tile::water(),
    );
    proof {
        lemma_painted_open(
            old(map)@,
            region(pos_x + 1, pos_x + w, pos_z + 1, pos_z + h, Shape::Block),
            Tile::water(),
        );
    }
}

/// How often a free cell is drawn for one entity before it is given up.
pub const PLACEMENT_TRIES: u32 = 64;

/// The free cell found for an entity in `room` within `tries` draws, if
/// any, and the generator afterwards. Each try draws a cell of the room's
/// interior and takes it unless something blocks it.
pub open spec fn spot(dice: Dice, room: Rect, g: GridView, objects: Seq<ObjectView>, tries: nat) -> (
    Option<(i32, i32)>,
    Dice,
)
    decreases tries,
{
    if tries == 0 {
        (None, dice)
    } else {
        let x_lo = (room.x1 + 1) as i32;
        let y_lo = (room.y1 + 1) as i32;
        let x = dice.value(x_lo, room.x2);
        let d1 = dice.next(x_lo, room.x2);
        let y = d1.value(y_lo, room.y2);
        let d2 = d1.next(y_lo, room.y2);
        if !blocked(g, objects, x as int, y as int) {
            (Some((x, y)), d2)
        } else {
            spot(d2, room, g, objects, (tries - 1) as nat)
        }
    }
}

/// Draws cells of the interior of `room` until one is free, at most
/// `PLACEMENT_TRIES` times.
pub fn find_spot(room: Rect, map: &TileGrid, objects: &Vec<Object>, dice: &mut Dice) -> (r: Option<
    (i32, i32),
>)
    requires
        map.wf(),
        old(dice).wf(),
        roomy(room, 1),
    ensures
        (r, *final(dice)) == spot(*old(dice), room, map@, arena(objects@), PLACEMENT_TRIES as nat),
        final(dice).wf(),
        r matches Some((x, y)) ==> room.x1 < x < room.x2 && room.y1 < y < room.y2 && !blocked(
            map@,
            arena(objects@),
            x as int,
            y as int,
        ),
{
    let mut tries: u32 = 0;
    while tries < PLACEMENT_TRIES
        invariant
            tries <= PLACEMENT_TRIES,
            map.wf(),
            dice.wf(),
            roomy(room, 1),
            spot(*old(dice), room, map@, arena(objects@), PLACEMENT_TRIES as nat) == spot(
                *dice,
                room,
                map@,
                arena(objects@),
                (PLACEMENT_TRIES - tries) as nat,
            ),
        decreases PLACEMENT_TRIES - tries,
    {
        let x = dice.roll(room.x1 + 1, room.x2);
        let y = dice.roll(room.y1 + 1, room.y2);
        if !is_blocked(x, y, map, objects.as_slice()) {
            return Some((x, y));
        }
        tries = tries + 1;
    }
    None
}

/// The monster that the draw `kind` out of a hundred puts on `(x, y)`:
/// forty in a hundred are duergar, twenty are trolls, the rest goblins.
pub open spec fn monster(kind: int, x: i32, y: i32) -> ObjectView {
    let body = if kind < 40 {
        ObjectView {
            fighter: Some(
                Fighter {
                    max_hp: 10,
                    hp: 10,
                    max_mana: 0,
                    mana: 0,
                    defense: 0,
                    power: 2,
                    on_death: DeathCallback::Monster,
                },
            ),
            ..ObjectView::plain(x, y, 'd', "Duergar"@, grey(), true)
        }
    } else if kind < 60 {
        ObjectView {
            fighter: Some(
                Fighter {
                    max_hp: 15,
                    hp: 15,
                    max_mana: 0,
                    mana: 0,
                    defense: 1,
                    power: 4,
                    on_death: DeathCallback::Monster,
                },
            ),
            ..ObjectView::plain(x, y, 'T', "Troll"@, troll_green(), true)
        }
    } else {
        ObjectView {
            fighter: Some(
                Fighter {
                    max_hp: 12,
                    hp: 12,
                    max_mana: 0,
                    mana: 0,
                    defense: 1,
                    power: 3,
                    on_death: DeathCallback::Monster,
                },
            ),
            ..ObjectView::plain(x, y, 'g', "Goblin"@, green(), true)
        }
    };
    ObjectView { ai: Some(Ai::Basic), alive: true, ..body }
}

/// Makes the monster that the draw `kind` stands for.
pub fn make_monster(kind: i32, x: i32, y: i32) -> (m: Object)
    ensures
        m@ == monster(kind as int, x, y),
        m.wf(),
{
    let mut m = if kind < 40 {
        let mut orc = Object::new(x, y, 'd', String::from_str("Duergar"), grey(), true);
        orc.fighter = Some(
            Fighter {
                max_hp: 10,
                hp: 10,
                max_mana: 0,
                mana: 0,
                defense: 0,
                power: 2,
                on_death: DeathCallback::Monster,
            },
        );
        orc
    } else if kind < 60 {
        let mut troll = Object::new(x, y, 'T', String::from_str("Troll"), troll_green(), true);
        troll.fighter = Some(
            Fighter {
                max_hp: 15,
                hp: 15,
                max_mana: 0,
                mana: 0,
                defense: 1,
                power: 4,
                on_death: DeathCallback::Monster,
            },
        );
        troll
    } else {
        let mut goblin = Object::new(x, y, 'g', String::from_str("Goblin"), green(), true);
        goblin.fighter = Some(
            Fighter {
                max_hp: 12,
                hp: 12,
                max_mana: 0,
                mana: 0,
                defense: 1,
                power: 3,
                on_death: DeathCallback::Monster,
            },
        );
        goblin
    };
    m.ai = Some(Ai::Basic);
    m.alive = true;
    m
}

/// The pickup that the draw `kind` out of five puts on `(x, y)`.
pub open spec fn pickup(kind: int, x: i32, y: i32) -> ObjectView {
    if kind == 0 {
        ObjectView::pickup(x, y, '!', "Pocao de cura"@, crate::color::potion_purple(), Item::heal_potion())
    } else if kind == 1 {
        ObjectView::pickup(x, y, 'º', "Bola de Fogo"@, crate::color::light_red(), Item::fire_ball())
    } else if kind == 2 {
        ObjectView::pickup(
            x,
            y,
            '$',
            "Feitico de confusao"@,
            crate::color::scroll_orange(),
            Item::confusion_spell(),
        )
    } else if kind == 3 {
        ObjectView::pickup(x, y, '*', "Feitico de medo"@, crate::color::black(), Item::fear_spell())
    } else {
        ObjectView::pickup(x, y, 'M', "Feitico de fusao"@, crate::color::orange(), Item::merge_spell())
    }
}

/// Makes the pickup that the draw `kind` stands for.
pub fn make_pickup(kind: i32, x: i32, y: i32) -> (p: Object)
    ensures
        p@ == pickup(kind as int, x, y),
        p.wf(),
{
    if kind == 0 {
        Object::heal_potion(x, y)
    } else if kind == 1 {
        Object::fire_ball(x, y)
    } else if kind == 2 {
        Object::confusion_spell(x, y)
    } else if kind == 3 {
        Object::fear_spell(x, y)
    } else {
        Object::merge_spell(x, y)
    }
}

/// The arena after `n` more monsters have been tried in `room`, and the
/// generator afterwards. A monster for which no free cell is found is left
/// out.
pub open spec fn with_monsters(dice: Dice, room: Rect, g: GridView, objects: Seq<ObjectView>, n: nat) -> (
    Seq<ObjectView>,
    Dice,
)
    decreases n,
{
    if n == 0 {
        (objects, dice)
    } else {
        let (place, d1) = spot(dice, room, g, objects, PLACEMENT_TRIES as nat);
        match place {
            Some((x, y)) => with_monsters(
                d1.next(0, 100),
                room,
                g,
                objects.push(monster(d1.value(0, 100) as int, x, y)),
                (n - 1) as nat,
            ),
            None => with_monsters(d1, room, g, objects, (n - 1) as nat),
        }
    }
}

/// The arena after `n` more pickups have been tried in `room`, and the
/// generator afterwards.
pub open spec fn with_items(dice: Dice, room: Rect, g: GridView, objects: Seq<ObjectView>, n: nat) -> (
    Seq<ObjectView>,
    Dice,
)
    decreases n,
{
    if n == 0 {
        (objects, dice)
    } else {
        let (place, d1) = spot(dice, room, g, objects, PLACEMENT_TRIES as nat);
        match place {
            Some((x, y)) => with_items(
                d1.next(0, 5),
                room,
                g,
                objects.push(pickup(d1.value(0, 5) as int, x, y)),
                (n - 1) as nat,
            ),
            None => with_items(d1, room, g, objects, (n - 1) as nat),
        }
    }
}

/// The arena after `room` has been populated, and the generator
/// afterwards: a number of monsters is drawn and placed, then a number of
/// pickups.
pub open spec fn populated(dice: Dice, room: Rect, g: GridView, objects: Seq<ObjectView>, config: GenConfig) -> (
    Seq<ObjectView>,
    Dice,
) {
    let m_hi = (config.max_room_monsters + 1) as i32;
    let i_hi = (config.max_room_items + 1) as i32;
    let (o1, d1) = with_monsters(
        dice.next(0, m_hi),
        room,
        g,
        objects,
        dice.value(0, m_hi) as nat,
    );
    with_items(d1.next(0, i_hi), room, g, o1, d1.value(0, i_hi) as nat)
}

/// Every entity of `objects` from slot `from` to before slot `to` stands
/// on a cell that can be stepped on.
pub open spec fn standing_open(g: GridView, objects: Seq<Object>, from: int, to: int) -> bool {
    forall|i: int| from <= i < to ==> open_at(g, (#[trigger] objects[i]).x as int, objects[i].y as int)
}

/// Every entity of `objects` from slot `from` to before slot `to` stands
/// in the interior of `room`.
pub open spec fn standing_inside(room: Rect, objects: Seq<Object>, from: int, to: int) -> bool {
    forall|i: int|
        from <= i < to ==> room.x1 < (#[trigger] objects[i]).x < room.x2 && room.y1 < objects[i].y
            < room.y2
}

/// Puts monsters and pickups into `room`: up to `max_room_monsters` and
/// `max_room_items` of them, each on a free cell of the interior.
#[verifier::rlimit(40)]
pub fn place_objects(room: Rect, objects: &mut Vec<Object>, map: &TileGrid, dice: &mut Dice, config: &GenConfig)
    requires
        map.wf(),
        old(dice).wf(),
        roomy(room, 1),
        config.valid(),
        all_wf(old(objects)@),
    ensures
        (arena(final(objects)@), *final(dice)) == populated(
            *old(dice),
            room,
            map@,
            arena(old(objects)@),
            *config,
        ),
        extends(final(objects)@, old(objects)@),
        final(objects)@.len() - old(objects)@.len() <= config.max_room_monsters
            + config.max_room_items,
        standing_open(map@, final(objects)@, old(objects)@.len() as int, final(objects)@.len() as int),
        standing_inside(room, final(objects)@, old(objects)@.len() as int, final(objects)@.len() as int),
        all_wf(final(objects)@),
        final(dice).wf(),
{
    let num_monsters = dice.roll(0, config.max_room_monsters + 1);
    let ghost d_start = *dice;
    let ghost o_start = arena(objects@);
    let mut i: i32 = 0;
    assert(objects@.subrange(0, old(objects)@.len() as int) =~= old(objects)@);
    while i < num_monsters
        invariant
            0 <= i <= num_monsters,
            map.wf(),
            dice.wf(),
            roomy(room, 1),
            all_wf(objects@),
            extends(objects@, old(objects)@),
            standing_open(map@, objects@, old(objects)@.len() as int, objects@.len() as int),
            standing_inside(room, objects@, old(objects)@.len() as int, objects@.len() as int),
            objects@.len() <= old(objects)@.len() + i,
            num_monsters <= config.max_room_monsters,
            with_monsters(d_start, room, map@, o_start, num_monsters as nat) == with_monsters(
                *dice,
                room,
                map@,
                arena(objects@),
                (num_monsters - i) as nat,
            ),
        decreases num_monsters - i,
    {
        let ghost before = objects@;
        match find_spot(room, map, objects, dice) {
            Some((x, y)) => {
                let kind = dice.roll(0, 100);
                let m = make_monster(kind, x, y);
                objects.push(m);
                assert(arena(objects@) =~= arena(before).push(monster(kind as int, x, y)));
                assert(standing_open(
                    map@,
                    objects@,
                    old(objects)@.len() as int,
                    objects@.len() as int,
                )) by {
                    assert forall|i: int| old(objects)@.len() <= i < objects@.len() implies open_at(
                        map@,
                        (#[trigger] objects@[i]).x as int,
                        objects@[i].y as int,
                    ) by {
                        if i < before.len() {
                            assert(objects@[i] == before[i]);
                        }
                    }
                }
                assert(standing_inside(
                    room,
                    objects@,
                    old(objects)@.len() as int,
                    objects@.len() as int,
                )) by {
                    assert forall|i: int| old(objects)@.len() <= i < objects@.len() implies room.x1 < (
                    #[trigger] objects@[i]).x < room.x2 && room.y1 < objects@[i].y < room.y2 by {
                        if i < before.len() {
                            assert(objects@[i] == before[i]);
                        }
                    }
                }
                assert(objects@.subrange(0, old(objects)@.len() as int) =~= before.subrange(
                    0,
                    old(objects)@.len() as int,
                ));
            },
            None => {},
        }
        i = i + 1;
    }
    let num_items = dice.roll(0, config.max_room_items + 1);
    let ghost d_mid = *dice;
    let ghost o_mid = arena(objects@);
    let mut k: i32 = 0;
    while k < num_items
        invariant
            0 <= k <= num_items,
            map.wf(),
            dice.wf(),
            roomy(room, 1),
            all_wf(objects@),
            extends(objects@, old(objects)@),
            standing_open(map@, objects@, old(objects)@.len() as int, objects@.len() as int),
            standing_inside(room, objects@, old(objects)@.len() as int, objects@.len() as int),
            objects@.len() <= old(objects)@.len() + config.max_room_monsters + k,
            num_items <= config.max_room_items,
            with_items(d_mid, room, map@, o_mid, num_items as nat) == with_items(
                *dice,
                room,
                map@,
                arena(objects@),
                (num_items - k) as nat,
            ),
        decreases num_items - k,
    {
        let ghost before = objects@;
        match find_spot(room, map, objects, dice) {
            Some((x, y)) => {
                let kind = dice.roll(0, 5);
                let p = make_pickup(kind, x, y);
                objects.push(p);
                assert(arena(objects@) =~= arena(before).push(pickup(kind as int, x, y)));
                assert(standing_open(
                    map@,
                    objects@,
                    old(objects)@.len() as int,
                    objects@.len() as int,
                )) by {
                    assert forall|i: int| old(objects)@.len() <= i < objects@.len() implies open_at(
                        map@,
                        (#[trigger] objects@[i]).x as int,
                        objects@[i].y as int,
                    ) by {
                        if i < before.len() {
                            assert(objects@[i] == before[i]);
                        }
                    }
                }
                assert(standing_inside(
                    room,
                    objects@,
                    old(objects)@.len() as int,
                    objects@.len() as int,
                )) by {
                    assert forall|i: int| old(objects)@.len() <= i < objects@.len() implies room.x1 < (
                    #[trigger] objects@[i]).x < room.x2 && room.y1 < objects@[i].y < room.y2 by {
                        if i < before.len() {
                            assert(objects@[i] == before[i]);
                        }
                    }
                }
                assert(objects@.subrange(0, old(objects)@.len() as int) =~= before.subrange(
                    0,
                    old(objects)@.len() as int,
                ));
            },
            None => {},
        }
        k = k + 1;
    }
}

/// The grid, the arena and the generator after `room` has been made: its
/// shape is drawn, its interior carved, and its entities placed.
pub open spec fn room_made(g: GridView, objects: Seq<ObjectView>, dice: Dice, room: Rect, config: GenConfig) -> (
    GridView,
    Seq<ObjectView>,
    Dice,
) {
    let (shape, d1) = room_shape(room, dice, config.pillar_rooms);
    let g1 = room_carved(g, room, shape);
    let (o1, d2) = populated(d1, room, g1, objects, config);
    (g1, o1, d2)
}

/// Makes `room`: carves its interior and puts its monsters and pickups
/// into it.
pub fn create_room(room: Rect, objects: &mut Vec<Object>, map: &mut TileGrid, dice: &mut Dice, config: &GenConfig)
    requires
        old(map).wf(),
        old(dice).wf(),
        roomy(room, 1),
        config.pillar_rooms ==> roomy(room, 4) && sides_fit(room),
        config.valid(),
        all_wf(old(objects)@),
    ensures
        (final(map)@, arena(final(objects)@), *final(dice)) == room_made(
            old(map)@,
            arena(old(objects)@),
            *old(dice),
            room,
            *config,
        ),
        keeps_open(old(map)@, final(map)@),
        extends(final(objects)@, old(objects)@),
        final(objects)@.len() - old(objects)@.len() <= config.max_room_monsters
            + config.max_room_items,
        standing_open(
            final(map)@,
            final(objects)@,
            old(objects)@.len() as int,
            final(objects)@.len() as int,
        ),
        standing_inside(room, final(objects)@, old(objects)@.len() as int, final(objects)@.len() as int),
        all_wf(final(objects)@),
        final(map).wf(),
        final(map).rows() == old(map).rows(),
        final(map).cols() == old(map).cols(),
        final(dice).wf(),
{
    carve_room(room, map, dice, config.pillar_rooms);
    place_objects(room, objects, map, dice, config);
}

/// How a tunnel runs between two room centres.
#[derive(Clone, Copy, Debug, PartialEq, Eq, Structural)]
pub enum TunnelKind {
    /// Along the straight line between the centres, and at both centres.
    Diagonal,
    /// Along the row of the first centre, then the column of the second.
    HorizontalFirst,
    /// Along the column of the first centre, then the row of the second.
    VerticalFirst,
}

/// A tunnel between the rooms `from` and `to`, by their places in the list
/// of rooms.
#[derive(Clone, Copy, Debug, PartialEq, Eq, Structural)]
pub struct Tunnel {
    pub from: usize,
    pub to: usize,
    pub kind: TunnelKind,
}

/// A coordinate pair as a cell.
pub open spec fn spot_of(p: (i32, i32)) -> (int, int) {
    (p.0 as int, p.1 as int)
}

/// The line `points` can be walked from `a` to `b` once it is dug: every
/// point lies on the grid, each is one step from the point before it, the
/// first is one step from `a` and the last one step from `b`. A line
/// without points asks that `a` is one step from `b`.
pub open spec fn line_walks(points: Seq<(i64, i64)>, a: (int, int), b: (int, int), g: GridView) -> bool {
    &&& forall|i: int|
        0 <= i < points.len() ==> on_grid(g, cell(#[trigger] points[i]).0, cell(points[i]).1)
    &&& forall|i: int| 0 <= i < points.len() - 1 ==> near(cell(#[trigger] points[i]), cell(points[i + 1]))
    &&& if points.len() == 0 {
        near(a, b)
    } else {
        near(a, cell(points[0])) && near(cell(points.last()), b)
    }
}

/// Whether two cells are one step apart at most.
fn close(ax: i64, ay: i64, bx: i64, by: i64) -> (r: bool)
    requires
        -0x1_0000_0000 <= ax <= 0x1_0000_0000,
        -0x1_0000_0000 <= ay <= 0x1_0000_0000,
        -0x1_0000_0000 <= bx <= 0x1_0000_0000,
        -0x1_0000_0000 <= by <= 0x1_0000_0000,
    ensures
        r == near((ax as int, ay as int), (bx as int, by as int)),
{
    ax - 1 <= bx && bx <= ax + 1 && ay - 1 <= by && by <= ay + 1
}

/// Whether the line `points` can be walked from `prev` to `new` once it
/// is dug.
pub fn line_is_walkable(points: &Vec<(i64, i64)>, prev: (i32, i32), new: (i32, i32), map: &TileGrid) -> (r:
    bool)
    requires
        map.wf(),
    ensures
        r == line_walks(points@, spot_of(prev), spot_of(new), map@),
{
    let n = points.len();
    if n == 0 {
        return close(prev.0 as i64, prev.1 as i64, new.0 as i64, new.1 as i64);
    }
    let mut i: usize = 0;
    while i < n
        invariant
            n == points@.len(),
            i <= n,
            map.wf(),
            forall|k: int| 0 <= k < i ==> on_grid(map@, cell(#[trigger] points@[k]).0, cell(points@[k]).1),
            forall|k: int| 0 <= k < i - 1 ==> near(cell(#[trigger] points@[k]), cell(points@[k + 1])),
        decreases n - i,
    {
        let (x, y) = points[i];
        if !(0 <= x && x <= i32::MAX as i64 && 0 <= y && y <= i32::MAX as i64 && map.contains(
            x as i32,
            y as i32,
        )) {
            assert(!on_grid(map@, cell(points@[i as int]).0, cell(points@[i as int]).1)) by {
                if 0 <= x < map@.len() {
                    assert(map@[x as int].len() == map.rows());
                }
            }
            return false;
        }
        if i > 0 {
            let (px, py) = points[i - 1];
            assert(on_grid(map@, cell(points@[i - 1]).0, cell(points@[i - 1]).1));
            assert(map@[px as int].len() == map.rows());
            if !close(px, py, x, y) {
                assert(!near(cell(points@[i - 1]), cell(points@[i - 1 + 1])));
                return false;
            }
        }
        i = i + 1;
    }
    let (fx, fy) = points[0];
    let (lx, ly) = points[n - 1];
    assert(on_grid(map@, cell(points@[0]).0, cell(points@[0]).1));
    assert(on_grid(map@, cell(points@[n - 1]).0, cell(points@[n - 1]).1));
    assert(map@[fx as int].len() == map.rows());
    assert(map@[lx as int].len() == map.rows());
    close(prev.0 as i64, prev.1 as i64, fx, fy) && close(lx, ly, new.0 as i64, new.1 as i64)
}

/// The kind of tunnel that the draw `k` out of a hundred stands for
/// between the centres `prev` and `new`: ten in a hundred run along the
/// straight line, if that line can be walked, and as an elbow if it
/// cannot; forty run horizontally first, fifty vertically first.
pub open spec fn tunnel_choice(k: int, prev: (i32, i32), new: (i32, i32), g: GridView) -> TunnelKind {
    if k < 10 {
        if line_walks(bresenham_line(prev.0, prev.1, new.0, new.1), spot_of(prev), spot_of(new), g) {
            TunnelKind::Diagonal
        } else {
            TunnelKind::HorizontalFirst
        }
    } else if k < 50 {
        TunnelKind::HorizontalFirst
    } else {
        TunnelKind::VerticalFirst
    }
}

/// Picks the kind of tunnel that the draw `chance` stands for.
pub fn pick_tunnel(chance: i32, prev: (i32, i32), new: (i32, i32), map: &TileGrid) -> (kind: TunnelKind)
    requires
        map.wf(),
        0 <= prev.0,
        0 <= prev.1,
        0 <= new.0,
        0 <= new.1,
    ensures
        kind == tunnel_choice(chance as int, prev, new, map@),
{
    if chance < 10 {
        let points = line_points(prev.0, prev.1, new.0, new.1);
        if line_is_walkable(&points, prev, new, map) {
            TunnelKind::Diagonal
        } else {
            TunnelKind::HorizontalFirst
        }
    } else if chance < 50 {
        TunnelKind::HorizontalFirst
    } else {
        TunnelKind::VerticalFirst
    }
}

/// The two centres of a tunnel as points to dig at.
pub open spec fn ends(prev: (i32, i32), new: (i32, i32)) -> Seq<(i64, i64)> {
    seq![(prev.0 as i64, prev.1 as i64), (new.0 as i64, new.1 as i64)]
}

/// `g` with a tunnel of `kind` dug from the centre `prev` to the centre
/// `new`.
pub open spec fn tunnelled(g: GridView, kind: TunnelKind, prev: (i32, i32), new: (i32, i32)) -> GridView {
    match kind {
        TunnelKind::Diagonal => dug_along(d_tunnel(g, prev.1, new.1, prev.0, new.0), ends(prev, new)),
        TunnelKind::HorizontalFirst => v_tunnel(
            h_tunnel(g, prev.0 as int, new.0 as int, prev.1 as int),
            prev.1 as int,
            new.1 as int,
            new.0 as int,
        ),
        TunnelKind::VerticalFirst => h_tunnel(
            v_tunnel(g, prev.1 as int, new.1 as int, prev.0 as int),
            prev.0 as int,
            new.0 as int,
            new.1 as int,
        ),
    }
}

/// A tunnel of `kind` from `a` to `b` can be walked: both ends can be
/// stepped on and a walk leads from one to the other. An elbow can be
/// walked along its first leg from `a` and along its second leg to `b`.
pub open spec fn corridor_open(g: GridView, kind: TunnelKind, a: (int, int), b: (int, int)) -> bool {
    &&& open_at(g, a.0, a.1)
    &&& open_at(g, b.0, b.1)
    &&& joined_by_walk(g, a, b)
    &&& match kind {
        TunnelKind::Diagonal => true,
        TunnelKind::HorizontalFirst => row_open(g, a.0, b.0, a.1) && column_open(g, a.1, b.1, b.0),
        TunnelKind::VerticalFirst => column_open(g, a.1, b.1, a.0) && row_open(g, a.0, b.0, b.1),
    }
}

/// A tunnel that can be walked stays so when no cell is closed.
pub proof fn lemma_corridor_stays_open(
    before: GridView,
    after: GridView,
    kind: TunnelKind,
    a: (int, int),
    b: (int, int),
)
    requires
        keeps_open(before, after),
        corridor_open(before, kind, a, b),
    ensures
        corridor_open(after, kind, a, b),
{
    lemma_walk_stays(before, after, a, b);
    assert(open_at(before, a.0, a.1));
    assert(open_at(before, b.0, b.1));
    match kind {
        TunnelKind::Diagonal => {},
        TunnelKind::HorizontalFirst => {
            lemma_row_stays_open(before, after, a.0, b.0, a.1);
            lemma_column_stays_open(before, after, a.1, b.1, b.0);
        },
        TunnelKind::VerticalFirst => {
            lemma_column_stays_open(before, after, a.1, b.1, a.0);
            lemma_row_stays_open(before, after, a.0, b.0, b.1);
        },
    }
}

/// A line that can be walked and has been dug, with both ends, is a walk
/// from one end to the other.
pub proof fn lemma_line_walk(g: GridView, points: Seq<(i64, i64)>, a: (int, int), b: (int, int))
    requires
        line_walks(points, a, b, g),
        points_open(g, points, points.len() as int),
        open_at(g, a.0, a.1),
        open_at(g, b.0, b.1),
    ensures
        joined_by_walk(g, a, b),
{
    let n = points.len() as int;
    let path = Seq::new(
        (n + 2) as nat,
        |i: int|
            if i == 0 {
                a
            } else if i == n + 1 {
                b
            } else {
                cell(points[i - 1])
            },
    );
    assert forall|i: int| 0 <= i < path.len() implies open_at(g, (#[trigger] path[i]).0, path[i].1) by {
        if 0 < i < n + 1 {
            assert(on_grid(g, cell(points[i - 1]).0, cell(points[i - 1]).1));
        }
    }
    assert forall|i: int| 0 <= i < path.len() - 1 implies near(#[trigger] path[i], path[i + 1]) by {
        if 0 < i < n {
            assert(near(cell(points[i - 1]), cell(points[i - 1 + 1])));
        }
    }
    assert(is_walk(g, path));
    assert(path[0] == a && path.last() == b);
}

/// Digs a tunnel of `kind` from the centre `prev` to the centre `new`.
/// A diagonal tunnel is dug along the straight line and at both centres,
/// which the line may leave out.
#[verifier::rlimit(40)]
pub fn dig_tunnel(kind: TunnelKind, prev: (i32, i32), new: (i32, i32), map: &mut TileGrid)
    requires
        old(map).wf(),
        0 <= prev.0,
        0 <= prev.1,
        0 <= new.0,
        0 <= new.1,
    ensures
        final(map)@ == tunnelled(old(map)@, kind, prev, new),
        keeps_open(old(map)@, final(map)@),
        old(map).in_bounds(prev.0 as int, prev.1 as int) && old(map).in_bounds(
            new.0 as int,
            new.1 as int,
        ) ==> open_at(final(map)@, prev.0 as int, prev.1 as int) && open_at(
            final(map)@,
            new.0 as int,
            new.1 as int,
        ),
        old(map).in_bounds(prev.0 as int, prev.1 as int) && old(map).in_bounds(
            new.0 as int,
            new.1 as int,
        ) && (kind is Diagonal ==> line_walks(
            bresenham_line(prev.0, prev.1, new.0, new.1),
            spot_of(prev),
            spot_of(new),
            old(map)@,
        )) ==> corridor_open(final(map)@, kind, spot_of(prev), spot_of(new)),
        final(map).wf(),
        final(map).rows() == old(map).rows(),
        final(map).cols() == old(map).cols(),
{
    let ghost both = old(map).in_bounds(prev.0 as int, prev.1 as int) && old(map).in_bounds(
        new.0 as int,
        new.1 as int,
    );
    let ghost a = spot_of(prev);
    let ghost b = spot_of(new);
    match kind {
        TunnelKind::Diagonal => {
            create_d_tunnel(prev.1, new.1, prev.0, new.0, map);
            let ghost mid = map@;
            let mut centres: Vec<(i64, i64)> = Vec::new();
            centres.push((prev.0 as i64, prev.1 as i64));
            centres.push((new.0 as i64, new.1 as i64));
            assert(centres@ =~= ends(prev, new));
            dig_along(&centres, map);
            proof {
                lemma_keeps_open_twice(old(map)@, mid, map@);
                let line = bresenham_line(prev.0, prev.1, new.0, new.1);
                if both {
                    assert(old(map)@[a.0].len() == old(map).rows());
                    assert(old(map)@[b.0].len() == old(map).rows());
                    assert(map@[a.0].len() == map.rows());
                    assert(map@[b.0].len() == map.rows());
                    assert(cell(centres@[0]) == a && cell(centres@[1]) == b);
                    assert(open_at(map@, a.0, a.1));
                    assert(open_at(map@, b.0, b.1));
                    if line_walks(line, a, b, old(map)@) {
                        assert forall|i: int|
                            0 <= i < line.len() implies on_grid(
                            map@,
                            cell(#[trigger] line[i]).0,
                            cell(line[i]).1,
                        ) && open_at(map@, cell(line[i]).0, cell(line[i]).1) by {
                            let p = cell(line[i]);
                            assert(on_grid(old(map)@, p.0, p.1));
                            assert(old(map)@[p.0].len() == old(map).rows());
                            assert(mid[p.0].len() == old(map).rows());
                            assert(map@[p.0].len() == map.rows());
                            assert(on_grid(mid, p.0, p.1));
                            assert(open_at(mid, p.0, p.1));
                        }
                        assert(line_walks(line, a, b, map@));
                        lemma_line_walk(map@, line, a, b);
                    }
                }
            }
        },
        TunnelKind::HorizontalFirst => {
            create_h_tunnel(prev.0, new.0, prev.1, map);
            let ghost mid = map@;
            create_v_tunnel(prev.1, new.1, new.0, map);
            proof {
                lemma_keeps_open_twice(old(map)@, mid, map@);
                if both {
                    assert(old(map)@[new.0 as int].len() == old(map).rows());
                    assert(old(map)@[prev.0 as int].len() == old(map).rows());
                    lemma_row_stays_open(mid, map@, prev.0 as int, new.0 as int, prev.1 as int);
                    lemma_row_walk(map@, a.0, b.0, a.1);
                    lemma_column_walk(map@, a.1, b.1, b.0);
                    lemma_walks_join(map@, a, (b.0, a.1), b);
                    assert(open_at(map@, a.0, a.1));
                    assert(open_at(map@, b.0, b.1));
                }
            }
        },
        TunnelKind::VerticalFirst => {
            create_v_tunnel(prev.1, new.1, prev.0, map);
            let ghost mid = map@;
            create_h_tunnel(prev.0, new.0, new.1, map);
            proof {
                lemma_keeps_open_twice(old(map)@, mid, map@);
                if both {
                    assert(old(map)@[new.0 as int].len() == old(map).rows());
                    assert(old(map)@[prev.0 as int].len() == old(map).rows());
                    lemma_column_stays_open(mid, map@, prev.1 as int, new.1 as int, prev.0 as int);
                    lemma_column_walk(map@, a.1, b.1, a.0);
                    lemma_row_walk(map@, a.0, b.0, b.1);
                    lemma_walks_join(map@, a, (a.0, b.1), b);
                    assert(open_at(map@, a.0, a.1));
                    assert(open_at(map@, b.0, b.1));
                }
            }
        },
    }
}

/// Some room of `rooms` intersects `room`.
pub open spec fn overlaps_any(rooms: Seq<Rect>, room: Rect) -> bool {
    exists|i: int| 0 <= i < rooms.len() && room.intersects(#[trigger] rooms[i])
}

/// Whether some room of `rooms` intersects `room`.
pub fn any_intersects(rooms: &Vec<Rect>, room: &Rect) -> (r: bool)
    ensures
        r == overlaps_any(rooms@, *room),
{
    let mut i: usize = 0;
    while i < rooms.len()
        invariant
            i <= rooms@.len(),
            forall|k: int| 0 <= k < i ==> !room.intersects(#[trigger] rooms@[k]),
        decreases rooms@.len() - i,
    {
        if room.intersects_with(&rooms[i]) {
            return true;
        }
        i = i + 1;
    }
    false
}

/// The generator's position in its work: what it has built and the state
/// of its dice.
pub struct GenState {
    pub grid: GridView,
    pub objects: Seq<ObjectView>,
    pub rooms: Seq<Rect>,
    pub tunnels: Seq<Tunnel>,
    pub dice: Dice,
}

/// The room drawn next and the generator afterwards: a width and a height
/// within the configured sizes, then a corner that keeps the room on the
/// grid.
pub open spec fn candidate(dice: Dice, config: GenConfig) -> (Rect, Dice) {
    let s_hi = (config.room_max_size + 1) as i32;
    let w = dice.value(config.room_min_size, s_hi);
    let d1 = dice.next(config.room_min_size, s_hi);
    let h = d1.value(config.room_min_size, s_hi);
    let d2 = d1.next(config.room_min_size, s_hi);
    let x_hi = (config.width - w) as i32;
    let x = d2.value(0, x_hi);
    let d3 = d2.next(0, x_hi);
    let y_hi = (config.height - h) as i32;
    let y = d3.value(0, y_hi);
    let d4 = d3.next(0, y_hi);
    (Rect { x1: x, y1: y, x2: (x + w) as i32, y2: (y + h) as i32, connections: 0 }, d4)
}

/// `o` moved to `(x, y)`.
pub open spec fn put(o: ObjectView, p: (int, int)) -> ObjectView {
    ObjectView { x: p.0 as i32, y: p.1 as i32, ..o }
}

/// `room` with one more tunnel ending in it.
pub open spec fn one_more(room: Rect) -> Rect {
    Rect { connections: (room.connections + 1) as i32, ..room }
}

/// What joining a new room to the last one leaves behind.
pub struct Joined {
    pub grid: GridView,
    pub rooms: Seq<Rect>,
    pub tunnels: Seq<Tunnel>,
    pub dice: Dice,
}

/// The new room `room` joined to the last of `rooms`: the kind of tunnel
/// is drawn, the tunnel is dug between the two centres, both rooms count
/// it, and the room and the tunnel are put on their lists.
pub open spec fn rooms_joined(g: GridView, rooms: Seq<Rect>, tunnels: Seq<Tunnel>, dice: Dice, room: Rect) -> Joined {
    let last = rooms.len() - 1;
    let prev = rooms[last];
    let pc = prev.center_spec();
    let c = room.center_spec();
    let from = (pc.0 as i32, pc.1 as i32);
    let to = (c.0 as i32, c.1 as i32);
    let kind = tunnel_choice(dice.value(0, 100) as int, from, to, g);
    Joined {
        grid: tunnelled(g, kind, from, to),
        rooms: rooms.update(last, one_more(prev)).push(one_more(room)),
        tunnels: tunnels.push(Tunnel { from: last as usize, to: (last + 1) as usize, kind }),
        dice: dice.next(0, 100),
    }
}

/// One round of room building: a room is drawn; unless it is dropped for
/// touching an earlier one, it is carved and populated, and then either
/// receives the player, if it is the first, or is joined to the room
/// before it by a tunnel of a drawn kind.
pub open spec fn room_step(st: GenState, config: GenConfig) -> GenState {
    let (room, d1) = candidate(st.dice, config);
    if config.reject_overlaps && overlaps_any(st.rooms, room) {
        GenState { dice: d1, ..st }
    } else {
        let (g1, o1, d3) = room_made(st.grid, st.objects, d1, room, config);
        let c = room.center_spec();
        if st.rooms.len() == 0 {
            GenState {
                grid: g1,
                objects: o1.update(PLAYER as int, put(o1[PLAYER as int], c)),
                rooms: st.rooms.push(room),
                tunnels: st.tunnels,
                dice: d3,
            }
        } else {
            let j = rooms_joined(g1, st.rooms, st.tunnels, d3, room);
            GenState { grid: j.grid, objects: o1, rooms: j.rooms, tunnels: j.tunnels, dice: j.dice }
        }
    }
}

/// The state after `n` more rounds of room building.
pub open spec fn rooms_built(st: GenState, config: GenConfig, n: nat) -> GenState
    decreases n,
{
    if n == 0 {
        st
    } else {
        rooms_built(room_step(st, config), config, (n - 1) as nat)
    }
}

/// The grid and the generator after the rooms from `from` on have each
/// had their chance of a pool: one draw decides whether a room gets one,
/// four more shape it.
pub open spec fn watered(g: GridView, dice: Dice, rooms: Seq<Rect>, from: int) -> (GridView, Dice)
    decreases rooms.len() - from,
{
    if from < 0 || from >= rooms.len() {
        (g, dice)
    } else if dice.value(0, 2) == 1 {
        let (pool, d2) = pool_of(rooms[from], dice.next(0, 2));
        watered(flooded(g, pool), d2, rooms, from + 1)
    } else {
        watered(g, dice.next(0, 2), rooms, from + 1)
    }
}

/// The stairs at `p`.
pub open spec fn stairs_at(p: (int, int)) -> ObjectView {
    ObjectView {
        always_visible: true,
        ..ObjectView::plain(p.0 as i32, p.1 as i32, '<', "stairs"@, white(), false)
    }
}

/// The whole map built for `config` from the entities `objects` and the
/// generator `dice`: the rooms, then the pools, then the stairs in the
/// middle of the last room.
pub open spec fn mapped(objects: Seq<ObjectView>, config: GenConfig, dice: Dice) -> GenState {
    let start = GenState {
        grid: crate::map::solid(config.width as int, config.height as int),
        objects,
        rooms: Seq::empty(),
        tunnels: Seq::empty(),
        dice,
    };
    let built = rooms_built(start, config, config.max_rooms as nat);
    let (g, d) = watered(built.grid, built.dice, built.rooms, 0);
    GenState {
        grid: g,
        objects: built.objects.push(stairs_at(built.rooms.last().center_spec())),
        dice: d,
        ..built
    }
}

/// No two rooms of `rooms` intersect.
pub open spec fn apart(rooms: Seq<Rect>) -> bool {
    forall|i: int, j: int|
        0 <= i < j < rooms.len() ==> !(#[trigger] rooms[j]).intersects(#[trigger] rooms[i])
}

/// Tunnel `k` joins room `k` to room `k + 1`.
pub open spec fn chained(tunnels: Seq<Tunnel>) -> bool {
    forall|k: int|
        0 <= k < tunnels.len() ==> (#[trigger] tunnels[k]).from == k && tunnels[k].to == k + 1
}

/// Every room counts the tunnels that end in it: one for the first and the
/// last room, two for a room in between, none for a room alone.
pub open spec fn counted(rooms: Seq<Rect>) -> bool {
    forall|i: int|
        0 <= i < rooms.len() ==> (#[trigger] rooms[i]).connections == (if i > 0 {
            1int
        } else {
            0int
        }) + (if i < rooms.len() - 1 {
            1int
        } else {
            0int
        })
}

/// Every elbow tunnel can be walked from the centre of the room it
/// leaves to the centre of the room it reaches.
pub open spec fn corridors_open(g: GridView, rooms: Seq<Rect>, tunnels: Seq<Tunnel>) -> bool {
    forall|k: int|
        0 <= k < tunnels.len() && k + 1 < rooms.len() ==> corridor_open(
            g,
            (#[trigger] tunnels[k]).kind,
            rooms[k].center_spec(),
            rooms[k + 1].center_spec(),
        )
}

/// Tunnels that can be walked stay so when no cell is closed.
pub proof fn lemma_corridors_stay_open(before: GridView, after: GridView, rooms: Seq<Rect>, tunnels: Seq<Tunnel>)
    requires
        keeps_open(before, after),
        corridors_open(before, rooms, tunnels),
    ensures
        corridors_open(after, rooms, tunnels),
{
    assert forall|k: int| 0 <= k < tunnels.len() && k + 1 < rooms.len() implies corridor_open(
        after,
        (#[trigger] tunnels[k]).kind,
        rooms[k].center_spec(),
        rooms[k + 1].center_spec(),
    ) by {
        lemma_corridor_stays_open(
            before,
            after,
            tunnels[k].kind,
            rooms[k].center_spec(),
            rooms[k + 1].center_spec(),
        );
    }
}

/// Entities that stand on cells that can be stepped on still do when no
/// cell is closed.
pub proof fn lemma_standing_stays_open(before: GridView, after: GridView, objects: Seq<Object>, from: int, to: int)
    requires
        keeps_open(before, after),
        standing_open(before, objects, from, to),
    ensures
        standing_open(after, objects, from, to),
{
    assert forall|i: int| from <= i < to implies open_at(
        after,
        (#[trigger] objects[i]).x as int,
        objects[i].y as int,
    ) by {
        assert(open_at(before, objects[i].x as int, objects[i].y as int));
    }
}

/// `after` is `before` but for its place.
pub open spec fn only_moved(before: ObjectView, after: ObjectView) -> bool {
    after == (ObjectView { x: after.x, y: after.y, ..before })
}

/// What holds of the generator's work after every round.
pub open spec fn sound(
    map: &TileGrid,
    objects: Seq<Object>,
    rooms: Seq<Rect>,
    tunnels: Seq<Tunnel>,
    config: GenConfig,
) -> bool {
    &&& map.wf()
    &&& map.cols() == config.width
    &&& map.rows() == config.height
    &&& objects.len() >= 1
    &&& all_wf(objects)
    &&& laid(rooms, tunnels, config.width as int, config.height as int)
    &&& rooms.len() > 0 ==> (objects[0].x as int, objects[0].y as int) == rooms[0].center_spec()
    &&& config.reject_overlaps ==> apart(rooms)
}

/// The rooms lie on a grid of `width` by `height` cells, each is joined
/// to the next by one tunnel, and each counts the tunnels that end in it.
pub open spec fn laid(rooms: Seq<Rect>, tunnels: Seq<Tunnel>, width: int, height: int) -> bool {
    &&& forall|i: int| 0 <= i < rooms.len() ==> room_in(#[trigger] rooms[i], width, height)
    &&& tunnels.len() == (if rooms.len() == 0 {
        0
    } else {
        rooms.len() - 1
    })
    &&& chained(tunnels)
    &&& counted(rooms)
}

/// Draws the next room.
pub fn draw_room(dice: &mut Dice, config: &GenConfig) -> (room: Rect)
    requires
        config.valid(),
        old(dice).wf(),
    ensures
        (room, *final(dice)) == candidate(*old(dice), *config),
        room_in(room, config.width as int, config.height as int),
        room.connections == 0,
        roomy(room, config.room_min_size - 1),
        sides_fit(room),
        final(dice).wf(),
{
    let w = dice.roll(config.room_min_size, config.room_max_size + 1);
    let h = dice.roll(config.room_min_size, config.room_max_size + 1);
    let x = dice.roll(0, config.width - w);
    let y = dice.roll(0, config.height - h);
    Rect::new(x, y, w, h)
}

/// Joins the new room `new_room` to the last room: draws the kind of
/// tunnel, digs it between the two centres and records it.
#[verifier::rlimit(40)]
pub fn join_rooms(
    new_room: Rect,
    map: &mut TileGrid,
    rooms: &mut Vec<Rect>,
    tunnels: &mut Vec<Tunnel>,
    dice: &mut Dice,
)
    requires
        old(map).wf(),
        old(dice).wf(),
        old(rooms)@.len() >= 1,
        laid(old(rooms)@, old(tunnels)@, old(map).cols(), old(map).rows()),
        room_in(new_room, old(map).cols(), old(map).rows()),
        new_room.connections == 0,
    ensures
        (Joined {
            grid: final(map)@,
            rooms: final(rooms)@,
            tunnels: final(tunnels)@,
            dice: *final(dice),
        }) == rooms_joined(old(map)@, old(rooms)@, old(tunnels)@, *old(dice), new_room),
        laid(final(rooms)@, final(tunnels)@, old(map).cols(), old(map).rows()),
        final(rooms)@.len() == old(rooms)@.len() + 1,
        final(rooms)@[0].center_spec() == old(rooms)@[0].center_spec(),
        apart(old(rooms)@) && !overlaps_any(old(rooms)@, new_room) ==> apart(final(rooms)@),
        keeps_open(old(map)@, final(map)@),
        corridors_open(old(map)@, old(rooms)@, old(tunnels)@) ==> corridors_open(
            final(map)@,
            final(rooms)@,
            final(tunnels)@,
        ),
        final(map).wf(),
        final(map).rows() == old(map).rows(),
        final(map).cols() == old(map).cols(),
        final(dice).wf(),
{
    let last = rooms.len() - 1;
    let (new_x, new_y) = new_room.center();
    let (prev_x, prev_y) = rooms[last].center();
    let chance = dice.roll(0, 100);
    let kind = pick_tunnel(chance, (prev_x, prev_y), (new_x, new_y), map);
    let ghost g0 = map@;
    assert(map.in_bounds(prev_x as int, prev_y as int) && map.in_bounds(new_x as int, new_y as int)) by {
        assert(room_in(rooms@[last as int], map.cols(), map.rows()));
        assert(map@[prev_x as int].len() == map.rows());
        assert(map@[new_x as int].len() == map.rows());
    }
    dig_tunnel(kind, (prev_x, prev_y), (new_x, new_y), map);
    let ghost r0 = rooms@;
    let prev = rooms[last];
    assert(counted(r0));
    assert(r0[last as int].connections <= 1);
    rooms[last] = Rect { connections: prev.connections + 1, ..prev };
    rooms.push(Rect { connections: 1, ..new_room });
    tunnels.push(Tunnel { from: last, to: last + 1, kind });
    assert(rooms@ =~= r0.update(last as int, one_more(prev)).push(one_more(new_room)));
    proof {
        assert forall|i: int| 0 <= i < rooms@.len() implies room_in(
            #[trigger] rooms@[i],
            map.cols(),
            map.rows(),
        ) by {
            if i < r0.len() {
                assert(room_in(r0[i], map.cols(), map.rows()));
            }
        }
        assert(counted(rooms@)) by {
            assert forall|i: int| 0 <= i < rooms@.len() implies (#[trigger] rooms@[i]).connections == (
            if i > 0 {
                1int
            } else {
                0int
            }) + (if i < rooms@.len() - 1 {
                1int
            } else {
                0int
            }) by {
                if i < r0.len() {
                    assert(r0[i].connections == (if i > 0 {
                        1int
                    } else {
                        0int
                    }) + (if i < r0.len() - 1 {
                        1int
                    } else {
                        0int
                    }));
                }
            }
        }
        assert(chained(tunnels@)) by {
            assert forall|k: int| 0 <= k < tunnels@.len() implies (#[trigger] tunnels@[k]).from == k
                && tunnels@[k].to == k + 1 by {
                if k < last {
                    assert(tunnels@[k] == old(tunnels)@[k]);
                }
            }
        }
        if corridors_open(g0, r0, old(tunnels)@) {
            lemma_corridors_stay_open(g0, map@, r0, old(tunnels)@);
            assert forall|k: int| 0 <= k < tunnels@.len() && k + 1 < rooms@.len() implies corridor_open(
                map@,
                (#[trigger] tunnels@[k]).kind,
                rooms@[k].center_spec(),
                rooms@[k + 1].center_spec(),
            ) by {
                if k < last {
                    assert(tunnels@[k] == old(tunnels)@[k]);
                    assert(rooms@[k].center_spec() == r0[k].center_spec());
                    assert(rooms@[k + 1].center_spec() == r0[k + 1].center_spec());
                    assert(corridor_open(
                        map@,
                        old(tunnels)@[k].kind,
                        r0[k].center_spec(),
                        r0[k + 1].center_spec(),
                    ));
                }
            }
        }
        if apart(r0) && !overlaps_any(r0, new_room) {
            assert forall|i: int, j: int| 0 <= i < j < rooms@.len() implies !(
            #[trigger] rooms@[j]).intersects(#[trigger] rooms@[i]) by {
                if j < r0.len() {
                    assert(!r0[j].intersects(r0[i]));
                } else {
                    assert(!new_room.intersects(r0[i]));
                }
            }
        }
    }
}

/// One round of room building on the generator's work.
#[verifier::rlimit(40)]
pub fn add_room(
    map: &mut TileGrid,
    objects: &mut Vec<Object>,
    rooms: &mut Vec<Rect>,
    tunnels: &mut Vec<Tunnel>,
    dice: &mut Dice,
    config: &GenConfig,
)
    requires
        config.valid(),
        old(dice).wf(),
        sound(old(map), old(objects)@, old(rooms)@, old(tunnels)@, *config),
    ensures
        (GenState {
            grid: final(map)@,
            objects: arena(final(objects)@),
            rooms: final(rooms)@,
            tunnels: final(tunnels)@,
            dice: *final(dice),
        }) == room_step(
            GenState {
                grid: old(map)@,
                objects: arena(old(objects)@),
                rooms: old(rooms)@,
                tunnels: old(tunnels)@,
                dice: *old(dice),
            },
            *config,
        ),
        final(dice).wf(),
        sound(final(map), final(objects)@, final(rooms)@, final(tunnels)@, *config),
        old(rooms)@.len() == 0 ==> final(rooms)@.len() == 1,
        old(rooms)@.len() <= final(rooms)@.len(),
        only_moved(old(objects)@[PLAYER as int]@, final(objects)@[PLAYER as int]@),
        keeps_open(old(map)@, final(map)@),
        corridors_open(old(map)@, old(rooms)@, old(tunnels)@) ==> corridors_open(
            final(map)@,
            final(rooms)@,
            final(tunnels)@,
        ),
        old(objects)@.len() <= final(objects)@.len(),
        forall|i: int| 1 <= i < old(objects)@.len() ==> #[trigger] final(objects)@[i] == old(objects)@[i],
        standing_open(
            final(map)@,
            final(objects)@,
            old(objects)@.len() as int,
            final(objects)@.len() as int,
        ),
{
    let new_room = draw_room(dice, config);
    let failed = config.reject_overlaps && any_intersects(rooms, &new_room);
    if !failed {
        let ghost g0 = map@;
        create_room(new_room, objects, map, dice, config);
        let ghost g1 = map@;
        if rooms.len() == 0 {
            let (new_x, new_y) = new_room.center();
            let ghost o1 = objects@;
            objects[PLAYER].set_pos(new_x, new_y);
            assert(arena(objects@) =~= arena(o1).update(
                PLAYER as int,
                put(arena(o1)[PLAYER as int], new_room.center_spec()),
            ));
            rooms.push(new_room);
            proof {
                if corridors_open(g0, old(rooms)@, old(tunnels)@) {
                    lemma_corridors_stay_open(g0, map@, old(rooms)@, old(tunnels)@);
                }
                lemma_wf_kept(o1, objects@);
            }
        } else {
            join_rooms(new_room, map, rooms, tunnels, dice);
            proof {
                lemma_keeps_open_twice(g0, g1, map@);
                lemma_standing_stays_open(
                    g1,
                    map@,
                    objects@,
                    old(objects)@.len() as int,
                    objects@.len() as int,
                );
                if corridors_open(g0, old(rooms)@, old(tunnels)@) {
                    lemma_corridors_stay_open(g0, g1, old(rooms)@, old(tunnels)@);
                }
            }
        }
    }
}

/// Some tunnel of `tunnels` joins the rooms `a` and `b`.
pub open spec fn joined_by(tunnels: Seq<Tunnel>, a: int, b: int) -> bool {
    exists|k: int|
        0 <= k < tunnels.len() && ((#[trigger] tunnels[k]).from == a && tunnels[k].to == b
            || tunnels[k].from == b && tunnels[k].to == a)
}

/// Each room of `path` is joined to the next by a tunnel.
pub open spec fn walk(tunnels: Seq<Tunnel>, path: Seq<int>) -> bool {
    forall|i: int| 0 <= i < path.len() - 1 ==> joined_by(tunnels, #[trigger] path[i], path[i + 1])
}

/// Room `to` can be reached from room `from` through tunnels.
pub open spec fn reachable(tunnels: Seq<Tunnel>, from: int, to: int) -> bool {
    exists|path: Seq<int>|
        #[trigger] walk(tunnels, path) && path.len() > 0 && path[0] == from && path.last() == to
}

/// Every one of `rooms` rooms can be reached from the first.
pub open spec fn connected(tunnels: Seq<Tunnel>, rooms: int) -> bool {
    forall|r: int| 0 <= r < rooms ==> #[trigger] reachable(tunnels, 0, r)
}

/// Rooms that are joined each to the next form a connected graph: every
/// room is reached from the first by walking through the rooms before it.
pub proof fn lemma_chain_connected(tunnels: Seq<Tunnel>, rooms: int)
    requires
        chained(tunnels),
        rooms <= tunnels.len() + 1,
    ensures
        connected(tunnels, rooms),
{
    assert forall|r: int| 0 <= r < rooms implies #[trigger] reachable(tunnels, 0, r) by {
        let path = Seq::new((r + 1) as nat, |i: int| i);
        assert forall|i: int| 0 <= i < path.len() - 1 implies joined_by(
            tunnels,
            #[trigger] path[i],
            path[i + 1],
        ) by {
            assert(tunnels[i].from == i && tunnels[i].to == i + 1);
        }
        assert(walk(tunnels, path));
        assert(path[0] == 0 && path.last() == r);
    }
}

/// A walk leads from the centre of the first room to the centre of every
/// room.
pub open spec fn all_reachable(g: GridView, rooms: Seq<Rect>) -> bool {
    forall|r: int|
        0 <= r < rooms.len() ==> joined_by_walk(g, rooms[0].center_spec(), (#[trigger] rooms[r]).center_spec())
}

/// A walk leads from the centre of the first room through the centre of
/// every room before room `r`, in the order in which the rooms were made,
/// to the centre of room `r`.
pub proof fn lemma_centre_reachable(g: GridView, rooms: Seq<Rect>, tunnels: Seq<Tunnel>, r: int)
    requires
        corridors_open(g, rooms, tunnels),
        tunnels.len() + 1 == rooms.len(),
        rooms.len() >= 2,
        0 <= r < rooms.len(),
    ensures
        joined_by_walk(g, rooms[0].center_spec(), rooms[r].center_spec()),
    decreases r,
{
    if r == 0 {
        let c = rooms[0].center_spec();
        assert(corridor_open(g, tunnels[0].kind, rooms[0].center_spec(), rooms[1].center_spec()));
        let path = seq![c];
        assert(is_walk(g, path));
        assert(path[0] == c && path.last() == c);
    } else {
        lemma_centre_reachable(g, rooms, tunnels, r - 1);
        assert(corridor_open(
            g,
            tunnels[r - 1].kind,
            rooms[r - 1].center_spec(),
            rooms[r - 1 + 1].center_spec(),
        ));
        lemma_walks_join(g, rooms[0].center_spec(), rooms[r - 1].center_spec(), rooms[r].center_spec());
    }
}

/// With two rooms or more, no room is cut off: the tunnels, taken one
/// after the other, are a walk from the centre of the first room to the
/// centre of every room.
pub proof fn lemma_all_reachable(g: GridView, rooms: Seq<Rect>, tunnels: Seq<Tunnel>)
    requires
        corridors_open(g, rooms, tunnels),
        tunnels.len() + 1 == rooms.len(),
        rooms.len() >= 2,
    ensures
        all_reachable(g, rooms),
{
    assert forall|r: int| 0 <= r < rooms.len() implies joined_by_walk(
        g,
        rooms[0].center_spec(),
        (#[trigger] rooms[r]).center_spec(),
    ) by {
        lemma_centre_reachable(g, rooms, tunnels, r);
    }
}

/// What the generator hands back besides the entities: the grid, the
/// rooms in the order they were made, and the tunnels between them.
#[derive(Debug)]
pub struct Dungeon {
    pub map: TileGrid,
    pub rooms: Vec<Rect>,
    pub tunnels: Vec<Tunnel>,
}

/// Builds the map for `config`: rooms with their entities and tunnels,
/// pools, and the stairs. The player, who is the first of `objects`, is
/// put in the middle of the first room; the stairs are the last entity,
/// in the middle of the last room.
#[verifier::rlimit(40)]
pub fn make_map(objects: &mut Vec<Object>, config: &GenConfig, dice: &mut Dice) -> (d: Dungeon)
    requires
        config.valid(),
        old(dice).wf(),
        old(objects)@.len() >= 1,
        all_wf(old(objects)@),
    ensures
        (GenState {
            grid: d.map@,
            objects: arena(final(objects)@),
            rooms: d.rooms@,
            tunnels: d.tunnels@,
            dice: *final(dice),
        }) == mapped(arena(old(objects)@), *config, *old(dice)),
        sound(&d.map, final(objects)@, d.rooms@, d.tunnels@, *config),
        d.rooms@.len() >= 1,
        final(objects)@.len() >= 2,
        final(objects)@[PLAYER as int]@ == put(old(objects)@[PLAYER as int]@, d.rooms@[0].center_spec()),
        final(objects)@.last()@ == stairs_at(d.rooms@.last().center_spec()),
        connected(d.tunnels@, d.rooms@.len() as int),
        corridors_open(d.map@, d.rooms@, d.tunnels@),
        d.rooms@.len() >= 2 ==> all_reachable(d.map@, d.rooms@),
        d.rooms@.len() >= 2 ==> joined_by_walk(
            d.map@,
            (final(objects)@[PLAYER as int].x as int, final(objects)@[PLAYER as int].y as int),
            (final(objects)@.last().x as int, final(objects)@.last().y as int),
        ),
        standing_open(
            d.map@,
            final(objects)@,
            old(objects)@.len() as int,
            final(objects)@.len() - 1,
        ),
        final(dice).wf(),
{
    let mut map = TileGrid::new(config.width, config.height);
    let mut rooms: Vec<Rect> = Vec::new();
    let mut tunnels: Vec<Tunnel> = Vec::new();
    let ghost start = GenState {
        grid: map@,
        objects: arena(objects@),
        rooms: rooms@,
        tunnels: tunnels@,
        dice: *dice,
    };
    let mut i: i32 = 0;
    while i < config.max_rooms
        invariant
            0 <= i <= config.max_rooms,
            config.valid(),
            dice.wf(),
            sound(&map, objects@, rooms@, tunnels@, *config),
            only_moved(old(objects)@[PLAYER as int]@, objects@[PLAYER as int]@),
            corridors_open(map@, rooms@, tunnels@),
            1 <= old(objects)@.len() <= objects@.len(),
            standing_open(map@, objects@, old(objects)@.len() as int, objects@.len() as int),
            i > 0 ==> rooms@.len() >= 1,
            rooms_built(start, *config, config.max_rooms as nat) == rooms_built(
                GenState {
                    grid: map@,
                    objects: arena(objects@),
                    rooms: rooms@,
                    tunnels: tunnels@,
                    dice: *dice,
                },
                *config,
                (config.max_rooms - i) as nat,
            ),
        decreases config.max_rooms - i,
    {
        let ghost g0 = map@;
        let ghost o0 = objects@;
        add_room(&mut map, objects, &mut rooms, &mut tunnels, dice, config);
        proof {
            lemma_standing_stays_open(
                g0,
                map@,
                o0,
                old(objects)@.len() as int,
                o0.len() as int,
            );
            assert forall|i: int| old(objects)@.len() <= i < objects@.len() implies open_at(
                map@,
                (#[trigger] objects@[i]).x as int,
                objects@[i].y as int,
            ) by {
                if i < o0.len() {
                    assert(objects@[i] == o0[i]);
                    assert(open_at(map@, o0[i].x as int, o0[i].y as int));
                }
            }
        }
        i = i + 1;
    }
    let ghost g_built = map@;
    let ghost d_built = *dice;
    let mut k: usize = 0;
    while k < rooms.len()
        invariant
            k <= rooms@.len(),
            config.valid(),
            dice.wf(),
            sound(&map, objects@, rooms@, tunnels@, *config),
            only_moved(old(objects)@[PLAYER as int]@, objects@[PLAYER as int]@),
            corridors_open(map@, rooms@, tunnels@),
            1 <= old(objects)@.len() <= objects@.len(),
            standing_open(map@, objects@, old(objects)@.len() as int, objects@.len() as int),
            watered(g_built, d_built, rooms@, 0) == watered(map@, *dice, rooms@, k as int),
        decreases rooms@.len() - k,
    {
        if dice.roll(0, 2) == 1 {
            let ghost g0 = map@;
            create_water(rooms[k], &mut map, dice);
            proof {
                lemma_corridors_stay_open(g0, map@, rooms@, tunnels@);
                lemma_standing_stays_open(
                    g0,
                    map@,
                    objects@,
                    old(objects)@.len() as int,
                    objects@.len() as int,
                );
            }
        }
        k = k + 1;
    }
    let (last_room_x, last_room_y) = rooms[rooms.len() - 1].center();
    let mut stairs = Object::new(
        last_room_x,
        last_room_y,
        '<',
        String::from_str("stairs"),
        white(),
        false,
    );
    stairs.always_visible = true;
    let ghost before = objects@;
    objects.push(stairs);
    proof {
        assert(arena(objects@) =~= arena(before).push(stairs_at(rooms@.last().center_spec())));
        lemma_chain_connected(tunnels@, rooms@.len() as int);
        if rooms@.len() >= 2 {
            lemma_all_reachable(map@, rooms@, tunnels@);
            assert(objects@[PLAYER as int] == before[PLAYER as int]);
            assert(joined_by_walk(map@, rooms@[0].center_spec(), rooms@.last().center_spec()));
        }
    }
    Dungeon { map, rooms, tunnels }
}

/// A generated level: the grid, the entities with the player first and
/// the stairs last, the rooms, the tunnels and the place of the stairs.
#[derive(Debug)]
pub struct Level {
    pub map: TileGrid,
    pub objects: Vec<Object>,
    pub rooms: Vec<Rect>,
    pub tunnels: Vec<Tunnel>,
    pub stairs: (i32, i32),
}

/// A level as the contracts see it.
pub struct LevelView {
    pub grid: GridView,
    pub objects: Seq<ObjectView>,
    pub rooms: Seq<Rect>,
    pub tunnels: Seq<Tunnel>,
    pub stairs: (int, int),
}

impl View for Level {
    type V = LevelView;

    open spec fn view(&self) -> LevelView {
        LevelView {
            grid: self.map@,
            objects: arena(self.objects@),
            rooms: self.rooms@,
            tunnels: self.tunnels@,
            stairs: (self.stairs.0 as int, self.stairs.1 as int),
        }
    }
}

/// The player at the start of a game.
pub open spec fn hero() -> ObjectView {
    ObjectView {
        alive: true,
        fighter: Some(
            Fighter {
                max_hp: 30,
                hp: 30,
                max_mana: 15,
                mana: 15,
                defense: 2,
                power: 5,
                on_death: DeathCallback::Player,
            },
        ),
        ..ObjectView::plain(40, 25, '@', "Player"@, white(), true)
    }
}

/// Makes the player at the start of a game.
pub fn new_player() -> (p: Object)
    ensures
        p@ == hero(),
        p.wf(),
{
    let mut player = Object::new(40, 25, '@', String::from_str("Player"), white(), true);
    player.alive = true;
    player.fighter = Some(
        Fighter {
            max_hp: 30,
            hp: 30,
            max_mana: 15,
            mana: 15,
            defense: 2,
            power: 5,
            on_death: DeathCallback::Player,
        },
    );
    player
}

/// The level that `seed` and `config` stand for.
pub open spec fn generated(seed: u64, config: GenConfig) -> LevelView {
    let st = mapped(seq![hero()], config, Dice::seeded(seed));
    LevelView {
        grid: st.grid,
        objects: st.objects,
        rooms: st.rooms,
        tunnels: st.tunnels,
        stairs: st.rooms.last().center_spec(),
    }
}

/// Generation repeats itself: two levels generated from the same seed
/// for the same configuration are the same in grid, entities, rooms,
/// tunnels and stairs.
pub proof fn lemma_generation_repeats(a: Level, b: Level, seed: u64, config: GenConfig)
    requires
        a@ == generated(seed, config),
        b@ == generated(seed, config),
    ensures
        a@ == b@,
{
}

/// Generates the level of `seed` for `config`. The result is a function
/// of the two: the same seed and configuration give the same level.
pub fn generate_with(seed: u64, config: &GenConfig) -> (level: Level)
    requires
        config.valid(),
    ensures
        level@ == generated(seed, *config),
        sound(&level.map, level.objects@, level.rooms@, level.tunnels@, *config),
        level.rooms@.len() >= 1,
        level.objects@.len() >= 2,
        level.objects@[PLAYER as int]@ == put(hero(), level.rooms@[0].center_spec()),
        level@.stairs == level.rooms@.last().center_spec(),
        level.objects@.last()@ == stairs_at(level@.stairs),
        connected(level.tunnels@, level.rooms@.len() as int),
        corridors_open(level.map@, level.rooms@, level.tunnels@),
        level.rooms@.len() >= 2 ==> all_reachable(level.map@, level.rooms@),
        level.rooms@.len() >= 2 ==> joined_by_walk(
            level.map@,
            (level.objects@[PLAYER as int].x as int, level.objects@[PLAYER as int].y as int),
            level@.stairs,
        ),
        standing_open(level.map@, level.objects@, 1, level.objects@.len() - 1),
{
    let mut dice = Dice::from_seed(seed);
    let mut objects: Vec<Object> = Vec::new();
    objects.push(new_player());
    assert(arena(objects@) =~= seq![hero()]);
    let d = make_map(&mut objects, config, &mut dice);
    let stairs = d.rooms[d.rooms.len() - 1].center();
    Level { map: d.map, objects, rooms: d.rooms, tunnels: d.tunnels, stairs }
}

/// The configuration that `generate` uses for a grid of `width` by
/// `height` cells and `room_count` tries: everything else as in
/// `GenConfig::standard`.
pub open spec fn sized(width: i32, height: i32, room_count: i32) -> GenConfig {
    GenConfig { width, height, max_rooms: room_count, ..GenConfig::standard() }
}

/// Generates a level of `width` by `height` cells with up to `room_count`
/// rooms from `seed`, or nothing if a standard room does not fit the grid
/// or no room is asked for.
pub fn generate(seed: u64, width: i32, height: i32, room_count: i32) -> (r: Option<Level>)
    ensures
        r.is_some() <==> sized(width, height, room_count).valid(),
        r matches Some(level) ==> {
            &&& level@ == generated(seed, sized(width, height, room_count))
            &&& sound(
                &level.map,
                level.objects@,
                level.rooms@,
                level.tunnels@,
                sized(width, height, room_count),
            )
            &&& level.rooms@.len() >= 1
            &&& level.objects@.len() >= 2
            &&& level.objects@[PLAYER as int]@ == put(hero(), level.rooms@[0].center_spec())
            &&& level@.stairs == level.rooms@.last().center_spec()
            &&& level.objects@.last()@ == stairs_at(level@.stairs)
            &&& connected(level.tunnels@, level.rooms@.len() as int)
            &&& corridors_open(level.map@, level.rooms@, level.tunnels@)
            &&& level.rooms@.len() >= 2 ==> all_reachable(level.map@, level.rooms@)
            &&& level.rooms@.len() >= 2 ==> joined_by_walk(
                level.map@,
                (level.objects@[PLAYER as int].x as int, level.objects@[PLAYER as int].y as int),
                level@.stairs,
            )
            &&& standing_open(level.map@, level.objects@, 1, level.objects@.len() - 1)
        },
{
    let config = GenConfig { width, height, max_rooms: room_count, ..GenConfig::standard() };
    if config.is_valid() {
        Some(generate_with(seed, &config))
    } else {
        None
    }
}

} // verus!
