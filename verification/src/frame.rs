//! One frame as the presentation layer draws it: the cells of the window
//! that show, the entities in drawing order, and the player's status.

use vstd::prelude::*;
use crate::color::Color;
use crate::fov::{seen, FovMap};
use crate::game::{Game, GameView};
use crate::map::{on_grid, GridView};
use crate::object::ObjectView;
use crate::store::PLAYER;
use crate::view::{
    display_color,
    draw_order,
    drawing_order,
    explore,
    explored,
    shown_color,
    window_at,
    Window,
};

verus! {

/// A cell that shows: where it is, its glyph and its colour.
#[derive(Clone, Copy, Debug, PartialEq, Eq, Structural)]
pub struct Cell {
    pub x: i32,
    pub y: i32,
    pub glyph: char,
    pub color: Color,
}

/// The player's status line.
#[derive(Clone, Copy, Debug, PartialEq, Eq, Structural)]
pub struct Status {
    pub hp: i32,
    pub max_hp: i32,
    pub mana: i32,
    pub max_mana: i32,
}

/// What is drawn in one frame.
#[derive(Debug)]
pub struct Frame {
    /// The part of the grid that is on screen.
    pub window: Window,
    /// The cells of the window that show, row by row.
    pub cells: Vec<Cell>,
    /// The slots of the entities to draw, in drawing order.
    pub entities: Vec<usize>,
    /// The player's points.
    pub status: Status,
}

/// A frame as the contracts see it.
pub struct FrameView {
    pub window: Window,
    pub cells: Seq<Cell>,
    pub entities: Seq<usize>,
    pub status: Status,
}

impl View for Frame {
    type V = FrameView;

    open spec fn view(&self) -> FrameView {
        FrameView {
            window: self.window,
            cells: self.cells@,
            entities: self.entities@,
            status: self.status,
        }
    }
}

/// Squared distance between two cells.
pub open spec fn apart_squared(ax: int, ay: int, bx: int, by: int) -> int {
    (bx - ax) * (bx - ax) + (by - ay) * (by - ay)
}

/// Computes the squared distance between two cells.
pub fn distance_squared(ax: i32, ay: i32, bx: i32, by: i32) -> (d: u128)
    ensures
        d == apart_squared(ax as int, ay as int, bx as int, by as int),
{
    let dx: i128 = bx as i128 - ax as i128;
    let dy: i128 = by as i128 - ay as i128;
    assert(0 <= dx * dx <= 0x1_0000_0000 * 0x1_0000_0000) by (nonlinear_arith)
        requires
            -0x1_0000_0000 <= dx <= 0x1_0000_0000,
    ;
    assert(0 <= dy * dy <= 0x1_0000_0000 * 0x1_0000_0000) by (nonlinear_arith)
        requires
            -0x1_0000_0000 <= dy <= 0x1_0000_0000,
    ;
    (dx * dx + dy * dy) as u128
}

/// The cell `(x, y)` as it shows to a viewer `p`, if it shows: a cell of
/// the grid whose tile has a colour to show in.
pub open spec fn cell_shown(g: GridView, fov: Seq<Seq<bool>>, p: ObjectView, x: int, y: int) -> Option<
    Cell,
> {
    if !on_grid(g, x, y) {
        None
    } else {
        match shown_color(
            g[x][y],
            seen(fov, x, y),
            apart_squared(p.x as int, p.y as int, x, y),
            p.torch_radius as int,
        ) {
            Some(color) => Some(Cell { x: x as i32, y: y as i32, glyph: g[x][y].glyph, color }),
            None => None,
        }
    }
}

/// The cells that show among the first `n` cells of row `y` from column
/// `x_from` on, left to right.
pub open spec fn row_shown(g: GridView, fov: Seq<Seq<bool>>, p: ObjectView, y: int, x_from: int, n: nat) -> Seq<
    Cell,
>
    decreases n,
{
    if n == 0 {
        Seq::empty()
    } else {
        let rest = row_shown(g, fov, p, y, x_from, (n - 1) as nat);
        match cell_shown(g, fov, p, x_from + n - 1, y) {
            Some(c) => rest.push(c),
            None => rest,
        }
    }
}

/// The number of cells along a side of `size`: none for a negative size.
pub open spec fn side(size: i32) -> nat {
    if size > 0 {
        size as nat
    } else {
        0
    }
}

/// The cells that show in the first `m` rows of the window `w`, top to
/// bottom.
pub open spec fn rows_shown(g: GridView, fov: Seq<Seq<bool>>, p: ObjectView, w: Window, m: nat) -> Seq<
    Cell,
>
    decreases m,
{
    if m == 0 {
        Seq::empty()
    } else {
        rows_shown(g, fov, p, w, (m - 1) as nat) + row_shown(
            g,
            fov,
            p,
            w.y + m - 1,
            w.x as int,
            side(w.width),
        )
    }
}

/// The status of `p`: its points, or zeros without a fighter.
pub open spec fn status_of(p: ObjectView) -> Status {
    match p.fighter {
        Some(f) => Status { hp: f.hp, max_hp: f.max_hp, mana: f.mana, max_mana: f.max_mana },
        None => Status { hp: 0, max_hp: 0, mana: 0, max_mana: 0 },
    }
}

/// The frame of a world whose visibility has been taken in.
pub open spec fn framed(g: GameView, fov: Seq<Seq<bool>>, w: Window) -> FrameView {
    let p = g.objects[PLAYER as int];
    FrameView {
        window: w,
        cells: rows_shown(g.grid, fov, p, w, side(w.height)),
        entities: drawing_order(g.objects, fov),
        status: status_of(p),
    }
}

/// The cells of `window` that show to the player, row by row.
pub fn window_cells(game: &Game, fov_map: &FovMap, window: Window) -> (cells: Vec<Cell>)
    requires
        game.map.wf(),
        game.objects@.len() >= 1,
    ensures
        cells@ == rows_shown(
            game@.grid,
            fov_map@,
            game@.objects[PLAYER as int],
            window,
            side(window.height),
        ),
{
    let px = game.objects[PLAYER].x;
    let py = game.objects[PLAYER].y;
    let radius = game.objects[PLAYER].torch_radius;
    let ghost p = game@.objects[PLAYER as int];
    let height: i64 = if window.height > 0 { window.height as i64 } else { 0 };
    let width: i64 = if window.width > 0 { window.width as i64 } else { 0 };
    let mut cells: Vec<Cell> = Vec::new();
    let mut j: i64 = 0;
    while j < height
        invariant
            0 <= j <= height,
            height == side(window.height),
            width == side(window.width),
            game.map.wf(),
            game.objects@.len() >= 1,
            p == game@.objects[PLAYER as int],
            px == p.x,
            py == p.y,
            radius == p.torch_radius,
            cells@ == rows_shown(game@.grid, fov_map@, p, window, j as nat),
        decreases height - j,
    {
        let y: i64 = window.y as i64 + j;
        let ghost above = cells@;
        let mut i: i64 = 0;
        while i < width
            invariant
                0 <= i <= width,
                width == side(window.width),
                y == window.y + j,
                game.map.wf(),
                game.objects@.len() >= 1,
                p == game@.objects[PLAYER as int],
                px == p.x,
                py == p.y,
                radius == p.torch_radius,
                cells@ == above + row_shown(game@.grid, fov_map@, p, y as int, window.x as int, i as nat),
            decreases width - i,
        {
            let x: i64 = window.x as i64 + i;
            let ghost before = cells@;
            if 0 <= x && x <= i32::MAX as i64 && 0 <= y && y <= i32::MAX as i64 && game.map.contains(
                x as i32,
                y as i32,
            ) {
                let tile = game.map.get(x as i32, y as i32);
                let shown = display_color(
                    &tile,
                    fov_map.is_in_fov(x as i32, y as i32),
                    distance_squared(px, py, x as i32, y as i32),
                    radius,
                );
                if let Some(color) = shown {
                    cells.push(Cell { x: x as i32, y: y as i32, glyph: tile.glyph, color });
                }
            } else {
                assert(!on_grid(game@.grid, x as int, y as int)) by {
                    if 0 <= x < game@.grid.len() {
                        assert(game@.grid[x as int].len() == game.map.rows());
                    }
                }
            }
            assert(cells@ =~= above + row_shown(
                game@.grid,
                fov_map@,
                p,
                y as int,
                window.x as int,
                (i + 1) as nat,
            ));
            i = i + 1;
        }
        j = j + 1;
    }
    cells
}

/// `g` with every cell in view explored.
pub open spec fn all_explored(g: GridView, fov: Seq<Seq<bool>>) -> GridView {
    Seq::new(
        g.len(),
        |x: int|
            Seq::new(
                g[x].len(),
                |y: int|
                    if seen(fov, x, y) {
                        explored(g[x][y])
                    } else {
                        g[x][y]
                    },
            ),
    )
}

/// Takes in what the player sees and makes the frame to draw: every cell
/// in view becomes explored, and the frame holds the cells of the window
/// around the camera that show, the entities in drawing order and the
/// player's status.
pub fn render_frame(game: &mut Game, fov_map: &FovMap) -> (frame: Frame)
    requires
        old(game).map.wf(),
        old(game).objects@.len() >= 1,
    ensures
        final(game)@ == (GameView {
            grid: all_explored(old(game)@.grid, fov_map@),
            ..old(game)@
        }),
        frame.window == window_at_spec(old(game).camera),
        frame@ == framed(final(game)@, fov_map@, frame.window),
        final(game).map.wf(),
        final(game).objects == old(game).objects,
        final(game).inventory == old(game).inventory,
        final(game).messages == old(game).messages,
{
    let window = window_at(game.camera);
    let all = Window { x: 0, y: 0, width: game.map.width(), height: game.map.height() };
    explore(&mut game.map, fov_map, all);
    assert(game.map@ =~~= all_explored(old(game).map@, fov_map@)) by {
        assert forall|x: int| 0 <= x < game.map@.len() implies #[trigger] game.map@[x]
            =~= all_explored(old(game).map@, fov_map@)[x] by {
            assert(old(game).map@[x].len() == old(game).map.rows());
        }
    }
    let cells = window_cells(game, fov_map, window);
    let entities = draw_order(game.objects.as_slice(), fov_map);
    let status = match game.objects[PLAYER].fighter {
        Some(f) => Status { hp: f.hp, max_hp: f.max_hp, mana: f.mana, max_mana: f.max_mana },
        None => Status { hp: 0, max_hp: 0, mana: 0, max_mana: 0 },
    };
    Frame { window, cells, entities, status }
}

/// The window of the screen around a camera.
pub open spec fn window_at_spec(camera: (i32, i32)) -> Window {
    Window {
        x: crate::view::corner(camera.0 as int, crate::view::SCREEN_WIDTH as int) as i32,
        y: crate::view::corner(camera.1 as int, crate::view::SCREEN_HEIGHT as int) as i32,
        width: crate::view::SCREEN_WIDTH,
        height: crate::view::SCREEN_HEIGHT,
    }
}

} // verus!
