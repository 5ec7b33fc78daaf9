//! What the presentation layer reads each frame: which tiles have been
//! explored and in what colour they show, the order in which entities are
//! drawn, the camera, and the lines of the menus.

use vstd::prelude::*;
use crate::color::Color;
use crate::fov::{seen, FovMap};
use crate::map::{on_grid, GridView, Tile, TileGrid};
use crate::object::{arena, Object, ObjectView};
use crate::rect::toward_zero;
use crate::store::PLAYER;
use crate::text::{char_to_string, join, joined, texts};

verus! {

/// Width of the screen in cells.
pub const SCREEN_WIDTH: i32 = 80;

/// Height of the screen in cells.
pub const SCREEN_HEIGHT: i32 = 50;

/// The part of the grid that is on screen: its corner and its size.
#[derive(Clone, Copy, Debug, PartialEq, Eq, Structural)]
pub struct Window {
    pub x: i32,
    pub y: i32,
    pub width: i32,
    pub height: i32,
}

/// The cell `(x, y)` lies in the window `w`.
pub open spec fn in_window(w: Window, x: int, y: int) -> bool {
    w.x <= x < w.x + w.width && w.y <= y < w.y + w.height
}

/// `t`, explored.
pub open spec fn explored(t: Tile) -> Tile {
    Tile { explored: true, ..t }
}

/// `g` after a visibility update: every cell of the window that is in
/// view is explored, and nothing else changes.
pub open spec fn explored_view(g: GridView, fov: Seq<Seq<bool>>, w: Window) -> GridView {
    Seq::new(
        g.len(),
        |x: int|
            Seq::new(
                g[x].len(),
                |y: int|
                    if in_window(w, x, y) && seen(fov, x, y) {
                        explored(g[x][y])
                    } else {
                        g[x][y]
                    },
            ),
    )
}

/// Marks every cell of `window` that is in view as explored.
pub fn explore(map: &mut TileGrid, fov_map: &FovMap, window: Window)
    requires
        old(map).wf(),
    ensures
        final(map)@ == explored_view(old(map)@, fov_map@, window),
        final(map).wf(),
        final(map).rows() == old(map).rows(),
        final(map).cols() == old(map).cols(),
{
    let width: i64 = map.width() as i64;
    let height: i64 = map.height() as i64;
    let x_hi: i64 = window.x as i64 + window.width as i64;
    let y_hi: i64 = window.y as i64 + window.height as i64;
    let x_from: i64 = if window.x < 0 { 0 } else { window.x as i64 };
    let x_to: i64 = if x_hi > width { width } else { x_hi };
    let y_from: i64 = if window.y < 0 { 0 } else { window.y as i64 };
    let y_to: i64 = if y_hi > height { height } else { y_hi };
    let mut x: i64 = x_from;
    while x < x_to
        invariant
            map.wf(),
            old(map).wf(),
            map.rows() == old(map).rows() == height,
            map.cols() == old(map).cols() == width,
            0 <= x_from <= x,
            x <= x_to || x == x_from,
            x_to <= width,
            x_from == (if window.x < 0 { 0 } else { window.x as int }),
            x_to == (if window.x + window.width > width { width as int } else { window.x + window.width }),
            y_from == (if window.y < 0 { 0 } else { window.y as int }),
            y_to == (if window.y + window.height > height { height as int } else { window.y + window.height }),
            forall|i: int, j: int|
                0 <= i < width && 0 <= j < height ==> #[trigger] map@[i][j] == (if i < x
                    && in_window(window, i, j) && seen(fov_map@, i, j) {
                    explored(old(map)@[i][j])
                } else {
                    old(map)@[i][j]
                }),
        decreases x_to - x,
    {
        let mut y: i64 = y_from;
        while y < y_to
            invariant
                map.wf(),
                old(map).wf(),
                map.rows() == old(map).rows() == height,
                map.cols() == old(map).cols() == width,
                0 <= x < x_to <= width,
                window.x <= x < window.x + window.width,
                0 <= y_from <= y,
                y <= y_to || y == y_from,
                y_to <= height,
                y_from == (if window.y < 0 { 0 } else { window.y as int }),
                y_to == (if window.y + window.height > height { height as int } else { window.y + window.height }),
                forall|i: int, j: int|
                    0 <= i < width && 0 <= j < height ==> #[trigger] map@[i][j] == (if (i < x || (i
                        == x && j < y)) && in_window(window, i, j) && seen(fov_map@, i, j) {
                        explored(old(map)@[i][j])
                    } else {
                        old(map)@[i][j]
                    }),
            decreases y_to - y,
        {
            if fov_map.is_in_fov(x as i32, y as i32) {
                let tile = map.get(x as i32, y as i32);
                map.set(x as i32, y as i32, Tile { explored: true, ..tile });
            }
            y = y + 1;
        }
        x = x + 1;
    }
    assert(map@ =~~= explored_view(old(map)@, fov_map@, window)) by {
        assert forall|i: int| 0 <= i < width implies #[trigger] map@[i] =~= explored_view(
            old(map)@,
            fov_map@,
            window,
        )[i] by {
            assert(map@[i].len() == height);
            assert(old(map)@[i].len() == height);
            assert forall|j: int| 0 <= j < height implies map@[i][j] == explored_view(
                old(map)@,
                fov_map@,
                window,
            )[i][j] by {
                assert(map@[i][j] == (if i < x && in_window(window, i, j) && seen(fov_map@, i, j) {
                    explored(old(map)@[i][j])
                } else {
                    old(map)@[i][j]
                }));
            }
        }
    }
}

/// One visibility update: what is in view, and the window it is applied
/// to.
pub struct Sight {
    pub fov: Seq<Seq<bool>>,
    pub window: Window,
}

/// `g` after the visibility updates `updates`, first to last.
pub open spec fn explored_through(g: GridView, updates: Seq<Sight>) -> GridView
    decreases updates.len(),
{
    if updates.len() == 0 {
        g
    } else {
        explored_view(
            explored_through(g, updates.drop_last()),
            updates.last().fov,
            updates.last().window,
        )
    }
}

/// From `g` to `r` the grid has kept its shape, every tile that was
/// explored is still explored, and no tile differs from what it was in
/// anything but in having become explored.
pub open spec fn never_lost(g: GridView, r: GridView) -> bool {
    &&& r.len() == g.len()
    &&& forall|x: int| 0 <= x < g.len() ==> (#[trigger] r[x]).len() == g[x].len()
    &&& forall|x: int, y: int| #[trigger]
        on_grid(g, x, y) ==> (g[x][y].explored ==> r[x][y].explored) && (r[x][y] == g[x][y]
            || r[x][y] == explored(g[x][y]))
}

/// Exploration is never lost, whatever visibility updates follow one
/// another.
pub proof fn lemma_explored_never_lost(g: GridView, updates: Seq<Sight>)
    ensures
        never_lost(g, explored_through(g, updates)),
    decreases updates.len(),
{
    if updates.len() > 0 {
        lemma_explored_never_lost(g, updates.drop_last());
        let before = explored_through(g, updates.drop_last());
        let after = explored_through(g, updates);
        assert forall|x: int| 0 <= x < g.len() implies (#[trigger] after[x]).len() == g[x].len() by {
            assert(before[x].len() == g[x].len());
        }
        assert forall|x: int, y: int| #[trigger] on_grid(g, x, y) implies (g[x][y].explored
            ==> after[x][y].explored) && (after[x][y] == g[x][y] || after[x][y] == explored(
            g[x][y],
        )) by {
            assert(before[x].len() == g[x].len());
            assert(on_grid(before, x, y));
        }
    }
}

/// A colour channel on the way from `from` to `to`: `from` plus the
/// fraction `num / den` of the difference, rounded toward `from`.
pub open spec fn blend(from: u8, to: u8, num: int, den: int) -> int {
    from + toward_zero((to - from) * num, den)
}

/// The smaller of two numbers.
pub open spec fn least(a: int, b: int) -> int {
    if a <= b {
        a
    } else {
        b
    }
}

/// The colour of a tile in view at squared distance `dist2` from a torch
/// of radius `radius`: the lit colour at the torch, the dark colour at the
/// radius and beyond, and in between the lit colour shifted toward the
/// dark one by the square of the distance over the radius.
pub open spec fn torch_color(light: Color, dark: Color, dist2: int, radius: int) -> Color {
    if radius <= 0 {
        dark
    } else {
        let den = radius * radius;
        let num = least(dist2, den);
        Color {
            r: blend(light.r, dark.r, num, den) as u8,
            g: blend(light.g, dark.g, num, den) as u8,
            b: blend(light.b, dark.b, num, den) as u8,
        }
    }
}

/// The product of a difference of two channels and a fraction's numerator
/// is no longer than the difference times the denominator, so the blended
/// channel lies between the two.
proof fn lemma_blend_bounds(from: u8, to: u8, num: int, den: int)
    requires
        0 <= num <= den,
        0 < den,
    ensures
        0 <= blend(from, to, num, den) <= 255,
{
    let d = to - from;
    if d >= 0 {
        assert(0 <= d * num <= d * den) by (nonlinear_arith)
            requires
                0 <= d,
                0 <= num <= den,
        ;
        assert((d * num) / den <= d) by (nonlinear_arith)
            requires
                0 <= d * num <= d * den,
                0 < den,
        ;
        assert(0 <= (d * num) / den) by (nonlinear_arith)
            requires
                0 <= d * num,
                0 < den,
        ;
    } else {
        let e = -d;
        assert(-(d * num) == e * num) by (nonlinear_arith)
            requires
                e == -d,
        ;
        assert(0 <= e * num <= e * den) by (nonlinear_arith)
            requires
                0 <= e,
                0 <= num <= den,
        ;
        assert((e * num) / den <= e) by (nonlinear_arith)
            requires
                0 <= e * num <= e * den,
                0 < den,
        ;
        assert(0 <= (e * num) / den) by (nonlinear_arith)
            requires
                0 <= e * num,
                0 < den,
        ;
    }
}

fn blend_channel(from: u8, to: u8, num: i128, den: i128) -> (c: u8)
    requires
        0 <= num <= den,
        0 < den <= 0x4000_0000_0000_0000,
    ensures
        c == blend(from, to, num as int, den as int),
{
    let d: i128 = to as i128 - from as i128;
    proof {
        lemma_blend_bounds(from, to, num as int, den as int);
        assert(-255 * 0x4000_0000_0000_0000 <= d * num <= 255 * 0x4000_0000_0000_0000)
            by (nonlinear_arith)
            requires
                -255 <= d <= 255,
                0 <= num <= 0x4000_0000_0000_0000,
        ;
    }
    let shift: i128 = (d * num) / den;
    (from as i128 + shift) as u8
}

/// Computes the colour of a tile in view at squared distance
/// `distance_squared` from a torch of radius `torch_radius`.
pub fn lit_color(light: Color, dark: Color, distance_squared: u128, torch_radius: i32) -> (c: Color)
    ensures
        c == torch_color(light, dark, distance_squared as int, torch_radius as int),
{
    if torch_radius <= 0 {
        return dark;
    }
    let r: i128 = torch_radius as i128;
    assert(0 < r * r <= 0x8000_0000 * 0x8000_0000) by (nonlinear_arith)
        requires
            0 < r <= 0x8000_0000,
    ;
    let den: i128 = r * r;
    let num: i128 = if distance_squared < den as u128 {
        distance_squared as i128
    } else {
        den
    };
    Color {
        r: blend_channel(light.r, dark.r, num, den),
        g: blend_channel(light.g, dark.g, num, den),
        b: blend_channel(light.b, dark.b, num, den),
    }
}

/// The colour in which a tile shows, if it shows: a tile in view in its
/// torch colour, a tile out of view in its dark colour if it has been
/// explored, and not at all otherwise.
pub open spec fn shown_color(tile: Tile, visible: bool, dist2: int, radius: int) -> Option<Color> {
    if visible {
        Some(torch_color(tile.light_color, tile.dark_color, dist2, radius))
    } else if tile.explored {
        Some(tile.dark_color)
    } else {
        None
    }
}

/// Computes the colour in which `tile` shows, if it shows.
pub fn display_color(tile: &Tile, visible: bool, distance_squared: u128, torch_radius: i32) -> (c: Option<
    Color,
>)
    ensures
        c == shown_color(*tile, visible, distance_squared as int, torch_radius as int),
{
    if visible {
        Some(lit_color(tile.light_color, tile.dark_color, distance_squared, torch_radius))
    } else if tile.explored {
        Some(tile.dark_color)
    } else {
        None
    }
}

/// The entity is drawn: it is always visible, or it stands in view.
pub open spec fn drawn(o: ObjectView, fov: Seq<Seq<bool>>) -> bool {
    o.always_visible || seen(fov, o.x as int, o.y as int)
}

/// The slots among the first `n` whose entities are drawn and block, or
/// do not block, as `blocking` says; in rising order.
pub open spec fn drawn_slots(objects: Seq<ObjectView>, fov: Seq<Seq<bool>>, blocking: bool, n: nat) -> Seq<
    usize,
>
    decreases n,
{
    if n == 0 {
        Seq::empty()
    } else {
        let rest = drawn_slots(objects, fov, blocking, (n - 1) as nat);
        if drawn(objects[n - 1], fov) && objects[n - 1].blocks == blocking {
            rest.push((n - 1) as usize)
        } else {
            rest
        }
    }
}

/// The slots of the entities to draw, in drawing order: those that do not
/// block first, then those that block, each group in the order of the
/// arena.
pub open spec fn drawing_order(objects: Seq<ObjectView>, fov: Seq<Seq<bool>>) -> Seq<usize> {
    drawn_slots(objects, fov, false, objects.len()) + drawn_slots(objects, fov, true, objects.len())
}

/// Lists the slots of the entities to draw, in drawing order.
pub fn draw_order(objects: &[Object], fov_map: &FovMap) -> (order: Vec<usize>)
    ensures
        order@ == drawing_order(arena(objects@), fov_map@),
{
    let mut order: Vec<usize> = Vec::new();
    let mut i: usize = 0;
    while i < objects.len()
        invariant
            i <= objects@.len(),
            order@ == drawn_slots(arena(objects@), fov_map@, false, i as nat),
        decreases objects@.len() - i,
    {
        let o = &objects[i];
        if (o.always_visible || fov_map.is_in_fov(o.x, o.y)) && !o.blocks {
            order.push(i);
        }
        i = i + 1;
    }
    let ghost first = order@;
    let mut k: usize = 0;
    while k < objects.len()
        invariant
            k <= objects@.len(),
            order@ == first + drawn_slots(arena(objects@), fov_map@, true, k as nat),
        decreases objects@.len() - k,
    {
        let o = &objects[k];
        if (o.always_visible || fov_map.is_in_fov(o.x, o.y)) && o.blocks {
            order.push(k);
            assert(order@ =~= first + drawn_slots(arena(objects@), fov_map@, true, (k + 1) as nat));
        }
        k = k + 1;
    }
    order
}

/// One coordinate of the camera after it has followed the player: it
/// moves by one toward a player who is ahead of it, or more than one cell
/// behind it.
pub open spec fn camera_after(c: int, p: int) -> int {
    if p - c < -1 {
        c - 1
    } else if p - c > 0 {
        c + 1
    } else {
        c
    }
}

/// Lets the camera follow the player by at most one cell on each axis.
pub fn handle_camera(camera: &mut (i32, i32), objects: &[Object])
    requires
        PLAYER < objects@.len(),
    ensures
        final(camera).0 == camera_after(old(camera).0 as int, objects@[PLAYER as int].x as int),
        final(camera).1 == camera_after(old(camera).1 as int, objects@[PLAYER as int].y as int),
{
    let px: i64 = objects[PLAYER].x as i64;
    let py: i64 = objects[PLAYER].y as i64;
    if px - (camera.0 as i64) < -1 {
        camera.0 = camera.0 - 1;
    } else if px - (camera.0 as i64) > 0 {
        camera.0 = camera.0 + 1;
    }
    if py - (camera.1 as i64) < -1 {
        camera.1 = camera.1 - 1;
    } else if py - (camera.1 as i64) > 0 {
        camera.1 = camera.1 + 1;
    }
}

/// One coordinate of the window's corner for a camera at `c` on a screen
/// of `size` cells: half a screen before the camera, and never negative.
pub open spec fn corner(c: int, size: int) -> int {
    if c - size / 2 < 1 {
        0
    } else {
        c - size / 2
    }
}

/// The window of the screen around the camera.
pub fn window_at(camera: (i32, i32)) -> (w: Window)
    ensures
        w.x == corner(camera.0 as int, SCREEN_WIDTH as int),
        w.y == corner(camera.1 as int, SCREEN_HEIGHT as int),
        w.width == SCREEN_WIDTH,
        w.height == SCREEN_HEIGHT,
{
    let x: i32 = if camera.0 < 1 + SCREEN_WIDTH / 2 {
        0
    } else {
        camera.0 - SCREEN_WIDTH / 2
    };
    let y: i32 = if camera.1 < 1 + SCREEN_HEIGHT / 2 {
        0
    } else {
        camera.1 - SCREEN_HEIGHT / 2
    };
    Window { x, y, width: SCREEN_WIDTH, height: SCREEN_HEIGHT }
}

/// The names of the entities among the first `n` that stand on `(x, y)`
/// in view, in the order of the arena.
pub open spec fn names_at(objects: Seq<ObjectView>, fov: Seq<Seq<bool>>, x: int, y: int, n: nat) -> Seq<
    Seq<char>,
>
    decreases n,
{
    if n == 0 {
        Seq::empty()
    } else {
        let rest = names_at(objects, fov, x, y, (n - 1) as nat);
        let o = objects[n - 1];
        if o.x == x && o.y == y && seen(fov, x, y) {
            rest.push(o.name)
        } else {
            rest
        }
    }
}

/// What is written for the cell `(x, y)`: the names of the entities that
/// stand there in view, separated by commas, or the glyph of the tile if
/// there is none.
pub open spec fn label_at(objects: Seq<ObjectView>, grid: GridView, fov: Seq<Seq<bool>>, x: int, y: int) -> Seq<
    char,
> {
    let names = names_at(objects, fov, x, y, objects.len());
    if names.len() == 0 {
        seq![grid[x][y].glyph]
    } else {
        joined(names, ", "@)
    }
}

/// Names what is on the cell `(x, y)`, the cell under the mouse.
pub fn get_names_under_mouse(x: i32, y: i32, objects: &[Object], map: &TileGrid, fov_map: &FovMap) -> (s:
    String)
    requires
        map.wf(),
        map.in_bounds(x as int, y as int),
    ensures
        s@ == label_at(arena(objects@), map@, fov_map@, x as int, y as int),
{
    let tile = map.get(x, y).glyph;
    let mut names: Vec<String> = Vec::new();
    let mut i: usize = 0;
    while i < objects.len()
        invariant
            i <= objects@.len(),
            texts(names@) == names_at(arena(objects@), fov_map@, x as int, y as int, i as nat),
        decreases objects@.len() - i,
    {
        let o = &objects[i];
        if o.x == x && o.y == y && fov_map.is_in_fov(o.x, o.y) {
            let ghost before = names@;
            names.push(o.name.clone());
            assert(texts(names@) =~= texts(before).push(o.name@));
        }
        i = i + 1;
    }
    if names.len() < 1 {
        char_to_string(tile)
    } else {
        join(&names, ", ")
    }
}

} // verus!
