use roguelike::color::{dark_ground, dark_wall, light_ground, light_wall, white, Color};
use roguelike::frame::{distance_squared, render_frame, window_cells, Cell, Status};
use roguelike::game::Game;
use roguelike::mapgen::{new_player, Level};
use roguelike::rect::Rect;
use roguelike::fov::FovMap;
use roguelike::map::{Shape, Tile, TileGrid};
use roguelike::menu::{inventory_choice, inventory_options, menu_choice, menu_line};
use roguelike::object::Object;
use roguelike::text::{decimal, decimal_u32, join, join2, join3};
use roguelike::view::{
    display_color, draw_order, explore, get_names_under_mouse, handle_camera, lit_color, window_at,
    Window, SCREEN_HEIGHT, SCREEN_WIDTH,
};

fn thing(x: i32, y: i32, name: &str, blocks: bool) -> Object {
    Object::new(x, y, 'o', name.to_string(), white(), blocks)
}

fn explored_cells(map: &TileGrid) -> Vec<(i32, i32)> {
    let mut cells = Vec::new();
    for x in 0..map.width() {
        for y in 0..map.height() {
            if map.get(x, y).explored {
                cells.push((x, y));
            }
        }
    }
    cells
}

#[test]
fn cells_in_view_become_explored() {
    let mut map = TileGrid::new(10, 8);
    let mut fov = FovMap::new(10, 8);
    fov.set(2, 3, true);
    fov.set(9, 7, true);
    fov.set(5, 5, true);
    explore(&mut map, &fov, Window { x: 0, y: 0, width: 6, height: 8 });
    assert_eq!(explored_cells(&map), vec![(2, 3), (5, 5)]);
    assert_eq!(map.get(2, 3), Tile::new(true, true, true, '#', light_wall(), dark_wall()));
    assert_eq!(map.get(2, 4), Tile::wall());
}

#[test]
fn explored_cells_stay_explored() {
    let mut map = TileGrid::new(10, 8);
    let everything = Window { x: -5, y: -5, width: 100, height: 100 };
    let mut fov = FovMap::new(10, 8);
    fov.set(2, 3, true);
    explore(&mut map, &fov, everything);
    let dark = FovMap::new(10, 8);
    explore(&mut map, &dark, everything);
    assert_eq!(explored_cells(&map), vec![(2, 3)]);
    let mut other = FovMap::new(10, 8);
    other.set(4, 4, true);
    explore(&mut map, &other, everything);
    assert_eq!(explored_cells(&map), vec![(2, 3), (4, 4)]);
    explore(&mut map, &other, Window { x: 0, y: 0, width: 0, height: 0 });
    assert_eq!(explored_cells(&map), vec![(2, 3), (4, 4)]);
}

#[test]
fn toggling_flips_every_flag() {
    let mut map = TileGrid::new(3, 2);
    let mut fov = FovMap::new(3, 2);
    fov.set(1, 1, true);
    explore(&mut map, &fov, Window { x: 0, y: 0, width: 3, height: 2 });
    map.toggle_explored();
    assert_eq!(explored_cells(&map), vec![(0, 0), (0, 1), (1, 0), (2, 0), (2, 1)]);
    map.toggle_explored();
    assert_eq!(explored_cells(&map), vec![(1, 1)]);
}

#[test]
fn torch_colour_fades_with_the_square_of_the_distance() {
    let light = Color::new(200, 100, 0);
    let dark = Color::new(0, 100, 50);
    assert_eq!(lit_color(light, dark, 0, 10), light);
    assert_eq!(lit_color(light, dark, 100, 10), dark);
    assert_eq!(lit_color(light, dark, 1000, 10), dark);
    assert_eq!(lit_color(light, dark, 25, 10), Color::new(150, 100, 12));
    assert_eq!(lit_color(light, dark, 50, 10), Color::new(100, 100, 25));
    assert_eq!(lit_color(light, dark, 1, 10), Color::new(198, 100, 0));
    assert_eq!(lit_color(light, dark, 0, 0), dark);
    assert_eq!(lit_color(light, dark, 0, -4), dark);
    assert_eq!(lit_color(light, dark, u128::MAX, i32::MAX), dark);
    assert_eq!(lit_color(light, dark, 0, i32::MAX), light);
}

#[test]
fn tiles_show_lit_dark_or_not_at_all() {
    let hidden = Tile::wall();
    let known = Tile::new(true, true, true, '#', light_wall(), dark_wall());
    assert_eq!(display_color(&hidden, false, 4, 10), None);
    assert_eq!(display_color(&known, false, 4, 10), Some(dark_wall()));
    assert_eq!(display_color(&known, true, 0, 10), Some(light_wall()));
    assert_eq!(display_color(&hidden, true, 100, 10), Some(dark_wall()));
}

#[test]
fn what_does_not_block_is_drawn_first() {
    let mut fov = FovMap::new(10, 10);
    for x in 0..5 {
        fov.set(x, 0, true);
    }
    let mut stairs = thing(9, 9, "stairs", false);
    stairs.always_visible = true;
    let objects = vec![
        thing(0, 0, "player", true),
        thing(1, 0, "potion", false),
        thing(7, 7, "hidden", true),
        thing(2, 0, "troll", true),
        stairs,
        thing(3, 0, "scroll", false),
        thing(8, 8, "unseen", false),
    ];
    assert_eq!(draw_order(&objects, &fov), vec![1, 4, 5, 0, 3]);
    assert_eq!(draw_order(&[], &fov), Vec::<usize>::new());
}

#[test]
fn the_camera_follows_by_one_cell() {
    let objects = vec![thing(10, 10, "player", true)];
    let mut camera = (10, 10);
    handle_camera(&mut camera, &objects);
    assert_eq!(camera, (10, 10));
    let mut camera = (11, 9);
    handle_camera(&mut camera, &objects);
    assert_eq!(camera, (11, 10));
    let mut camera = (12, 5);
    handle_camera(&mut camera, &objects);
    assert_eq!(camera, (11, 6));
    let edge = vec![thing(i32::MIN, i32::MAX, "player", true)];
    let mut camera = (i32::MAX, i32::MIN);
    handle_camera(&mut camera, &edge);
    assert_eq!(camera, (i32::MAX - 1, i32::MIN + 1));
}

#[test]
fn the_window_starts_half_a_screen_before_the_camera() {
    assert_eq!((SCREEN_WIDTH, SCREEN_HEIGHT), (80, 50));
    assert_eq!(window_at((100, 100)), Window { x: 60, y: 75, width: 80, height: 50 });
    assert_eq!(window_at((40, 25)), Window { x: 0, y: 0, width: 80, height: 50 });
    assert_eq!(window_at((41, 26)), Window { x: 1, y: 1, width: 80, height: 50 });
    assert_eq!(window_at((i32::MIN, -7)), Window { x: 0, y: 0, width: 80, height: 50 });
    assert_eq!(window_at((i32::MAX, 0)).x, i32::MAX - 40);
}

#[test]
fn names_under_the_mouse() {
    let mut map = TileGrid::new(10, 10);
    map.paint(1, 9, 1, 9, Shape::Block, Tile::empty());
    let mut fov = FovMap::new(10, 10);
    fov.set(2, 2, true);
    let objects = vec![thing(2, 2, "Troll", true), thing(3, 3, "Goblin", true), thing(2, 2, "Pocao de cura", false)];
    assert_eq!(get_names_under_mouse(2, 2, &objects, &map, &fov), "Troll, Pocao de cura");
    assert_eq!(get_names_under_mouse(3, 3, &objects, &map, &fov), ".");
    assert_eq!(get_names_under_mouse(0, 0, &objects, &map, &fov), "#");
    assert_eq!(get_names_under_mouse(4, 4, &[], &map, &fov), ".");
}

#[test]
fn decimal_texts() {
    assert_eq!(decimal(0), "0");
    assert_eq!(decimal(7), "7");
    assert_eq!(decimal(10), "10");
    assert_eq!(decimal(-1), "-1");
    assert_eq!(decimal(1234567890), "1234567890");
    assert_eq!(decimal(i64::MAX), i64::MAX.to_string());
    assert_eq!(decimal(i64::MIN), i64::MIN.to_string());
    assert_eq!(decimal_u32(u32::MAX), "4294967295");
    assert_eq!(decimal_u32(0), "0");
}

#[test]
fn joining_texts() {
    assert_eq!(join2("ab", "cd"), "abcd");
    assert_eq!(join3("a", "", "c"), "ac");
    assert_eq!(join(&vec![], ", "), "");
    assert_eq!(join(&vec!["a".to_string()], ", "), "a");
    assert_eq!(join(&vec!["a".to_string(), "b".to_string(), "c".to_string()], ", "), "a, b, c");
    assert_eq!(join(&vec!["".to_string(), "".to_string()], "-"), "-");
}

#[test]
fn menu_letters() {
    assert_eq!(menu_choice('a', 3), Some(0));
    assert_eq!(menu_choice('C', 3), Some(2));
    assert_eq!(menu_choice('d', 3), None);
    assert_eq!(menu_choice('z', 26), Some(25));
    assert_eq!(menu_choice('1', 26), None);
    assert_eq!(menu_choice(' ', 26), None);
    assert_eq!(menu_choice('a', 0), None);
    assert_eq!(menu_line(0, "Pocao de cura"), "(a) Pocao de cura");
    assert_eq!(menu_line(25, ""), "(z) ");
    assert_eq!(menu_line(26, "x"), "({) x");
    assert_eq!(menu_line(158, "x"), "(\u{ff}) x");
}

#[test]
fn inventory_menu() {
    let empty: Vec<Object> = Vec::new();
    assert_eq!(inventory_options(&empty), vec!["Inventorio vazio.".to_string()]);
    assert_eq!(inventory_choice('a', &empty), None);
    let inventory = vec![Object::heal_potion(0, 0), Object::fire_ball(0, 0)];
    assert_eq!(inventory_options(&inventory), vec!["Pocao de cura".to_string(), "Bola de Fogo".to_string()]);
    assert_eq!(inventory_choice('b', &inventory), Some(1));
    assert_eq!(inventory_choice('c', &inventory), None);
}

fn small_game() -> Game {
    let mut map = TileGrid::new(12, 9);
    map.paint(1, 11, 1, 8, Shape::Block, Tile::empty());
    let mut player = new_player();
    player.set_pos(3, 3);
    player.torch_radius = 2;
    let mut troll = thing(4, 3, "Troll", true);
    troll.alive = true;
    let potion = Object::heal_potion(3, 4);
    let mut stairs = thing(10, 7, "stairs", false);
    stairs.always_visible = true;
    let level = Level {
        map,
        objects: vec![player, troll, potion, stairs],
        rooms: vec![Rect::new(0, 0, 11, 8)],
        tunnels: vec![],
        stairs: (10, 7),
    };
    Game::new(level, 1)
}

#[test]
fn a_frame_shows_what_is_seen_and_what_was_explored() {
    let mut game = small_game();
    let mut fov = FovMap::new(12, 9);
    for &(x, y) in [(3, 3), (4, 3), (3, 4), (2, 3), (3, 1)].iter() {
        fov.set(x, y, true);
    }
    let frame = render_frame(&mut game, &fov);
    assert_eq!(frame.window, Window { x: 0, y: 0, width: 80, height: 50 });
    assert_eq!(
        frame.cells,
        vec![
            Cell { x: 3, y: 1, glyph: '.', color: dark_ground() },
            Cell { x: 2, y: 3, glyph: '.', color: Color::new(193, 63, 50) },
            Cell { x: 3, y: 3, glyph: '.', color: light_ground() },
            Cell { x: 4, y: 3, glyph: '.', color: Color::new(193, 63, 50) },
            Cell { x: 3, y: 4, glyph: '.', color: Color::new(193, 63, 50) },
        ]
    );
    assert_eq!(frame.entities, vec![2, 3, 0, 1]);
    assert_eq!(frame.status, Status { hp: 30, max_hp: 30, mana: 15, max_mana: 15 });
    assert!(game.map.get(3, 1).explored);
    assert!(!game.map.get(5, 5).explored);

    let dark = FovMap::new(12, 9);
    let frame = render_frame(&mut game, &dark);
    assert_eq!(frame.cells.len(), 5);
    assert!(frame.cells.iter().all(|c| c.color == dark_ground()));
    assert_eq!(frame.entities, vec![3]);
}

#[test]
fn window_cells_skip_what_is_off_the_grid() {
    let mut game = small_game();
    game.map.toggle_explored();
    let dark = FovMap::new(12, 9);
    let cells = window_cells(&game, &dark, Window { x: 10, y: 7, width: 5, height: 5 });
    assert_eq!(
        cells,
        vec![
            Cell { x: 10, y: 7, glyph: '.', color: dark_ground() },
            Cell { x: 11, y: 7, glyph: '#', color: dark_wall() },
            Cell { x: 10, y: 8, glyph: '#', color: dark_wall() },
            Cell { x: 11, y: 8, glyph: '#', color: dark_wall() },
        ]
    );
    assert!(window_cells(&game, &dark, Window { x: 0, y: 0, width: -1, height: 9 }).is_empty());
    assert!(window_cells(&game, &dark, Window { x: i32::MAX, y: i32::MAX, width: 3, height: 3 }).is_empty());
    assert_eq!(distance_squared(1, 2, 4, 6), 25);
}

#[test]
fn cells_in_view_off_screen_become_explored_too() {
    let mut map = TileGrid::new(100, 60);
    map.paint(1, 99, 1, 59, Shape::Block, Tile::empty());
    let mut player = new_player();
    player.set_pos(3, 3);
    let level = Level { map, objects: vec![player], rooms: vec![], tunnels: vec![], stairs: (1, 1) };
    let mut game = Game::new(level, 1);
    let mut fov = FovMap::new(100, 60);
    fov.set(90, 55, true);
    fov.set(4, 4, true);
    let frame = render_frame(&mut game, &fov);
    assert!(game.map.get(90, 55).explored);
    assert!(game.map.get(4, 4).explored);
    assert_eq!(frame.cells.len(), 1);
    assert_eq!((frame.cells[0].x, frame.cells[0].y), (4, 4));
}
