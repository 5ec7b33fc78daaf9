use roguelike::dice::Dice;
use roguelike::map::{Shape, Tile, TileGrid};
use roguelike::mapgen::{
    carve_room, create_circle, create_d_tunnel, create_h_tunnel, create_room, create_v_tunnel,
    create_water, dig_tunnel, generate, line_is_walkable, pick_tunnel,
    generate_with, make_map, new_player, place_objects, GenConfig, Level, TunnelKind,
};
use roguelike::object::Object;
use roguelike::rect::{Circle, Rect};

fn small() -> GenConfig {
    GenConfig {
        width: 60,
        height: 40,
        max_rooms: 12,
        room_min_size: 5,
        room_max_size: 10,
        max_room_monsters: 3,
        max_room_items: 3,
        reject_overlaps: false,
        pillar_rooms: true,
    }
}

fn same_object(a: &Object, b: &Object) -> bool {
    a.x == b.x
        && a.y == b.y
        && a.glyph == b.glyph
        && a.color == b.color
        && a.name == b.name
        && a.blocks == b.blocks
        && a.alive == b.alive
        && a.fighter == b.fighter
        && a.ai == b.ai
        && a.item == b.item
        && a.torch_radius == b.torch_radius
        && a.always_visible == b.always_visible
}

fn same_level(a: &Level, b: &Level) -> bool {
    if a.map.width() != b.map.width() || a.map.height() != b.map.height() {
        return false;
    }
    for x in 0..a.map.width() {
        for y in 0..a.map.height() {
            if a.map.get(x, y) != b.map.get(x, y) {
                return false;
            }
        }
    }
    a.objects.len() == b.objects.len()
        && a.objects.iter().zip(b.objects.iter()).all(|(p, q)| same_object(p, q))
        && a.rooms == b.rooms
        && a.tunnels == b.tunnels
        && a.stairs == b.stairs
}

#[test]
fn same_seed_gives_the_same_level() {
    let a = generate_with(7, &small());
    let b = generate_with(7, &small());
    assert!(same_level(&a, &b));
}

#[test]
fn different_seeds_give_different_levels() {
    let a = generate_with(1, &small());
    let b = generate_with(2, &small());
    assert!(!same_level(&a, &b));
}

#[test]
fn standard_level_has_the_standard_size() {
    let level = generate(42, 881, 501, 138).unwrap();
    assert_eq!(level.map.width(), 881);
    assert_eq!(level.map.height(), 501);
    assert_eq!(level.rooms.len(), 138);
    assert_eq!(level.tunnels.len(), 137);
}

#[test]
fn generate_refuses_a_grid_too_small_for_a_room() {
    assert!(generate(1, 30, 501, 10).is_none());
    assert!(generate(1, 881, 30, 10).is_none());
    assert!(generate(1, 881, 501, 0).is_none());
    assert!(generate(1, 31, 31, 1).is_some());
}

#[test]
fn config_validity() {
    assert!(GenConfig::standard().is_valid());
    assert!(small().is_valid());
    assert!(!GenConfig { room_min_size: 4, ..small() }.is_valid());
    assert!(!GenConfig { room_max_size: 4, ..small() }.is_valid());
    assert!(!GenConfig { max_room_monsters: -1, ..small() }.is_valid());
    assert!(!GenConfig { max_room_items: i32::MAX, ..small() }.is_valid());
}

#[test]
fn player_starts_in_the_first_room_and_stairs_end_in_the_last() {
    for seed in 0..20u64 {
        let level = generate_with(seed, &small());
        let first = level.rooms[0].center();
        let last = level.rooms[level.rooms.len() - 1].center();
        assert_eq!(level.objects[0].pos(), first);
        assert_eq!(level.objects[0].name, "Player");
        let stairs = &level.objects[level.objects.len() - 1];
        assert_eq!(stairs.pos(), last);
        assert_eq!(level.stairs, last);
        assert_eq!(stairs.glyph, '<');
        assert_eq!(stairs.name, "stairs");
        assert!(stairs.always_visible);
        assert!(!stairs.blocks);
    }
}

#[test]
fn rooms_are_chained_by_tunnels() {
    for seed in 0..20u64 {
        let level = generate_with(seed, &small());
        assert_eq!(level.tunnels.len() + 1, level.rooms.len());
        for (k, t) in level.tunnels.iter().enumerate() {
            assert_eq!(t.from, k);
            assert_eq!(t.to, k + 1);
        }
        let n = level.rooms.len();
        for (i, room) in level.rooms.iter().enumerate() {
            let expected = (if i > 0 { 1 } else { 0 }) + (if i + 1 < n { 1 } else { 0 });
            assert_eq!(room.connections, expected);
            assert!(room.connections <= 2);
        }
    }
}

#[test]
fn rooms_lie_on_the_grid() {
    for seed in 0..20u64 {
        let config = small();
        let level = generate_with(seed, &config);
        for room in level.rooms.iter() {
            assert!(0 <= room.x1 && room.x1 + 5 <= room.x2 && room.x2 < config.width);
            assert!(0 <= room.y1 && room.y1 + 5 <= room.y2 && room.y2 < config.height);
            assert!(room.x2 - room.x1 <= config.room_max_size);
            assert!(room.y2 - room.y1 <= config.room_max_size);
        }
    }
}

#[test]
fn rejected_overlaps_leave_rooms_apart() {
    for seed in 0..20u64 {
        let config = GenConfig { reject_overlaps: true, ..small() };
        let level = generate_with(seed, &config);
        for i in 0..level.rooms.len() {
            for j in (i + 1)..level.rooms.len() {
                assert!(!level.rooms[i].intersects_with(&level.rooms[j]));
            }
        }
    }
}

#[test]
fn tunnels_of_an_elbow_are_open() {
    for seed in 0..20u64 {
        let level = generate_with(seed, &small());
        for t in level.tunnels.iter() {
            let (ax, ay) = level.rooms[t.from].center();
            let (bx, by) = level.rooms[t.to].center();
            let walk_h = |y: i32| {
                for x in ax.min(bx)..=ax.max(bx) {
                    assert!(!level.map.get(x, y).blocked);
                }
            };
            let walk_v = |x: i32| {
                for y in ay.min(by)..=ay.max(by) {
                    assert!(!level.map.get(x, y).blocked);
                }
            };
            match t.kind {
                TunnelKind::HorizontalFirst => {
                    walk_h(ay);
                    walk_v(bx);
                }
                TunnelKind::VerticalFirst => {
                    walk_v(ax);
                    walk_h(by);
                }
                TunnelKind::Diagonal => {
                    assert!(!level.map.get(ax, ay).blocked);
                    assert!(!level.map.get(bx, by).blocked);
                }
            }
        }
    }
}

#[test]
fn entities_stand_on_open_cells_inside_the_grid() {
    for seed in 0..20u64 {
        let level = generate_with(seed, &small());
        for o in level.objects.iter() {
            assert!(level.map.contains(o.x, o.y));
            assert!(!level.map.get(o.x, o.y).blocked);
        }
        for o in level.objects.iter().skip(1) {
            if o.fighter.is_some() {
                assert!(o.blocks);
                assert!(o.alive);
                assert!(o.ai.is_some());
                assert!(o.item.is_none());
            }
        }
    }
}

#[test]
fn monsters_have_the_statistics_of_their_kind() {
    let level = generate_with(3, &GenConfig { max_rooms: 30, ..small() });
    let mut seen = 0;
    for o in level.objects.iter().skip(1) {
        if let Some(f) = o.fighter {
            seen += 1;
            match o.name.as_str() {
                "Duergar" => assert_eq!((o.glyph, f.max_hp, f.hp, f.defense, f.power), ('d', 10, 10, 0, 2)),
                "Troll" => assert_eq!((o.glyph, f.max_hp, f.hp, f.defense, f.power), ('T', 15, 15, 1, 4)),
                "Goblin" => assert_eq!((o.glyph, f.max_hp, f.hp, f.defense, f.power), ('g', 12, 12, 1, 3)),
                other => panic!("unknown monster {}", other),
            }
        }
    }
    assert!(seen > 0);
}

#[test]
fn a_new_grid_is_all_rock() {
    let map = TileGrid::new(4, 3);
    assert_eq!(map.width(), 4);
    assert_eq!(map.height(), 3);
    for x in 0..4 {
        for y in 0..3 {
            assert_eq!(map.get(x, y), Tile::wall());
        }
    }
    assert!(map.contains(3, 2));
    assert!(!map.contains(4, 0));
    assert!(!map.contains(0, 3));
    assert!(!map.contains(-1, 0));
}

#[test]
fn horizontal_tunnel_is_two_cells_thick() {
    let mut map = TileGrid::new(10, 10);
    create_h_tunnel(6, 2, 4, &mut map);
    for x in 0..10 {
        for y in 0..10 {
            let dug = (2..=7).contains(&x) && (4..=5).contains(&y);
            assert_eq!(map.get(x, y), if dug { Tile::empty() } else { Tile::wall() });
        }
    }
}

#[test]
fn vertical_tunnel_is_two_cells_thick() {
    let mut map = TileGrid::new(10, 10);
    create_v_tunnel(1, 5, 3, &mut map);
    for x in 0..10 {
        for y in 0..10 {
            let dug = (3..=4).contains(&x) && (1..=6).contains(&y);
            assert_eq!(map.get(x, y), if dug { Tile::empty() } else { Tile::wall() });
        }
    }
}

#[test]
fn tunnel_at_the_edge_stays_on_the_grid() {
    let mut map = TileGrid::new(5, 5);
    create_h_tunnel(3, 4, 4, &mut map);
    for x in 0..5 {
        for y in 0..5 {
            let dug = (3..=4).contains(&x) && y == 4;
            assert_eq!(map.get(x, y), if dug { Tile::empty() } else { Tile::wall() });
        }
    }
}

#[test]
fn diagonal_tunnel_follows_the_line() {
    let mut map = TileGrid::new(10, 10);
    create_d_tunnel(1, 4, 0, 6, &mut map);
    let line = [(0, 1), (1, 1), (2, 2), (3, 2), (4, 3), (5, 3)];
    for x in 0..10i32 {
        for y in 0..10i32 {
            let dug = line
                .iter()
                .any(|&(px, py)| (x == px || x == px + 1) && (y == py || y == py + 1));
            assert_eq!(map.get(x, y), if dug { Tile::empty() } else { Tile::wall() });
        }
    }
}

#[test]
fn diagonal_tunnel_between_equal_points_digs_nothing() {
    let mut map = TileGrid::new(6, 6);
    create_d_tunnel(2, 2, 2, 2, &mut map);
    for x in 0..6 {
        for y in 0..6 {
            assert_eq!(map.get(x, y), Tile::wall());
        }
    }
}

#[test]
fn painting_a_pillar_shape() {
    let mut map = TileGrid::new(10, 10);
    map.paint(1, 9, 1, 9, Shape::Pillar { col_x1: 4, col_y2: 5, col_x2: 4 }, Tile::floor('.'));
    for x in 0..10 {
        for y in 0..10 {
            let inside = (1..9).contains(&x) && (1..9).contains(&y);
            let dug = inside && ((x < 4 && y < 5) || (y > 5 && x > 4));
            assert_eq!(map.get(x, y), if dug { Tile::floor('.') } else { Tile::wall() });
        }
    }
}

#[test]
fn circle_is_filled_where_the_disc_covers() {
    let mut map = TileGrid::new(12, 12);
    create_circle(Circle::new(0, 0, 8), &mut map);
    for x in 0..12i32 {
        for y in 0..12i32 {
            let wet = (1..9).contains(&x) && (1..9).contains(&y) && x * x + y * y < 32;
            assert_eq!(map.get(x, y), if wet { Tile::water() } else { Tile::wall() });
        }
    }
    assert_eq!(Circle::new(2, 4, 8).center(), (5, 6));
}

#[test]
fn water_stays_inside_the_grid_and_is_open() {
    for seed in 0..50u64 {
        let mut map = TileGrid::new(20, 20);
        let mut dice = Dice::from_seed(seed);
        let room = Rect::new(9, 9, 10, 10);
        create_water(room, &mut map, &mut dice);
        for x in 0..20 {
            for y in 0..20 {
                let t = map.get(x, y);
                assert!(t == Tile::wall() || t == Tile::water());
                if t == Tile::water() {
                    assert!(x > 10 && y > 10);
                }
            }
        }
    }
}

#[test]
fn placed_entities_are_inside_the_room_on_free_cells() {
    for seed in 0..30u64 {
        let mut map = TileGrid::new(30, 30);
        let room = Rect::new(5, 5, 10, 8);
        map.paint(6, 15, 6, 13, Shape::Block, Tile::floor('.'));
        let mut objects = vec![new_player()];
        let mut dice = Dice::from_seed(seed);
        let config = small();
        place_objects(room, &mut objects, &map, &mut dice, &config);
        assert!(objects.len() <= 1 + 6);
        assert_eq!(objects[0].name, "Player");
        for o in objects.iter().skip(1) {
            assert!(room.x1 < o.x && o.x < room.x2);
            assert!(room.y1 < o.y && o.y < room.y2);
        }
        for i in 1..objects.len() {
            for j in (i + 1)..objects.len() {
                if objects[i].blocks && objects[j].blocks {
                    assert_ne!(objects[i].pos(), objects[j].pos());
                }
            }
        }
    }
}

#[test]
fn a_room_is_carved_and_populated() {
    for seed in 0..30u64 {
        let mut map = TileGrid::new(30, 30);
        let room = Rect::new(5, 5, 12, 9);
        let mut objects = vec![new_player()];
        let mut dice = Dice::from_seed(seed);
        create_room(room, &mut objects, &mut map, &mut dice, &small());
        let mut floor = 0;
        for x in 0..30 {
            for y in 0..30 {
                let t = map.get(x, y);
                if t != Tile::wall() {
                    assert_eq!(t, Tile::floor('.'));
                    assert!(room.x1 < x && x < room.x2 && room.y1 < y && y < room.y2);
                    floor += 1;
                }
            }
        }
        assert!(floor >= 5);
        assert!(floor < 11 * 8);
        for o in objects.iter().skip(1) {
            assert_eq!(map.get(o.x, o.y), Tile::floor('.'));
        }
    }
}

#[test]
fn nothing_is_placed_in_a_room_of_rock() {
    let map = TileGrid::new(30, 30);
    let room = Rect::new(5, 5, 10, 8);
    let mut objects = vec![new_player()];
    let mut dice = Dice::from_seed(9);
    place_objects(room, &mut objects, &map, &mut dice, &small());
    assert_eq!(objects.len(), 1);
}

#[test]
fn make_map_keeps_the_player_first() {
    let mut objects = vec![new_player()];
    let mut dice = Dice::from_seed(5);
    let d = make_map(&mut objects, &small(), &mut dice);
    assert_eq!(objects[0].name, "Player");
    assert_eq!(objects[0].pos(), d.rooms[0].center());
    assert_eq!(objects[0].fighter.unwrap().hp, 30);
    assert!(objects.len() >= 2);
}

#[test]
fn whole_rooms_are_carved_whole() {
    let config = GenConfig { pillar_rooms: false, max_rooms: 1, max_room_monsters: 0, max_room_items: 0, ..small() };
    let level = generate_with(11, &config);
    let room = level.rooms[0];
    for x in (room.x1 + 1)..room.x2 {
        for y in (room.y1 + 1)..room.y2 {
            assert!(!level.map.get(x, y).blocked);
        }
    }
}

#[test]
fn whole_rooms_may_be_three_cells_wide() {
    let config = GenConfig {
        width: 20,
        height: 20,
        max_rooms: 6,
        room_min_size: 3,
        room_max_size: 4,
        pillar_rooms: false,
        ..small()
    };
    assert!(config.is_valid());
    assert!(!GenConfig { pillar_rooms: true, ..config }.is_valid());
    assert!(!GenConfig { room_min_size: 2, ..config }.is_valid());
    for seed in 0..20u64 {
        let level = generate_with(seed, &config);
        assert_eq!(level.rooms.len(), 6);
        for room in level.rooms.iter() {
            assert!(room.x2 - room.x1 >= 3 && room.x2 - room.x1 <= 4);
            assert!(!level.map.get(room.x1 + 1, room.y1 + 1).blocked);
        }
    }
}

#[test]
fn rect_center_and_intersection() {
    let r = Rect::new(2, 4, 10, 6);
    assert_eq!((r.x1, r.y1, r.x2, r.y2, r.connections), (2, 4, 12, 10, 0));
    assert_eq!(r.center(), (7, 7));
    assert_eq!(Rect::new(-5, -3, 2, 2).center(), (-4, -2));
    assert!(r.intersects_with(&Rect::new(12, 10, 3, 3)));
    assert!(!r.intersects_with(&Rect::new(13, 4, 3, 3)));
    assert!(!r.intersects_with(&Rect::new(2, 11, 3, 3)));
}

fn reached(level: &Level) -> Vec<Vec<bool>> {
    let (w, h) = (level.map.width(), level.map.height());
    let mut seen = vec![vec![false; h as usize]; w as usize];
    let start = level.objects[0].pos();
    let mut stack = vec![start];
    seen[start.0 as usize][start.1 as usize] = true;
    while let Some((x, y)) = stack.pop() {
        for dx in -1..=1 {
            for dy in -1..=1 {
                let (nx, ny) = (x + dx, y + dy);
                if level.map.contains(nx, ny)
                    && !level.map.get(nx, ny).blocked
                    && !seen[nx as usize][ny as usize]
                {
                    seen[nx as usize][ny as usize] = true;
                    stack.push((nx, ny));
                }
            }
        }
    }
    seen
}

#[test]
fn every_room_centre_is_reached_from_the_player() {
    for seed in 0..40u64 {
        let level = generate_with(seed, &small());
        assert!(level.rooms.len() >= 2);
        assert!(!level.map.get(level.objects[0].x, level.objects[0].y).blocked);
        let seen = reached(&level);
        for room in level.rooms.iter() {
            let (cx, cy) = room.center();
            assert!(seen[cx as usize][cy as usize]);
        }
        assert!(seen[level.stairs.0 as usize][level.stairs.1 as usize]);
    }
}

#[test]
fn diagonal_tunnels_are_dug_and_reach_both_centres() {
    let mut diagonals = 0;
    for seed in 0..40u64 {
        let level = generate_with(seed, &small());
        for t in level.tunnels.iter() {
            if t.kind == TunnelKind::Diagonal {
                diagonals += 1;
            }
        }
    }
    assert!(diagonals > 0);

    let mut map = TileGrid::new(12, 12);
    dig_tunnel(TunnelKind::Diagonal, (2, 3), (8, 6), &mut map);
    assert_eq!(map.get(2, 3), Tile::empty());
    assert_eq!(map.get(8, 6), Tile::empty());
    assert_eq!(map.get(9, 7), Tile::empty());
    assert_eq!(map.get(5, 4), Tile::empty());
    assert_eq!(map.get(10, 6), Tile::wall());
    let mut same = TileGrid::new(12, 12);
    dig_tunnel(TunnelKind::Diagonal, (4, 4), (4, 4), &mut same);
    for x in 0..12 {
        for y in 0..12 {
            let dug = (4..=5).contains(&x) && (4..=5).contains(&y);
            assert_eq!(same.get(x, y), if dug { Tile::empty() } else { Tile::wall() });
        }
    }
}

#[test]
fn a_line_is_walkable_when_its_points_follow_one_another() {
    let map = TileGrid::new(10, 10);
    assert!(line_is_walkable(&vec![(1, 1), (2, 2), (3, 2)], (1, 1), (4, 3), &map));
    assert!(line_is_walkable(&vec![(1, 1), (2, 2), (3, 2)], (0, 0), (3, 1), &map));
    assert!(!line_is_walkable(&vec![(1, 1), (3, 2)], (1, 1), (4, 3), &map));
    assert!(!line_is_walkable(&vec![(1, 1), (2, 2)], (1, 1), (4, 3), &map));
    assert!(!line_is_walkable(&vec![(3, 3), (4, 4)], (1, 1), (5, 5), &map));
    assert!(!line_is_walkable(&vec![(9, 9), (10, 10)], (9, 9), (10, 10), &map));
    assert!(!line_is_walkable(&vec![(-1, 0), (0, 0)], (0, 0), (1, 0), &map));
    assert!(!line_is_walkable(&vec![(i64::MAX, 0)], (0, 0), (1, 0), &map));
    assert!(line_is_walkable(&vec![], (4, 4), (5, 3), &map));
    assert!(line_is_walkable(&vec![], (4, 4), (4, 4), &map));
    assert!(!line_is_walkable(&vec![], (4, 4), (6, 4), &map));
}

#[test]
fn the_kind_of_tunnel_follows_the_draw() {
    let map = TileGrid::new(30, 30);
    for chance in 0..10 {
        assert_eq!(pick_tunnel(chance, (3, 4), (20, 11), &map), TunnelKind::Diagonal);
        assert_eq!(pick_tunnel(chance, (20, 11), (3, 4), &map), TunnelKind::Diagonal);
        assert_eq!(pick_tunnel(chance, (5, 5), (5, 5), &map), TunnelKind::Diagonal);
        assert_eq!(pick_tunnel(chance, (3, 4), (40, 11), &map), TunnelKind::HorizontalFirst);
    }
    for chance in 10..50 {
        assert_eq!(pick_tunnel(chance, (3, 4), (20, 11), &map), TunnelKind::HorizontalFirst);
    }
    for chance in 50..100 {
        assert_eq!(pick_tunnel(chance, (3, 4), (20, 11), &map), TunnelKind::VerticalFirst);
    }
}

#[test]
fn the_pillar_stands_inside_the_room_with_a_drawn_offset() {
    let room = Rect::new(3, 4, 14, 12);
    let (mut offset_x, mut offset_y) = (false, false);
    for seed in 0..60u64 {
        let mut map = TileGrid::new(30, 30);
        let mut dice = Dice::from_seed(seed);
        match carve_room(room, &mut map, &mut dice, true) {
            Shape::Pillar { col_x1, col_y2, col_x2 } => {
                assert!(room.x1 + 2 <= col_x1 && col_x1 <= col_x2 && col_x2 < room.x2 - 2);
                assert!(room.y1 + 2 <= col_y2 && col_y2 < room.y2 - 2);
                offset_x = offset_x || col_x2 > col_x1;
                offset_y = offset_y || col_y2 > room.y1 + 2;
                for x in 0..30 {
                    for y in 0..30 {
                        let inside = room.x1 < x && x < room.x2 && room.y1 < y && y < room.y2;
                        let dug = inside && ((x < col_x1 && y < col_y2) || (y > col_y2 && x > col_x2));
                        assert_eq!(map.get(x, y), if dug { Tile::floor('.') } else { Tile::wall() });
                    }
                }
            }
            other => panic!("not a pillar: {:?}", other),
        }
        let mut whole = TileGrid::new(30, 30);
        assert_eq!(carve_room(room, &mut whole, &mut dice, false), Shape::Block);
    }
    assert!(offset_x && offset_y);
}

#[test]
fn a_room_takes_no_more_than_its_share_of_entities() {
    let config = GenConfig { max_room_monsters: 2, max_room_items: 1, ..small() };
    for seed in 0..40u64 {
        let mut map = TileGrid::new(30, 30);
        map.paint(6, 15, 6, 13, Shape::Block, Tile::floor('.'));
        let mut objects = vec![new_player()];
        let mut dice = Dice::from_seed(seed);
        place_objects(Rect::new(5, 5, 10, 8), &mut objects, &map, &mut dice, &config);
        assert!(objects.len() <= 1 + 3);
        assert!(objects.iter().skip(1).filter(|o| o.fighter.is_some()).count() <= 2);
        assert!(objects.iter().skip(1).filter(|o| o.item.is_some()).count() <= 1);
    }
}
