use roguelike::ai::{ai_basic, ai_confused, ai_scared, ai_take_turn, move_away, move_towards, step};
use roguelike::color::{red, white};
use roguelike::dice::Dice;
use roguelike::enums::{Ai, DeathCallback, EFFECT_TURNS};
use roguelike::fov::FovMap;
use roguelike::map::{Shape, Tile, TileGrid};
use roguelike::messages::MessageLog;
use roguelike::object::{Fighter, Object};

fn open_map() -> TileGrid {
    let mut map = TileGrid::new(20, 20);
    map.paint(1, 19, 1, 19, Shape::Block, Tile::empty());
    map
}

fn all_seen() -> FovMap {
    let mut fov = FovMap::new(20, 20);
    for x in 0..20 {
        for y in 0..20 {
            fov.set(x, y, true);
        }
    }
    fov
}

fn player(x: i32, y: i32) -> Object {
    let mut o = Object::new(x, y, '@', "Player".to_string(), white(), true);
    o.alive = true;
    o.fighter = Some(Fighter { max_hp: 30, hp: 30, max_mana: 15, mana: 15, defense: 2, power: 5, on_death: DeathCallback::Player });
    o
}

fn troll(x: i32, y: i32) -> Object {
    let mut o = Object::new(x, y, 'T', "Troll".to_string(), white(), true);
    o.alive = true;
    o.fighter = Some(Fighter { max_hp: 15, hp: 15, max_mana: 0, mana: 0, defense: 1, power: 4, on_death: DeathCallback::Monster });
    o.ai = Some(Ai::Basic);
    o
}

#[test]
fn step_rounds_the_unit_vector() {
    assert_eq!(step(0, 0), 0);
    assert_eq!(step(5, 0), 1);
    assert_eq!(step(-5, 0), -1);
    assert_eq!(step(0, 5), 0);
    assert_eq!(step(3, 3), 1);
    assert_eq!(step(-3, 3), -1);
    assert_eq!(step(1, 2), 0);
    assert_eq!(step(3, 5), 1);
    assert_eq!(step(4, 7), 0);
    assert_eq!(step(-4, 7), 0);
    assert_eq!(step(0x1_0000_0000, -0x1_0000_0000), 1);
}

#[test]
fn moving_towards_and_away() {
    let map = open_map();
    let mut objects = vec![player(10, 10), troll(5, 10), troll(5, 5), troll(10, 3)];
    move_towards(1, 10, 10, &map, &mut objects);
    assert_eq!(objects[1].pos(), (6, 10));
    move_towards(2, 10, 10, &map, &mut objects);
    assert_eq!(objects[2].pos(), (6, 6));
    move_away(3, 10, 10, &map, &mut objects);
    assert_eq!(objects[3].pos(), (10, 2));
    move_away(2, 10, 10, &map, &mut objects);
    assert_eq!(objects[2].pos(), (5, 5));
    move_towards(0, 10, 10, &map, &mut objects);
    assert_eq!(objects[0].pos(), (10, 10));
}

#[test]
fn a_basic_monster_out_of_view_waits() {
    let map = open_map();
    let fov = FovMap::new(20, 20);
    let mut objects = vec![player(10, 10), troll(5, 10)];
    let mut log = MessageLog::standard();
    let next = ai_basic(1, &map, &mut objects, &fov, &mut log);
    assert_eq!(next, Ai::Basic);
    assert_eq!(objects[1].pos(), (5, 10));
    assert_eq!(log.len(), 0);
}

#[test]
fn a_basic_monster_in_view_approaches() {
    let map = open_map();
    let fov = all_seen();
    let mut objects = vec![player(10, 10), troll(8, 10)];
    let mut log = MessageLog::standard();
    let next = ai_basic(1, &map, &mut objects, &fov, &mut log);
    assert_eq!(next, Ai::Basic);
    assert_eq!(objects[1].pos(), (9, 10));
    assert_eq!(objects[0].fighter.unwrap().hp, 30);
    assert_eq!(log.len(), 0);
}

#[test]
fn a_basic_monster_next_to_the_player_strikes() {
    let map = open_map();
    let fov = all_seen();
    let mut objects = vec![player(10, 10), troll(9, 9)];
    let mut log = MessageLog::standard();
    ai_basic(1, &map, &mut objects, &fov, &mut log);
    assert_eq!(objects[1].pos(), (9, 9));
    assert_eq!(objects[0].fighter.unwrap().hp, 28);
    assert_eq!(log.len(), 1);
    assert_eq!(log.text(0), "Troll ataca Player com 2 pontos de forca.");
}

#[test]
fn a_basic_monster_spares_a_dead_player() {
    let map = open_map();
    let fov = all_seen();
    let mut p = player(10, 10);
    p.fighter = Some(Fighter { hp: 0, ..p.fighter.unwrap() });
    let mut objects = vec![p, troll(9, 10)];
    let mut log = MessageLog::standard();
    ai_basic(1, &map, &mut objects, &fov, &mut log);
    assert_eq!(objects[0].fighter.unwrap().hp, 0);
    assert_eq!(log.len(), 0);
}

#[test]
fn a_monster_can_kill_the_player() {
    let map = open_map();
    let fov = all_seen();
    let mut p = player(10, 10);
    p.fighter = Some(Fighter { hp: 1, ..p.fighter.unwrap() });
    let mut objects = vec![p, troll(9, 10)];
    let mut log = MessageLog::standard();
    ai_basic(1, &map, &mut objects, &fov, &mut log);
    assert_eq!(objects[0].fighter.unwrap().hp, 0);
    assert!(!objects[0].alive);
    assert_eq!(objects[0].glyph, '%');
    assert_eq!(objects[0].name, "Player");
    assert_eq!(log.len(), 2);
    assert_eq!(log.text(1), "Voce morreu!");
}

#[test]
fn confusion_wears_off_after_six_turns() {
    let map = open_map();
    let fov = all_seen();
    let mut monster = troll(5, 5);
    monster.ai = Some(Ai::Basic.confused());
    let mut objects = vec![player(15, 15), monster];
    let mut log = MessageLog::new(50);
    let mut dice = Dice::from_seed(3);
    for turn in 0..6 {
        assert!(matches!(objects[1].ai, Some(Ai::Confused { .. })), "turn {}", turn);
        assert_eq!(log.len(), 0);
        ai_take_turn(1, &map, &mut objects, &fov, &mut log, &mut dice);
    }
    assert_eq!(objects[1].ai, Some(Ai::Basic));
    assert_eq!(log.len(), 1);
    assert_eq!(log.text(0), "Troll nao esta mais confuso");
    assert_eq!(log.color(0), red());
    for _ in 0..5 {
        ai_take_turn(1, &map, &mut objects, &fov, &mut log, &mut dice);
    }
    assert_eq!(log.len(), 1);
}

#[test]
fn confusion_counts_down() {
    assert_eq!(EFFECT_TURNS, 5);
    let map = open_map();
    let mut objects = vec![player(15, 15), troll(5, 5)];
    let mut log = MessageLog::standard();
    let mut dice = Dice::from_seed(8);
    let next = ai_confused(1, &map, &mut objects, &mut log, Box::new(Ai::Basic), 3, &mut dice);
    assert_eq!(next, Ai::Confused { previous: Box::new(Ai::Basic), turns: 2 });
    let (x, y) = objects[1].pos();
    assert!((x - 5).abs() <= 1 && (y - 5).abs() <= 1);
    assert_eq!(log.len(), 0);
    let next = ai_confused(1, &map, &mut objects, &mut log, Box::new(Ai::Basic.scared()), 0, &mut dice);
    assert_eq!(next, Ai::Basic.scared());
    assert_eq!(log.len(), 1);
    let next = ai_confused(1, &map, &mut objects, &mut log, Box::new(Ai::Basic), i32::MIN, &mut dice);
    assert_eq!(next, Ai::Basic);
}

#[test]
fn a_confused_monster_stumbles_about() {
    let map = open_map();
    let fov = all_seen();
    let mut monster = troll(10, 10);
    monster.ai = Some(Ai::Confused { previous: Box::new(Ai::Basic), turns: 1000 });
    let mut objects = vec![player(2, 2), monster];
    let mut log = MessageLog::standard();
    let mut dice = Dice::from_seed(4);
    let mut moved = false;
    for _ in 0..50 {
        let before = objects[1].pos();
        ai_take_turn(1, &map, &mut objects, &fov, &mut log, &mut dice);
        let after = objects[1].pos();
        assert!((after.0 - before.0).abs() <= 1 && (after.1 - before.1).abs() <= 1);
        assert!(!map.get(after.0, after.1).blocked);
        moved = moved || after != before;
    }
    assert!(moved);
}

#[test]
fn a_scared_monster_flees_while_it_is_seen() {
    let map = open_map();
    let fov = all_seen();
    let mut objects = vec![player(10, 10), troll(8, 10)];
    let mut log = MessageLog::standard();
    let next = ai_scared(1, &map, &mut objects, &fov, &mut log, Box::new(Ai::Basic), 5);
    assert_eq!(next, Ai::Scared { previous: Box::new(Ai::Basic), turns: 4 });
    assert_eq!(objects[1].pos(), (7, 10));
    let next = ai_scared(1, &map, &mut objects, &fov, &mut log, Box::new(Ai::Basic), 0);
    assert_eq!(next, Ai::Basic);
    assert_eq!(objects[1].pos(), (7, 10));
    let dark = FovMap::new(20, 20);
    let next = ai_scared(1, &map, &mut objects, &dark, &mut log, Box::new(Ai::Basic), 5);
    assert_eq!(next, Ai::Basic);
    assert_eq!(objects[1].pos(), (7, 10));
    assert_eq!(log.len(), 0);
}

#[test]
fn fear_wears_off() {
    let map = open_map();
    let fov = all_seen();
    let mut monster = troll(10, 10);
    monster.ai = Some(Ai::Basic.scared());
    let mut objects = vec![player(12, 10), monster];
    let mut log = MessageLog::standard();
    let mut dice = Dice::from_seed(1);
    for _ in 0..5 {
        assert!(matches!(objects[1].ai, Some(Ai::Scared { .. })));
        ai_take_turn(1, &map, &mut objects, &fov, &mut log, &mut dice);
    }
    assert_eq!(objects[1].ai, Some(Ai::Scared { previous: Box::new(Ai::Basic), turns: 0 }));
    assert_eq!(objects[1].pos(), (5, 10));
    ai_take_turn(1, &map, &mut objects, &fov, &mut log, &mut dice);
    assert_eq!(objects[1].ai, Some(Ai::Basic));
}

#[test]
fn an_entity_without_a_state_does_nothing() {
    let map = open_map();
    let fov = all_seen();
    let mut idle = troll(9, 10);
    idle.ai = None;
    let mut objects = vec![player(10, 10), idle];
    let mut log = MessageLog::standard();
    let mut dice = Dice::from_seed(1);
    let before = dice;
    ai_take_turn(1, &map, &mut objects, &fov, &mut log, &mut dice);
    assert_eq!(objects[1].pos(), (9, 10));
    assert_eq!(objects[1].ai, None);
    assert_eq!(objects[0].fighter.unwrap().hp, 30);
    assert_eq!(dice, before);
}

#[test]
fn states_nest_and_copy() {
    let nested = Ai::Basic.confused().scared();
    assert_eq!(nested, Ai::Scared { previous: Box::new(Ai::Confused { previous: Box::new(Ai::Basic), turns: 5 }), turns: 5 });
    assert_eq!(nested.copy(), nested);
    assert_eq!(nested.clone(), nested);
    assert!(nested.same(&nested.copy()));
    assert_ne!(nested, Ai::Basic.scared().confused());
    assert_ne!(Ai::Basic.confused(), Ai::Confused { previous: Box::new(Ai::Basic), turns: 4 });
}
