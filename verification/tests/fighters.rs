use roguelike::color::white;
use roguelike::enums::DeathCallback;
use roguelike::messages::MessageLog;
use roguelike::object::{monster_death, player_death, Fighter, Object, TORCH_RADIUS};

fn fighter(max_hp: i32, hp: i32, max_mana: i32, mana: i32) -> Object {
    let mut o = Object::new(0, 0, 'f', "f".to_string(), white(), true);
    o.alive = true;
    o.fighter = Some(Fighter { max_hp, hp, max_mana, mana, defense: 0, power: 0, on_death: DeathCallback::Player });
    o
}

fn in_bounds(o: &Object) -> bool {
    let f = o.fighter.unwrap();
    0 <= f.hp && f.hp <= f.max_hp && 0 <= f.mana && f.mana <= f.max_mana
}

#[test]
fn points_stay_within_their_bounds() {
    let amounts = [i32::MIN, -100, -1, 0, 1, 3, 10, 100, i32::MAX];
    for &a in amounts.iter() {
        let mut o = fighter(10, 4, 8, 5);
        o.heal(a);
        assert!(in_bounds(&o) && o.is_wf());
        let mut o = fighter(10, 4, 8, 5);
        o.take_mana(a);
        assert!(in_bounds(&o) && o.is_wf());
        let mut o = fighter(10, 4, 8, 5);
        let mut log = MessageLog::standard();
        o.take_damage(a, &mut log);
        assert!(in_bounds(&o) && o.is_wf());
    }
}

#[test]
fn heal_mana_and_damage_by_the_amount() {
    let mut o = fighter(10, 4, 8, 5);
    o.heal(3);
    assert_eq!(o.fighter.unwrap().hp, 7);
    o.heal(30);
    assert_eq!(o.fighter.unwrap().hp, 10);
    o.take_mana(2);
    assert_eq!(o.fighter.unwrap().mana, 3);
    o.take_mana(5);
    assert_eq!(o.fighter.unwrap().mana, 0);
    let mut log = MessageLog::standard();
    o.take_damage(4, &mut log);
    assert_eq!(o.fighter.unwrap().hp, 6);
    assert!(o.alive);
    o.take_damage(0, &mut log);
    assert_eq!(o.fighter.unwrap().hp, 6);
    o.take_damage(-2, &mut log);
    assert_eq!(o.fighter.unwrap().hp, 6);
    assert_eq!(log.len(), 0);
    o.take_damage(6, &mut log);
    assert_eq!(o.fighter.unwrap().hp, 0);
    assert!(!o.alive);
    assert_eq!(log.text(0), "Voce morreu!");
}

#[test]
fn entities_without_a_fighter_are_left_alone() {
    let mut o = Object::new(0, 0, 'o', "o".to_string(), white(), false);
    let mut log = MessageLog::standard();
    o.heal(5);
    o.take_mana(5);
    o.take_damage(5, &mut log);
    assert!(o.fighter.is_none());
    assert!(!o.alive);
    assert_eq!(o.torch_radius, TORCH_RADIUS);
    assert_eq!(log.len(), 0);
}

#[test]
fn death_routines() {
    let mut log = MessageLog::standard();
    let mut p = fighter(10, 0, 0, 0);
    player_death(&mut p, &mut log);
    assert_eq!(p.glyph, '%');
    assert!(p.fighter.is_some());
    assert!(p.blocks);
    let mut m = fighter(10, 0, 0, 0);
    m.name = "Goblin".to_string();
    monster_death(&mut m, &mut log);
    assert_eq!(m.name, "remains of Goblin");
    assert!(!m.blocks);
    let mut c = fighter(10, 0, 0, 0);
    DeathCallback::Monster.callback(&mut c, &mut log);
    assert_eq!(c.name, "remains of f");
    assert_eq!(log.text(0), "Voce morreu!");
    assert_eq!(log.text(1), "Goblin esta morto");
    assert_eq!(log.text(2), "f esta morto");
}

#[test]
fn overwhelming_blows_kill() {
    let mut a = fighter(10, 10, 0, 0);
    a.name = "a".to_string();
    a.fighter = Some(Fighter { power: i32::MAX, ..a.fighter.unwrap() });
    let mut b = fighter(i32::MAX, i32::MAX, 0, 0);
    b.name = "b".to_string();
    b.fighter = Some(Fighter { defense: -10, on_death: DeathCallback::Monster, ..b.fighter.unwrap() });
    let mut log = MessageLog::standard();
    a.attack(&mut b, &mut log);
    assert!(b.fighter.is_none());
    assert_eq!(log.text(0), "a ataca b com 2147483657 pontos de forca.");
}

#[test]
fn distances_are_squared() {
    let a = Object::new(1, 2, 'a', "a".to_string(), white(), false);
    let b = Object::new(4, 6, 'b', "b".to_string(), white(), false);
    assert_eq!(a.distance_squared_to(&b), 25);
    assert_eq!(b.distance_squared_to(&a), 25);
    assert_eq!(a.distance_squared_to(&a), 0);
    let far = Object::new(i32::MIN, i32::MAX, 'c', "c".to_string(), white(), false);
    let near = Object::new(i32::MAX, i32::MIN, 'd', "d".to_string(), white(), false);
    assert_eq!(far.distance_squared_to(&near), 2 * (u32::MAX as u128) * (u32::MAX as u128));
}

#[test]
fn merging_with_an_entity_without_a_fighter() {
    let mut a = fighter(30, 20, 15, 7);
    a.fighter = Some(Fighter { power: 5, defense: -3, ..a.fighter.unwrap() });
    let mut b = Object::new(9, 9, 'b', "b".to_string(), white(), false);
    assert!(a.fits_merge(&b));
    let m = a.merge(&mut b);
    let f = m.fighter.unwrap();
    assert_eq!((f.power, f.defense, f.max_hp, f.hp, f.mana, f.max_mana), (3, -2, 22, 20, 7, 15));
    assert_eq!(m.torch_radius, TORCH_RADIUS);
    assert!(!m.always_visible);
    assert!(m.item.is_none());
}

#[test]
fn cloning_keeps_every_field() {
    let mut a = fighter(30, 20, 15, 7);
    a.ai = Some(roguelike::enums::Ai::Basic.confused());
    a.always_visible = true;
    let b = a.clone();
    assert_eq!((a.x, a.y, a.glyph, a.color, a.blocks, a.alive), (b.x, b.y, b.glyph, b.color, b.blocks, b.alive));
    assert_eq!(a.name, b.name);
    assert_eq!(a.fighter, b.fighter);
    assert_eq!(a.ai, b.ai);
    assert_eq!(a.item, b.item);
    assert_eq!((a.torch_radius, a.always_visible), (b.torch_radius, b.always_visible));
}
