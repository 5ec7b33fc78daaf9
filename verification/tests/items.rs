use roguelike::color::{blue, light_green, light_violet, red, white};
use roguelike::dice::Dice;
use roguelike::enums::{Ai, DeathCallback, ItemType, UseResult};
use roguelike::fov::FovMap;
use roguelike::items::{
    cast_confuse, cast_damage, cast_fire_bolt, cast_heal, cast_merge, cast_scare, closest_monster,
    is_merge_safe, use_item,
};
use roguelike::messages::MessageLog;
use roguelike::object::{Fighter, Item, Object};

fn all_seen() -> FovMap {
    let mut fov = FovMap::new(30, 30);
    for x in 0..30 {
        for y in 0..30 {
            fov.set(x, y, true);
        }
    }
    fov
}

fn player(x: i32, y: i32) -> Object {
    let mut o = Object::new(x, y, '@', "Player".to_string(), white(), true);
    o.alive = true;
    o.fighter = Some(Fighter { max_hp: 30, hp: 30, max_mana: 15, mana: 15, defense: 2, power: 5, on_death: DeathCallback::Player });
    o
}

fn troll(x: i32, y: i32) -> Object {
    let mut o = Object::new(x, y, 'T', "Troll".to_string(), blue(), true);
    o.alive = true;
    o.fighter = Some(Fighter { max_hp: 15, hp: 15, max_mana: 0, mana: 0, defense: 1, power: 3, on_death: DeathCallback::Monster });
    o.ai = Some(Ai::Basic);
    o
}

fn hurt(mut o: Object, hp: i32) -> Object {
    o.fighter = Some(Fighter { hp, ..o.fighter.unwrap() });
    o
}

#[test]
fn closest_monster_takes_the_nearest_in_range() {
    let fov = all_seen();
    let objects = vec![player(10, 10), troll(14, 10), troll(10, 12), troll(13, 10)];
    assert_eq!(closest_monster(5, &objects, &fov), Some(2));
    assert_eq!(closest_monster(1, &objects, &fov), None);
    assert_eq!(closest_monster(2, &objects, &fov), Some(2));
    assert_eq!(closest_monster(u32::MAX, &objects, &fov), Some(2));
}

#[test]
fn closest_monster_reaches_strictly_less_than_range_plus_one() {
    let fov = all_seen();
    let objects = vec![player(10, 10), troll(16, 10)];
    assert_eq!(closest_monster(5, &objects, &fov), None);
    assert_eq!(closest_monster(6, &objects, &fov), Some(1));
    let objects = vec![player(10, 10), troll(15, 13)];
    assert_eq!(closest_monster(5, &objects, &fov), Some(1));
    let objects = vec![player(10, 10), troll(15, 14)];
    assert_eq!(closest_monster(5, &objects, &fov), None);
}

#[test]
fn closest_monster_breaks_ties_by_slot() {
    let fov = all_seen();
    let objects = vec![player(10, 10), troll(12, 10), troll(10, 12), troll(8, 10)];
    assert_eq!(closest_monster(5, &objects, &fov), Some(1));
}

#[test]
fn closest_monster_skips_what_is_no_target() {
    let mut fov = all_seen();
    fov.set(11, 10, false);
    let mut corpse = troll(10, 11);
    corpse.fighter = None;
    let mut idle = troll(9, 10);
    idle.ai = None;
    let objects = vec![player(10, 10), troll(11, 10), corpse, idle, troll(10, 7)];
    assert_eq!(closest_monster(5, &objects, &fov), Some(4));
    let none: Vec<Object> = Vec::new();
    assert_eq!(closest_monster(5, &none, &fov), None);
    assert_eq!(closest_monster(5, &[player(1, 1)], &fov), None);
}

#[test]
fn heal_on_full_health_is_cancelled() {
    let mut objects = vec![player(1, 1)];
    let mut log = MessageLog::standard();
    let mut dice = Dice::from_seed(1);
    let before = dice;
    let r = cast_heal(0, &mut objects, &mut log, Item::heal_potion(), &mut dice);
    assert_eq!(r, UseResult::Cancelled);
    let f = objects[0].fighter.unwrap();
    assert_eq!((f.hp, f.mana), (30, 15));
    assert_eq!(log.text(0), "Voce ja tem a vida cheia.");
    assert_eq!(log.color(0), red());
    assert_eq!(dice, before);
}

#[test]
fn heal_restores_up_to_the_maximum_at_a_cost_of_mana() {
    let mut costs = [false; 3];
    for seed in 0..40u64 {
        let mut objects = vec![hurt(player(1, 1), 27)];
        let mut log = MessageLog::standard();
        let mut dice = Dice::from_seed(seed);
        let r = cast_heal(0, &mut objects, &mut log, Item::heal_potion(), &mut dice);
        assert_eq!(r, UseResult::UsedUp);
        let f = objects[0].fighter.unwrap();
        assert_eq!(f.hp, 30);
        let cost = 15 - f.mana;
        assert!((0..3).contains(&cost));
        costs[cost as usize] = true;
        if cost > 0 {
            assert_eq!(log.len(), 2);
            assert_eq!(log.text(0), format!("A cura lhe custou {} de mana.", cost));
        } else {
            assert_eq!(log.len(), 1);
        }
        assert_eq!(log.text(log.len() - 1), "Voce se sente melhor!");
        assert_eq!(log.color(log.len() - 1), light_violet());
    }
    assert!(costs.iter().all(|&c| c));
}

#[test]
fn heal_adds_the_amount() {
    let mut objects = vec![hurt(player(1, 1), 10)];
    let mut log = MessageLog::standard();
    let mut dice = Dice::from_seed(1);
    cast_heal(0, &mut objects, &mut log, Item::heal_potion(), &mut dice);
    assert_eq!(objects[0].fighter.unwrap().hp, 15);
    cast_heal(0, &mut objects, &mut log, Item::new(ItemType::Heal, u32::MAX, 0), &mut dice);
    assert_eq!(objects[0].fighter.unwrap().hp, 30);
}

#[test]
fn heal_without_a_fighter_is_cancelled() {
    let mut objects = vec![Object::new(1, 1, '@', "ghost".to_string(), white(), true)];
    let mut log = MessageLog::standard();
    let mut dice = Dice::from_seed(1);
    assert_eq!(cast_heal(0, &mut objects, &mut log, Item::heal_potion(), &mut dice), UseResult::Cancelled);
    assert_eq!(cast_damage(0, &mut objects, &mut log, Item::new(ItemType::Damage, 3, 0)), UseResult::Cancelled);
    assert_eq!(log.len(), 0);
}

#[test]
fn damage_hurts_the_player() {
    let mut objects = vec![player(1, 1)];
    let mut log = MessageLog::standard();
    let r = cast_damage(0, &mut objects, &mut log, Item::new(ItemType::Damage, 7, 0));
    assert_eq!(r, UseResult::UsedUp);
    assert_eq!(objects[0].fighter.unwrap().hp, 23);
    assert!(objects[0].alive);
    assert_eq!(log.text(0), "Voce foi ferido!");
    let r = cast_damage(0, &mut objects, &mut log, Item::new(ItemType::Damage, 0, 0));
    assert_eq!(r, UseResult::UsedUp);
    assert_eq!(objects[0].fighter.unwrap().hp, 23);
    let r = cast_damage(0, &mut objects, &mut log, Item::new(ItemType::Damage, u32::MAX, 0));
    assert_eq!(r, UseResult::UsedUp);
    assert_eq!(objects[0].fighter.unwrap().hp, 0);
    assert!(!objects[0].alive);
    assert_eq!(objects[0].glyph, '%');
    let r = cast_damage(0, &mut objects, &mut log, Item::new(ItemType::Damage, 7, 0));
    assert_eq!(r, UseResult::Cancelled);
    assert_eq!(log.text(log.len() - 1), "Voce ja esta morto");
}

#[test]
fn fire_bolt_hits_the_nearest_target() {
    let fov = all_seen();
    let mut objects = vec![player(10, 10), troll(14, 10), troll(12, 10)];
    let mut log = MessageLog::standard();
    let r = cast_fire_bolt(0, &mut objects, &mut log, Item::new(ItemType::FireBolt, 4, 5), &fov);
    assert_eq!(r, UseResult::UsedUp);
    assert_eq!(objects[2].fighter.unwrap().hp, 11);
    assert_eq!(objects[1].fighter.unwrap().hp, 15);
    assert_eq!(log.len(), 1);
    assert_eq!(log.text(0), "Uma bola de fogo atingiu o Troll!\nO hit foi de 4");
    assert_eq!(log.color(0), blue());
    let r = cast_fire_bolt(0, &mut objects, &mut log, Item::fire_ball(), &fov);
    assert_eq!(r, UseResult::UsedUp);
    assert!(objects[2].fighter.is_none());
    assert_eq!(objects[2].name, "remains of Troll");
    assert!(!objects[2].alive);
    assert_eq!(log.text(2), "Troll esta morto");
}

#[test]
fn fire_bolt_without_a_target_is_cancelled() {
    let fov = FovMap::new(30, 30);
    let mut objects = vec![player(10, 10), troll(12, 10)];
    let mut log = MessageLog::standard();
    let r = cast_fire_bolt(0, &mut objects, &mut log, Item::fire_ball(), &fov);
    assert_eq!(r, UseResult::Cancelled);
    assert_eq!(objects[1].fighter.unwrap().hp, 15);
    assert_eq!(log.len(), 0);
}

#[test]
fn confuse_wraps_the_state_of_the_target() {
    let fov = all_seen();
    let mut scared = troll(12, 10);
    scared.ai = Some(Ai::Scared { previous: Box::new(Ai::Basic), turns: 2 });
    let mut objects = vec![player(10, 10), scared];
    let mut log = MessageLog::standard();
    let r = cast_confuse(0, &mut objects, &mut log, Item::confusion_spell(), &fov);
    assert_eq!(r, UseResult::UsedUp);
    assert_eq!(
        objects[1].ai,
        Some(Ai::Confused { previous: Box::new(Ai::Scared { previous: Box::new(Ai::Basic), turns: 2 }), turns: 5 })
    );
    assert_eq!(log.text(0), "Troll esta confuso!");
    assert_eq!(log.color(0), light_green());
    let dark = FovMap::new(30, 30);
    let r = cast_confuse(0, &mut objects, &mut log, Item::confusion_spell(), &dark);
    assert_eq!(r, UseResult::Cancelled);
    assert_eq!(log.text(1), "Nenhum inimigo por perto.");
    assert_eq!(log.color(1), red());
}

#[test]
fn scare_wraps_the_state_of_the_target() {
    let fov = all_seen();
    let mut objects = vec![player(10, 10), troll(12, 10)];
    let mut log = MessageLog::standard();
    let r = cast_scare(0, &mut objects, &mut log, Item::fear_spell(), &fov);
    assert_eq!(r, UseResult::UsedUp);
    assert_eq!(objects[1].ai, Some(Ai::Scared { previous: Box::new(Ai::Basic), turns: 5 }));
    assert_eq!(log.text(0), "Troll tem medo de voce e foge!");
    let mut far = vec![player(10, 10), troll(20, 20)];
    let r = cast_scare(0, &mut far, &mut log, Item::fear_spell(), &fov);
    assert_eq!(r, UseResult::Cancelled);
    assert_eq!(far[1].ai, Some(Ai::Basic));
    assert_eq!(log.text(1), "Nem um inimigo por perto.");
}

#[test]
fn merge_folds_the_target_into_the_player() {
    let fov = all_seen();
    let mut objects = vec![player(10, 10), troll(12, 10)];
    let mut log = MessageLog::standard();
    assert!(is_merge_safe(&objects));
    let r = cast_merge(0, &mut objects, &mut log, Item::merge_spell(), &fov);
    assert_eq!(r, UseResult::UsedUp);
    let f = objects[0].fighter.unwrap();
    assert_eq!((f.power, f.defense, f.max_hp, f.hp, f.mana, f.max_mana), (6, 2, 33, 33, 15, 15));
    assert_eq!(f.on_death, DeathCallback::Player);
    assert_eq!(objects[0].name, "Player Troll");
    assert_eq!(objects[0].glyph, '@');
    assert_eq!(objects[0].color, blue());
    assert_eq!(objects[0].pos(), (10, 10));
    assert!(objects[0].alive);
    assert!(objects[0].ai.is_none());
    assert!(!objects[1].alive);
    assert!(objects[1].fighter.is_none());
    assert!(objects[1].ai.is_none());
    assert_eq!(objects[1].name, "remains of Troll");
    assert_eq!(log.text(0), "Voce se funde com Troll.");
    assert_eq!(log.text(1), "Troll esta morto");
    let r = cast_merge(0, &mut objects, &mut log, Item::merge_spell(), &fov);
    assert_eq!(r, UseResult::Cancelled);
    assert_eq!(log.len(), 2);
}

#[test]
fn merge_safety_is_checked() {
    let mut huge = troll(1, 1);
    huge.fighter = Some(Fighter { max_hp: i32::MAX, hp: 1, power: i32::MAX, ..huge.fighter.unwrap() });
    let mut p = player(0, 0);
    p.fighter = Some(Fighter { max_hp: i32::MAX, hp: 1, ..p.fighter.unwrap() });
    assert!(!p.fits_merge(&huge));
    assert!(player(0, 0).fits_merge(&troll(1, 1)));
    assert!(!is_merge_safe(&[p, huge]));
}

#[test]
fn used_up_items_leave_the_inventory() {
    let fov = all_seen();
    let mut objects = vec![hurt(player(10, 10), 20), troll(12, 10)];
    let mut inventory = vec![Object::heal_potion(0, 0), Object::fire_ball(0, 0), Object::confusion_spell(0, 0)];
    let mut log = MessageLog::new(20);
    let mut dice = Dice::from_seed(1);
    use_item(1, &mut inventory, &mut objects, &mut log, &fov, &mut dice);
    assert_eq!(inventory.len(), 2);
    assert_eq!(inventory[0].name, "Pocao de cura");
    assert_eq!(inventory[1].name, "Feitico de confusao");
    assert!(objects[1].fighter.is_none());
    use_item(0, &mut inventory, &mut objects, &mut log, &fov, &mut dice);
    assert_eq!(inventory.len(), 1);
    assert_eq!(objects[0].fighter.unwrap().hp, 25);
}

#[test]
fn cancelled_items_stay_in_the_inventory() {
    let fov = all_seen();
    let mut objects = vec![player(10, 10)];
    let mut inventory = vec![Object::heal_potion(0, 0), Object::fire_ball(0, 0)];
    let mut log = MessageLog::new(20);
    let mut dice = Dice::from_seed(1);
    use_item(0, &mut inventory, &mut objects, &mut log, &fov, &mut dice);
    assert_eq!(inventory.len(), 2);
    assert_eq!(log.len(), 2);
    assert_eq!(log.text(0), "Voce ja tem a vida cheia.");
    assert_eq!(log.text(1), "Acao cancelada");
    assert_eq!(log.color(1), white());
    use_item(1, &mut inventory, &mut objects, &mut log, &fov, &mut dice);
    assert_eq!(inventory.len(), 2);
    assert_eq!(log.len(), 3);
    assert_eq!(log.text(2), "Acao cancelada");
}

#[test]
fn an_entry_without_an_item_cannot_be_used() {
    let fov = all_seen();
    let mut objects = vec![player(10, 10)];
    let mut inventory = vec![Object::new(0, 0, '?', "pedra".to_string(), white(), false)];
    let mut log = MessageLog::standard();
    let mut dice = Dice::from_seed(1);
    use_item(0, &mut inventory, &mut objects, &mut log, &fov, &mut dice);
    assert_eq!(inventory.len(), 1);
    assert_eq!(log.text(0), "Item pedra nao pode ser usado.");
}

#[test]
fn item_kinds() {
    assert_eq!(Item::heal_potion(), Item::new(ItemType::Heal, 5, 0));
    assert_eq!(Item::fire_ball(), Item::new(ItemType::FireBolt, 20, 5));
    assert_eq!(Item::confusion_spell(), Item::new(ItemType::Confuse, 0, 5));
    assert_eq!(Item::fear_spell(), Item::new(ItemType::Scare, 0, 5));
    assert_eq!(Item::merge_spell(), Item::new(ItemType::Merge, 0, 5));
    let p = Object::fire_ball(3, 4);
    assert_eq!((p.x, p.y, p.glyph, p.blocks, p.alive), (3, 4, 'º', false, false));
    assert!(p.fighter.is_none() && p.ai.is_none());
    assert_eq!(Object::merge_spell(0, 0).glyph, 'M');
    assert_eq!(Object::fear_spell(0, 0).glyph, '*');
    assert_eq!(Object::confusion_spell(0, 0).glyph, '$');
    assert_eq!(Object::heal_potion(0, 0).glyph, '!');
}
