//! Using items: finding the target of a spell and applying the effect of
//! each kind of item.

use vstd::prelude::*;
use crate::ai::with_ai;
use crate::color::{blue, light_green, light_violet, red, white};
use crate::dice::Dice;
use crate::enums::{Ai, ItemType, UseResult, EFFECT_TURNS};
use crate::fov::{seen, FovMap};
use crate::messages::{message, LogView, MessageLog};
use crate::object::{all_wf, lemma_wf_kept, arena, damage_log, player_kept, Item, Object, ObjectView};
use crate::store::PLAYER;
use crate::text::{decimal, decimal_text, decimal_u32, digits, join2, join3};

verus! {

/// The square of the distance that a spell of range `max_range` does not
/// reach: targets lie strictly closer than the range plus one.
pub open spec fn reach(max_range: u32) -> int {
    (max_range + 1) * (max_range + 1)
}

/// The entity in slot `i` can be the target of a spell of range
/// `max_range`: it is not the player, it fights and acts, the player sees
/// it, and it is within reach.
pub open spec fn hostile(objects: Seq<ObjectView>, fov: Seq<Seq<bool>>, i: int, max_range: u32) -> bool {
    &&& i != PLAYER
    &&& objects[i].fighter.is_some()
    &&& objects[i].ai.is_some()
    &&& seen(fov, objects[i].x as int, objects[i].y as int)
    &&& objects[PLAYER as int].distance_squared(objects[i]) < reach(max_range)
}

/// The nearest target among the first `n` slots; of two equally near, the
/// one in the lower slot.
pub open spec fn nearest_among(objects: Seq<ObjectView>, fov: Seq<Seq<bool>>, max_range: u32, n: nat) -> Option<
    usize,
>
    decreases n,
{
    if n == 0 {
        None
    } else {
        let best = nearest_among(objects, fov, max_range, (n - 1) as nat);
        let i = n - 1;
        let p = objects[PLAYER as int];
        if hostile(objects, fov, i, max_range) && (match best {
            None => true,
            Some(b) => p.distance_squared(objects[i]) < p.distance_squared(objects[b as int]),
        }) {
            Some(i as usize)
        } else {
            best
        }
    }
}

/// The nearest target of a spell of range `max_range`.
pub open spec fn nearest(objects: Seq<ObjectView>, fov: Seq<Seq<bool>>, max_range: u32) -> Option<usize> {
    nearest_among(objects, fov, max_range, objects.len())
}

/// `r` is the nearest target among the first `n` slots: nothing if there
/// is no target, else a target than which none is nearer and none equally
/// near stands in a lower slot.
pub open spec fn closest_among(
    objects: Seq<ObjectView>,
    fov: Seq<Seq<bool>>,
    max_range: u32,
    n: int,
    r: Option<usize>,
) -> bool {
    let p = objects[PLAYER as int];
    match r {
        None => forall|i: int| 0 <= i < n ==> !#[trigger] hostile(objects, fov, i, max_range),
        Some(b) => {
            &&& b < n
            &&& hostile(objects, fov, b as int, max_range)
            &&& forall|i: int|
                0 <= i < n && #[trigger] hostile(objects, fov, i, max_range) ==> p.distance_squared(
                    objects[b as int],
                ) < p.distance_squared(objects[i]) || (p.distance_squared(objects[b as int])
                    == p.distance_squared(objects[i]) && b <= i)
        },
    }
}

/// Finds the nearest entity that a spell of range `max_range` can hit.
pub fn closest_monster(max_range: u32, objects: &[Object], fov_map: &FovMap) -> (r: Option<usize>)
    ensures
        r == nearest(arena(objects@), fov_map@, max_range),
        closest_among(arena(objects@), fov_map@, max_range, objects@.len() as int, r),
        r matches Some(b) ==> b < objects@.len() && b != PLAYER,
{
    let mut closest_enemy: Option<usize> = None;
    let side: u128 = max_range as u128 + 1;
    assert(0 <= side * side <= 0x1_0000_0000 * 0x1_0000_0000) by (nonlinear_arith)
        requires
            0 <= side <= 0x1_0000_0000,
    ;
    let limit: u128 = side * side;
    let mut closest_dist: u128 = limit;
    let mut id: usize = 0;
    while id < objects.len()
        invariant
            id <= objects@.len(),
            limit == reach(max_range),
            closest_enemy == nearest_among(arena(objects@), fov_map@, max_range, id as nat),
            closest_among(arena(objects@), fov_map@, max_range, id as int, closest_enemy),
            closest_enemy is None ==> closest_dist == limit,
            closest_enemy matches Some(b) ==> b != PLAYER && closest_dist == arena(
                objects@,
            )[PLAYER as int].distance_squared(arena(objects@)[b as int]),
            closest_dist <= limit,
        decreases objects@.len() - id,
    {
        let object = &objects[id];
        if id != PLAYER && object.fighter.is_some() && object.ai.is_some() && fov_map.is_in_fov(
            object.x,
            object.y,
        ) {
            let dist = objects[PLAYER].distance_squared_to(object);
            if dist < closest_dist {
                closest_enemy = Some(id);
                closest_dist = dist;
            }
        }
        id = id + 1;
    }
    closest_enemy
}

/// What an effect leaves behind: the arena, the log and whether the item
/// was used up.
pub struct Outcome {
    pub objects: Seq<ObjectView>,
    pub log: LogView,
    pub result: UseResult,
}

/// Healing. A player at full health or without a fighter keeps the item.
/// Otherwise a mana cost of zero to two is drawn and, if positive, spent
/// and logged; then the hit points rise by the item's amount. Beside the
/// outcome stands the generator, advanced by the draw if there was one.
pub open spec fn heal_outcome(objects: Seq<ObjectView>, log: LogView, dice: Dice, item: Item) -> (
    Outcome,
    Dice,
) {
    let p = objects[PLAYER as int];
    match p.fighter {
        None => (Outcome { objects, log, result: UseResult::Cancelled }, dice),
        Some(f) => if f.hp == f.max_hp {
            (
                Outcome {
                    objects,
                    log: log.logged("Voce ja tem a vida cheia."@, red()),
                    result: UseResult::Cancelled,
                },
                dice,
            )
        } else {
            let cost = dice.value(0, 3);
            let paid = if cost > 0 {
                p.drained(cost as int)
            } else {
                p
            };
            let told = if cost > 0 {
                log.logged("A cura lhe custou "@ + decimal_text(cost as int) + " de mana."@, red())
            } else {
                log
            };
            (
                Outcome {
                    objects: objects.update(PLAYER as int, paid.healed(item.amount as int)),
                    log: told.logged("Voce se sente melhor!"@, light_violet()),
                    result: UseResult::UsedUp,
                },
                dice.next(0, 3),
            )
        },
    }
}

/// Healing at full health does nothing: the item is kept, the arena and
/// the generator are as before, and the log gains the one line that says
/// why.
pub proof fn lemma_heal_at_full_health(objects: Seq<ObjectView>, log: LogView, dice: Dice, item: Item)
    requires
        objects[PLAYER as int].fighter matches Some(f) && f.hp == f.max_hp,
    ensures
        heal_outcome(objects, log, dice, item) == (
            Outcome {
                objects,
                log: log.logged("Voce ja tem a vida cheia."@, red()),
                result: UseResult::Cancelled,
            },
            dice,
        ),
{
}

/// Self-harm. A player without hit points or without a fighter keeps the
/// item; otherwise the player takes the item's amount as damage.
pub open spec fn damage_outcome(objects: Seq<ObjectView>, log: LogView, item: Item) -> Outcome {
    let p = objects[PLAYER as int];
    match p.fighter {
        None => Outcome { objects, log, result: UseResult::Cancelled },
        Some(f) => if f.hp < 1 {
            Outcome {
                objects,
                log: log.logged("Voce ja esta morto"@, red()),
                result: UseResult::Cancelled,
            }
        } else {
            let told = log.logged("Voce foi ferido!"@, light_violet());
            Outcome {
                objects: objects.update(PLAYER as int, p.damaged(item.amount as int)),
                log: damage_log(told, p, item.amount as int),
                result: UseResult::UsedUp,
            }
        },
    }
}

/// The fire bolt: the nearest target in range takes the item's amount as
/// damage; without a target the item is kept.
pub open spec fn fire_bolt_outcome(
    objects: Seq<ObjectView>,
    log: LogView,
    item: Item,
    fov: Seq<Seq<bool>>,
) -> Outcome {
    match nearest(objects, fov, item.range) {
        Some(id) => {
            let m = objects[id as int];
            let told = log.logged(
                "Uma bola de fogo atingiu o "@ + m.name + "!\nO hit foi de "@ + digits(
                    item.amount as nat,
                ),
                blue(),
            );
            Outcome {
                objects: objects.update(id as int, m.damaged(item.amount as int)),
                log: damage_log(told, m, item.amount as int),
                result: UseResult::UsedUp,
            }
        },
        None => Outcome { objects, log, result: UseResult::Cancelled },
    }
}

/// The state that an effect wraps: the current one, or `Basic` for an
/// entity without a state.
pub open spec fn state_of(o: ObjectView) -> Ai {
    match o.ai {
        Some(ai) => ai,
        None => Ai::Basic,
    }
}

/// Confusion: the nearest target in range has its state wrapped in a
/// confusion of `EFFECT_TURNS` turns; without a target the item is kept.
pub open spec fn confuse_outcome(
    objects: Seq<ObjectView>,
    log: LogView,
    item: Item,
    fov: Seq<Seq<bool>>,
) -> Outcome {
    match nearest(objects, fov, item.range) {
        Some(id) => Outcome {
            objects: with_ai(
                objects,
                id as int,
                Some(
                    Ai::Confused {
                        previous: Box::new(state_of(objects[id as int])),
                        turns: EFFECT_TURNS,
                    },
                ),
            ),
            log: log.logged(objects[id as int].name + " esta confuso!"@, light_green()),
            result: UseResult::UsedUp,
        },
        None => Outcome {
            objects,
            log: log.logged("Nenhum inimigo por perto."@, red()),
            result: UseResult::Cancelled,
        },
    }
}

/// Fear: the nearest target in range has its state wrapped in a fear of
/// `EFFECT_TURNS` turns; without a target the item is kept.
pub open spec fn scare_outcome(
    objects: Seq<ObjectView>,
    log: LogView,
    item: Item,
    fov: Seq<Seq<bool>>,
) -> Outcome {
    match nearest(objects, fov, item.range) {
        Some(id) => Outcome {
            objects: with_ai(
                objects,
                id as int,
                Some(
                    Ai::Scared {
                        previous: Box::new(state_of(objects[id as int])),
                        turns: EFFECT_TURNS,
                    },
                ),
            ),
            log: log.logged(objects[id as int].name + " tem medo de voce e foge!"@, light_green()),
            result: UseResult::UsedUp,
        },
        None => Outcome {
            objects,
            log: log.logged("Nem um inimigo por perto."@, red()),
            result: UseResult::Cancelled,
        },
    }
}

/// Merging: the player is replaced by the union of the player and the
/// nearest target in range, and the target takes its own maximum of hit
/// points as damage, which kills it; without a target the item is kept.
pub open spec fn merge_outcome(
    objects: Seq<ObjectView>,
    log: LogView,
    item: Item,
    fov: Seq<Seq<bool>>,
) -> Outcome {
    match nearest(objects, fov, item.range) {
        Some(id) => {
            let p = objects[PLAYER as int];
            let m = objects[id as int];
            let told = log.logged("Voce se funde com "@ + m.name + "."@, blue());
            Outcome {
                objects: objects.update(PLAYER as int, p.merged(m)).update(
                    id as int,
                    m.damaged(m.max_hp()),
                ),
                log: damage_log(told, m, m.max_hp()),
                result: UseResult::UsedUp,
            }
        },
        None => Outcome { objects, log, result: UseResult::Cancelled },
    }
}

/// The player can be merged with every entity of the arena without a
/// statistic leaving the range of its type.
pub open spec fn merge_safe(objects: Seq<ObjectView>) -> bool {
    forall|i: int| 0 <= i < objects.len() ==> objects[PLAYER as int].merge_fits(#[trigger] objects[i])
}

/// What the effect of `item` leaves behind, and the generator afterwards.
pub open spec fn cast_outcome(
    objects: Seq<ObjectView>,
    log: LogView,
    dice: Dice,
    item: Item,
    fov: Seq<Seq<bool>>,
) -> (Outcome, Dice) {
    match item.item_type {
        ItemType::Heal => heal_outcome(objects, log, dice, item),
        ItemType::Damage => (damage_outcome(objects, log, item), dice),
        ItemType::FireBolt => (fire_bolt_outcome(objects, log, item, fov), dice),
        ItemType::Confuse => (confuse_outcome(objects, log, item, fov), dice),
        ItemType::Scare => (scare_outcome(objects, log, item, fov), dice),
        ItemType::Merge => (merge_outcome(objects, log, item, fov), dice),
    }
}

/// An amount as damage or healing: itself, or the largest number of the
/// narrower type, which no hit points exceed.
fn as_points(amount: u32) -> (p: i32)
    ensures
        p == (if amount > i32::MAX { i32::MAX as int } else { amount as int }),
{
    if amount > i32::MAX as u32 {
        i32::MAX
    } else {
        amount as i32
    }
}

/// Heals the player by the item's amount at a drawn cost of mana.
pub fn cast_heal(
    _inventory_id: usize,
    objects: &mut [Object],
    messages: &mut MessageLog,
    item: Item,
    dice: &mut Dice,
) -> (r: UseResult)
    requires
        PLAYER < old(objects)@.len(),
        all_wf(old(objects)@),
        old(messages).wf(),
        old(dice).wf(),
    ensures
        (Outcome { objects: arena(final(objects)@), log: final(messages)@, result: r }, *final(dice))
            == heal_outcome(arena(old(objects)@), old(messages)@, *old(dice), item),
        arena(old(objects)@)[PLAYER as int].fighter matches Some(before) ==> (arena(
            final(objects)@,
        )[PLAYER as int].fighter matches Some(after) && before.mana - 2 <= after.mana <= before.mana
            && before.hp <= after.hp),
        final(objects)@.len() == old(objects)@.len(),
        all_wf(final(objects)@),
        player_kept(arena(old(objects)@), arena(final(objects)@)),
        final(messages).wf(),
        final(dice).wf(),
{
    if let Some(fighter) = objects[PLAYER].fighter {
        if fighter.hp == fighter.max_hp {
            message(messages, String::from_str("Voce ja tem a vida cheia."), red());
            assert(arena(objects@) =~= arena(old(objects)@));
            return UseResult::Cancelled;
        }
        let cost = dice.roll(0, 3);
        if cost > 0 {
            message(
                messages,
                join3("A cura lhe custou ", decimal(cost as i64).as_str(), " de mana."),
                red(),
            );
            objects[PLAYER].take_mana(cost);
        }
        message(messages, String::from_str("Voce se sente melhor!"), light_violet());
        objects[PLAYER].heal(as_points(item.amount));
        assert(arena(objects@) =~= heal_outcome(
            arena(old(objects)@),
            old(messages)@,
            *old(dice),
            item,
        ).0.objects);
        proof {
            lemma_wf_kept(old(objects)@, objects@);
        }
        return UseResult::UsedUp;
    }
    assert(arena(objects@) =~= arena(old(objects)@));
    UseResult::Cancelled
}

/// Hurts the player by the item's amount.
pub fn cast_damage(_inventory_id: usize, objects: &mut [Object], messages: &mut MessageLog, item: Item) -> (r:
    UseResult)
    requires
        PLAYER < old(objects)@.len(),
        all_wf(old(objects)@),
        old(messages).wf(),
    ensures
        (Outcome { objects: arena(final(objects)@), log: final(messages)@, result: r })
            == damage_outcome(arena(old(objects)@), old(messages)@, item),
        final(objects)@.len() == old(objects)@.len(),
        all_wf(final(objects)@),
        player_kept(arena(old(objects)@), arena(final(objects)@)),
        final(messages).wf(),
{
    if let Some(fighter) = objects[PLAYER].fighter {
        if fighter.hp < 1 {
            message(messages, String::from_str("Voce ja esta morto"), red());
            assert(arena(objects@) =~= arena(old(objects)@));
            return UseResult::Cancelled;
        }
        message(messages, String::from_str("Voce foi ferido!"), light_violet());
        objects[PLAYER].take_damage(as_points(item.amount), messages);
        assert(arena(objects@) =~= damage_outcome(
            arena(old(objects)@),
            old(messages)@,
            item,
        ).objects);
        proof {
            lemma_wf_kept(old(objects)@, objects@);
        }
        return UseResult::UsedUp;
    }
    assert(arena(objects@) =~= arena(old(objects)@));
    UseResult::Cancelled
}

/// Throws a fire bolt at the nearest target in range.
pub fn cast_fire_bolt(
    _inventory_id: usize,
    objects: &mut [Object],
    messages: &mut MessageLog,
    item: Item,
    fov_map: &FovMap,
) -> (r: UseResult)
    requires
        PLAYER < old(objects)@.len(),
        all_wf(old(objects)@),
        old(messages).wf(),
    ensures
        (Outcome { objects: arena(final(objects)@), log: final(messages)@, result: r })
            == fire_bolt_outcome(arena(old(objects)@), old(messages)@, item, fov_map@),
        final(objects)@.len() == old(objects)@.len(),
        all_wf(final(objects)@),
        player_kept(arena(old(objects)@), arena(final(objects)@)),
        final(messages).wf(),
{
    let monster_id = closest_monster(item.range, objects, fov_map);
    if let Some(monster_id) = monster_id {
        let mut text = join3(
            "Uma bola de fogo atingiu o ",
            objects[monster_id].name.as_str(),
            "!\nO hit foi de ",
        );
        text.append(decimal_u32(item.amount).as_str());
        message(messages, text, blue());
        objects[monster_id].take_damage(as_points(item.amount), messages);
        assert(arena(objects@) =~= fire_bolt_outcome(
            arena(old(objects)@),
            old(messages)@,
            item,
            fov_map@,
        ).objects);
        proof {
            lemma_wf_kept(old(objects)@, objects@);
        }
        UseResult::UsedUp
    } else {
        assert(arena(objects@) =~= arena(old(objects)@));
        UseResult::Cancelled
    }
}

/// Confuses the nearest target in range.
pub fn cast_confuse(
    _inventory_id: usize,
    objects: &mut [Object],
    messages: &mut MessageLog,
    item: Item,
    fov_map: &FovMap,
) -> (r: UseResult)
    requires
        PLAYER < old(objects)@.len(),
        all_wf(old(objects)@),
        old(messages).wf(),
    ensures
        (Outcome { objects: arena(final(objects)@), log: final(messages)@, result: r })
            == confuse_outcome(arena(old(objects)@), old(messages)@, item, fov_map@),
        final(objects)@.len() == old(objects)@.len(),
        all_wf(final(objects)@),
        player_kept(arena(old(objects)@), arena(final(objects)@)),
        final(messages).wf(),
{
    let monster_id = closest_monster(item.range, objects, fov_map);
    if let Some(monster_id) = monster_id {
        let old_ai = match objects[monster_id].ai.take() {
            Some(ai) => ai,
            None => Ai::Basic,
        };
        objects[monster_id].ai = Some(Ai::Confused { previous: Box::new(old_ai), turns: EFFECT_TURNS });
        message(messages, join2(objects[monster_id].name.as_str(), " esta confuso!"), light_green());
        assert(arena(objects@) =~= confuse_outcome(
            arena(old(objects)@),
            old(messages)@,
            item,
            fov_map@,
        ).objects);
        proof {
            lemma_wf_kept(old(objects)@, objects@);
        }
        UseResult::UsedUp
    } else {
        message(messages, String::from_str("Nenhum inimigo por perto."), red());
        assert(arena(objects@) =~= arena(old(objects)@));
        UseResult::Cancelled
    }
}

/// Scares the nearest target in range.
pub fn cast_scare(
    _inventory_id: usize,
    objects: &mut [Object],
    messages: &mut MessageLog,
    item: Item,
    fov_map: &FovMap,
) -> (r: UseResult)
    requires
        PLAYER < old(objects)@.len(),
        all_wf(old(objects)@),
        old(messages).wf(),
    ensures
        (Outcome { objects: arena(final(objects)@), log: final(messages)@, result: r })
            == scare_outcome(arena(old(objects)@), old(messages)@, item, fov_map@),
        final(objects)@.len() == old(objects)@.len(),
        all_wf(final(objects)@),
        player_kept(arena(old(objects)@), arena(final(objects)@)),
        final(messages).wf(),
{
    let monster_id = closest_monster(item.range, objects, fov_map);
    if let Some(monster_id) = monster_id {
        let old_ai = match objects[monster_id].ai.take() {
            Some(ai) => ai,
            None => Ai::Basic,
        };
        objects[monster_id].ai = Some(Ai::Scared { previous: Box::new(old_ai), turns: EFFECT_TURNS });
        message(
            messages,
            join2(objects[monster_id].name.as_str(), " tem medo de voce e foge!"),
            light_green(),
        );
        assert(arena(objects@) =~= scare_outcome(
            arena(old(objects)@),
            old(messages)@,
            item,
            fov_map@,
        ).objects);
        proof {
            lemma_wf_kept(old(objects)@, objects@);
        }
        UseResult::UsedUp
    } else {
        message(messages, String::from_str("Nem um inimigo por perto."), red());
        assert(arena(objects@) =~= arena(old(objects)@));
        UseResult::Cancelled
    }
}

/// Merges the player with the nearest target in range and kills the
/// target.
#[verifier::rlimit(40)]
pub fn cast_merge(
    _inventory_id: usize,
    objects: &mut [Object],
    messages: &mut MessageLog,
    item: Item,
    fov_map: &FovMap,
) -> (r: UseResult)
    requires
        PLAYER < old(objects)@.len(),
        all_wf(old(objects)@),
        merge_safe(arena(old(objects)@)),
        old(messages).wf(),
    ensures
        (Outcome { objects: arena(final(objects)@), log: final(messages)@, result: r })
            == merge_outcome(arena(old(objects)@), old(messages)@, item, fov_map@),
        final(objects)@.len() == old(objects)@.len(),
        all_wf(final(objects)@),
        player_kept(arena(old(objects)@), arena(final(objects)@)),
        final(messages).wf(),
{
    let monster_id = closest_monster(item.range, objects, fov_map);
    let mut player = objects[PLAYER].clone();
    if let Some(monster_id) = monster_id {
        message(
            messages,
            join3("Voce se funde com ", objects[monster_id].name.as_str(), "."),
            blue(),
        );
        assert(old(objects)@[monster_id as int].wf());
        assert(arena(old(objects)@)[PLAYER as int].merge_fits(arena(old(objects)@)[monster_id as int]));
        let merged = player.merge(&mut objects[monster_id]);
        objects[PLAYER] = merged;
        let max_hp = match objects[monster_id].fighter {
            Some(f) => f.max_hp,
            None => 0,
        };
        objects[monster_id].take_damage(max_hp, messages);
        assert(arena(objects@) =~= merge_outcome(
            arena(old(objects)@),
            old(messages)@,
            item,
            fov_map@,
        ).objects);
        proof {
            lemma_wf_kept(old(objects)@, objects@);
        }
        UseResult::UsedUp
    } else {
        assert(arena(objects@) =~= arena(old(objects)@));
        UseResult::Cancelled
    }
}

/// What using an inventory entry leaves behind: the inventory, the arena,
/// the log and the generator.
pub struct Used {
    pub inventory: Seq<ObjectView>,
    pub objects: Seq<ObjectView>,
    pub log: LogView,
    pub dice: Dice,
}

/// Using entry `id` of the inventory. An entry without an item component
/// cannot be used, and the log says so. Otherwise the effect of its item
/// runs: an item that was used up leaves the inventory, one that was not
/// stays, and the log says that the action was cancelled.
pub open spec fn used(
    inventory: Seq<ObjectView>,
    id: int,
    objects: Seq<ObjectView>,
    log: LogView,
    dice: Dice,
    fov: Seq<Seq<bool>>,
) -> Used {
    match inventory[id].item {
        Some(item) => {
            let (o, d) = cast_outcome(objects, log, dice, item, fov);
            match o.result {
                UseResult::UsedUp => Used {
                    inventory: inventory.remove(id),
                    objects: o.objects,
                    log: o.log,
                    dice: d,
                },
                UseResult::Cancelled => Used {
                    inventory,
                    objects: o.objects,
                    log: o.log.logged("Acao cancelada"@, white()),
                    dice: d,
                },
            }
        },
        None => Used {
            inventory,
            objects,
            log: log.logged("Item "@ + inventory[id].name + " nao pode ser usado."@, white()),
            dice,
        },
    }
}

/// Uses entry `inventory_id` of the inventory.
#[verifier::rlimit(40)]
pub fn use_item(
    inventory_id: usize,
    inventory: &mut Vec<Object>,
    objects: &mut [Object],
    messages: &mut MessageLog,
    fov_map: &FovMap,
    dice: &mut Dice,
)
    requires
        inventory_id < old(inventory)@.len(),
        PLAYER < old(objects)@.len(),
        all_wf(old(objects)@),
        old(inventory)@[inventory_id as int].item matches Some(item) && item.item_type
            == ItemType::Merge ==> merge_safe(arena(old(objects)@)),
        old(messages).wf(),
        old(dice).wf(),
    ensures
        (Used {
            inventory: arena(final(inventory)@),
            objects: arena(final(objects)@),
            log: final(messages)@,
            dice: *final(dice),
        }) == used(
            arena(old(inventory)@),
            inventory_id as int,
            arena(old(objects)@),
            old(messages)@,
            *old(dice),
            fov_map@,
        ),
        final(objects)@.len() == old(objects)@.len(),
        all_wf(final(objects)@),
        player_kept(arena(old(objects)@), arena(final(objects)@)),
        final(messages).wf(),
        final(dice).wf(),
{
    if let Some(item) = inventory[inventory_id].item {
        let result = match item.item_type {
            ItemType::Heal => cast_heal(inventory_id, objects, messages, item, dice),
            ItemType::Damage => cast_damage(inventory_id, objects, messages, item),
            ItemType::FireBolt => cast_fire_bolt(inventory_id, objects, messages, item, fov_map),
            ItemType::Confuse => cast_confuse(inventory_id, objects, messages, item, fov_map),
            ItemType::Scare => cast_scare(inventory_id, objects, messages, item, fov_map),
            ItemType::Merge => cast_merge(inventory_id, objects, messages, item, fov_map),
        };
        match result {
            UseResult::UsedUp => {
                inventory.remove(inventory_id);
                assert(arena(inventory@) =~= arena(old(inventory)@).remove(inventory_id as int));
            },
            UseResult::Cancelled => {
                message(messages, String::from_str("Acao cancelada"), white());
            },
        }
    } else {
        message(
            messages,
            join3("Item ", inventory[inventory_id].name.as_str(), " nao pode ser usado."),
            white(),
        );
        assert(arena(objects@) =~= arena(old(objects)@));
    }
}

/// Whether the player can be merged with every entity of the arena.
pub fn is_merge_safe(objects: &[Object]) -> (r: bool)
    requires
        PLAYER < objects@.len(),
    ensures
        r == merge_safe(arena(objects@)),
{
    let mut i: usize = 0;
    while i < objects.len()
        invariant
            i <= objects@.len(),
            PLAYER < objects@.len(),
            forall|k: int|
                0 <= k < i ==> arena(objects@)[PLAYER as int].merge_fits(#[trigger] arena(objects@)[k]),
        decreases objects@.len() - i,
    {
        if !objects[PLAYER].fits_merge(&objects[i]) {
            assert(!arena(objects@)[PLAYER as int].merge_fits(arena(objects@)[i as int]));
            return false;
        }
        i = i + 1;
    }
    true
}

} // verus!
