//! The behaviour of non-player entities: one transition of the state
//! machine per entity and turn.

use vstd::prelude::*;
use crate::color::red;
use crate::dice::Dice;
use crate::enums::{Ai, EFFECT_TURNS};
use crate::fov::{seen, FovMap};
use crate::map::{GridView, TileGrid};
use crate::messages::{message, LogView, MessageLog};
use crate::object::{all_wf, lemma_wf_kept, arena, attack_log, player_kept, struck, Object, ObjectView};
use crate::store::{move_by, moved_by, mut_two, PLAYER};
use crate::text::join2;

verus! {

/// One coordinate of the unit vector along `(d, other)`, rounded to the
/// nearest integer: a step of one in the direction of `d` when `d` makes up
/// at least half of the length, no step otherwise.
pub open spec fn step_toward(d: int, other: int) -> int {
    if d > 0 && 3 * d * d >= other * other {
        1
    } else if d < 0 && 3 * d * d >= other * other {
        -1
    } else {
        0
    }
}

/// Computes `step_toward(d, other)` for differences of two coordinates.
pub fn step(d: i64, other: i64) -> (s: i32)
    requires
        -0x1_0000_0000 <= d <= 0x1_0000_0000,
        -0x1_0000_0000 <= other <= 0x1_0000_0000,
    ensures
        s == step_toward(d as int, other as int),
{
    let a: i128 = d as i128;
    let b: i128 = other as i128;
    assert(0 <= a * a <= 0x1_0000_0000 * 0x1_0000_0000) by (nonlinear_arith)
        requires
            -0x1_0000_0000 <= a <= 0x1_0000_0000,
    ;
    assert(0 <= b * b <= 0x1_0000_0000 * 0x1_0000_0000) by (nonlinear_arith)
        requires
            -0x1_0000_0000 <= b <= 0x1_0000_0000,
    ;
    let aa: i128 = a * a;
    let bb: i128 = b * b;
    assert(3 * a * a == 3 * (a * a)) by (nonlinear_arith);
    if d > 0 && 3 * aa >= bb {
        1
    } else if d < 0 && 3 * aa >= bb {
        -1
    } else {
        0
    }
}

/// The arena after the entity in slot `id` has tried one step toward
/// `(x, y)`.
pub open spec fn moved_towards(objects: Seq<ObjectView>, id: int, x: int, y: int, grid: GridView) -> Seq<
    ObjectView,
> {
    let dx = x - objects[id].x;
    let dy = y - objects[id].y;
    moved_by(objects, id, step_toward(dx, dy), step_toward(dy, dx), grid)
}

/// The arena after the entity in slot `id` has tried one step away from
/// `(x, y)`.
pub open spec fn moved_away(objects: Seq<ObjectView>, id: int, x: int, y: int, grid: GridView) -> Seq<
    ObjectView,
> {
    let dx = x - objects[id].x;
    let dy = y - objects[id].y;
    moved_by(objects, id, -step_toward(dx, dy), -step_toward(dy, dx), grid)
}

/// Moves the entity in slot `id` one step toward `(target_x, target_y)`
/// unless the cell there is blocked.
pub fn move_towards(id: usize, target_x: i32, target_y: i32, map: &TileGrid, objects: &mut [Object])
    requires
        id < old(objects)@.len(),
        map.wf(),
    ensures
        arena(final(objects)@) == moved_towards(
            arena(old(objects)@),
            id as int,
            target_x as int,
            target_y as int,
            map@,
        ),
        final(objects)@.len() == old(objects)@.len(),
{
    let dx: i64 = target_x as i64 - objects[id].x as i64;
    let dy: i64 = target_y as i64 - objects[id].y as i64;
    let sx = step(dx, dy);
    let sy = step(dy, dx);
    move_by(id, sx, sy, map, objects);
}

/// Moves the entity in slot `id` one step away from
/// `(target_x, target_y)` unless the cell there is blocked.
pub fn move_away(id: usize, target_x: i32, target_y: i32, map: &TileGrid, objects: &mut [Object])
    requires
        id < old(objects)@.len(),
        map.wf(),
    ensures
        arena(final(objects)@) == moved_away(
            arena(old(objects)@),
            id as int,
            target_x as int,
            target_y as int,
            map@,
        ),
        final(objects)@.len() == old(objects)@.len(),
{
    let dx: i64 = target_x as i64 - objects[id].x as i64;
    let dy: i64 = target_y as i64 - objects[id].y as i64;
    let sx = step(dx, dy);
    let sy = step(dy, dx);
    move_by(id, -sx, -sy, map, objects);
}

/// What one turn of an entity leaves behind: the arena, the log and the
/// entity's next state.
pub struct Turn {
    pub objects: Seq<ObjectView>,
    pub log: LogView,
    pub ai: Ai,
}

/// The turn of a `Basic` entity in slot `id`. Out of the player's view it
/// does nothing. In view it steps toward the player while the squared
/// distance is four or more, and strikes a player that still has hit
/// points otherwise.
pub open spec fn basic_turn(
    objects: Seq<ObjectView>,
    log: LogView,
    id: int,
    grid: GridView,
    fov: Seq<Seq<bool>>,
) -> Turn {
    let m = objects[id];
    let p = objects[PLAYER as int];
    if !seen(fov, m.x as int, m.y as int) {
        Turn { objects, log, ai: Ai::Basic }
    } else if m.distance_squared(p) >= 4 {
        Turn {
            objects: moved_towards(objects, id, p.x as int, p.y as int, grid),
            log,
            ai: Ai::Basic,
        }
    } else if p.hp() > 0 {
        Turn {
            objects: objects.update(PLAYER as int, struck(m, p)),
            log: attack_log(log, m, p),
            ai: Ai::Basic,
        }
    } else {
        Turn { objects, log, ai: Ai::Basic }
    }
}

/// The turn of a confused entity in slot `id` with `turns` turns left: it
/// tries a step of a drawn offset in each axis; with no turn left after
/// that, the log says so and the state before the confusion returns.
/// Beside the turn stands the generator after the two draws.
pub open spec fn confused_turn(
    objects: Seq<ObjectView>,
    log: LogView,
    dice: Dice,
    id: int,
    grid: GridView,
    previous: Ai,
    turns: i32,
) -> (Turn, Dice) {
    let dx = dice.value(-1i32, 2);
    let d1 = dice.next(-1i32, 2);
    let dy = d1.value(-1i32, 2);
    let d2 = d1.next(-1i32, 2);
    let after = moved_by(objects, id, dx as int, dy as int, grid);
    if turns <= 0 {
        (
            Turn {
                objects: after,
                log: log.logged(objects[id].name + " nao esta mais confuso"@, red()),
                ai: previous,
            },
            d2,
        )
    } else {
        (
            Turn {
                objects: after,
                log,
                ai: Ai::Confused { previous: Box::new(previous), turns: (turns - 1) as i32 },
            },
            d2,
        )
    }
}

/// The turn of a scared entity in slot `id` with `turns` turns left: in
/// the player's view and with a turn left it tries a step away from the
/// player; otherwise the state before the fear returns.
pub open spec fn scared_turn(
    objects: Seq<ObjectView>,
    log: LogView,
    id: int,
    grid: GridView,
    fov: Seq<Seq<bool>>,
    previous: Ai,
    turns: i32,
) -> Turn {
    let m = objects[id];
    let p = objects[PLAYER as int];
    if turns > 0 && seen(fov, m.x as int, m.y as int) {
        Turn {
            objects: moved_away(objects, id, p.x as int, p.y as int, grid),
            log,
            ai: Ai::Scared { previous: Box::new(previous), turns: (turns - 1) as i32 },
        }
    } else {
        Turn { objects, log, ai: previous }
    }
}

/// `objects` with the state of the entity in slot `id` replaced.
pub open spec fn with_ai(objects: Seq<ObjectView>, id: int, ai: Option<Ai>) -> Seq<ObjectView> {
    objects.update(id, ObjectView { ai, ..objects[id] })
}

/// The turn of the entity in slot `id`, whatever its state: nothing for
/// an entity without one.
pub open spec fn ai_turn(
    objects: Seq<ObjectView>,
    log: LogView,
    dice: Dice,
    id: int,
    grid: GridView,
    fov: Seq<Seq<bool>>,
) -> (Seq<ObjectView>, LogView, Dice) {
    match objects[id].ai {
        None => (objects, log, dice),
        Some(ai) => {
            let idle = with_ai(objects, id, None);
            let (t, d) = match ai {
                Ai::Basic => (basic_turn(idle, log, id, grid, fov), dice),
                Ai::Confused { previous, turns } => confused_turn(
                    idle,
                    log,
                    dice,
                    id,
                    grid,
                    *previous,
                    turns,
                ),
                Ai::Scared { previous, turns } => (
                    scared_turn(idle, log, id, grid, fov, *previous, turns),
                    dice,
                ),
            };
            (with_ai(t.objects, id, Some(t.ai)), t.log, d)
        },
    }
}

/// Lets a `Basic` entity act: approach the player it sees, or strike when
/// next to it.
pub fn ai_basic(
    monster_id: usize,
    map: &TileGrid,
    objects: &mut [Object],
    fov_map: &FovMap,
    messages: &mut MessageLog,
) -> (next: Ai)
    requires
        monster_id < old(objects)@.len(),
        monster_id != PLAYER,
        map.wf(),
        all_wf(old(objects)@),
        old(messages).wf(),
    ensures
        (Turn { objects: arena(final(objects)@), log: final(messages)@, ai: next }) == basic_turn(
            arena(old(objects)@),
            old(messages)@,
            monster_id as int,
            map@,
            fov_map@,
        ),
        final(objects)@.len() == old(objects)@.len(),
        all_wf(final(objects)@),
        final(messages).wf(),
{
    let (monster_x, monster_y) = objects[monster_id].pos();
    if fov_map.is_in_fov(monster_x, monster_y) {
        if objects[monster_id].distance_squared_to(&objects[PLAYER]) >= 4 {
            let (player_x, player_y) = objects[PLAYER].pos();
            move_towards(monster_id, player_x, player_y, map, objects);
            proof {
                lemma_moved_wf(old(objects)@, objects@, monster_id as int);
            }
        } else if has_hp(&objects[PLAYER]) {
            match mut_two(monster_id, PLAYER, objects) {
                Ok((monster, player)) => {
                    monster.attack(player, messages);
                },
                Err(_) => {},
            }
            assert(arena(objects@) =~= arena(old(objects)@).update(
                PLAYER as int,
                struck(old(objects)@[monster_id as int]@, old(objects)@[PLAYER as int]@),
            ));
        }
    }
    Ai::Basic
}

/// Whether `o` has a fighter with hit points left.
pub fn has_hp(o: &Object) -> (r: bool)
    ensures
        r == (o@.hp() > 0),
{
    match o.fighter {
        Some(f) => f.hp > 0,
        None => false,
    }
}

/// A step changes the place of one entity and nothing else, so fighters
/// keep their bounds.
pub proof fn lemma_moved_wf(before: Seq<Object>, after: Seq<Object>, id: int)
    requires
        all_wf(before),
        0 <= id < before.len(),
        after.len() == before.len(),
        forall|i: int| 0 <= i < before.len() && i != id ==> #[trigger] arena(after)[i] == arena(before)[i],
        arena(after)[id].fighter == arena(before)[id].fighter,
    ensures
        all_wf(after),
{
    assert forall|i: int| 0 <= i < after.len() implies (#[trigger] after[i]).wf() by {
        assert(before[i].wf());
        assert(arena(after)[i] == after[i]@);
        assert(arena(before)[i] == before[i]@);
    }
}

/// Lets a scared entity act: flee while the fear lasts and the player
/// sees it, come to its senses otherwise.
pub fn ai_scared(
    monster_id: usize,
    map: &TileGrid,
    objects: &mut [Object],
    fov_map: &FovMap,
    _messages: &mut MessageLog,
    previous: Box<Ai>,
    turns: i32,
) -> (next: Ai)
    requires
        monster_id < old(objects)@.len(),
        PLAYER < old(objects)@.len(),
        map.wf(),
        all_wf(old(objects)@),
    ensures
        (Turn { objects: arena(final(objects)@), log: final(_messages)@, ai: next }) == scared_turn(
            arena(old(objects)@),
            old(_messages)@,
            monster_id as int,
            map@,
            fov_map@,
            *previous,
            turns,
        ),
        final(objects)@.len() == old(objects)@.len(),
        all_wf(final(objects)@),
        *final(_messages) == *old(_messages),
{
    if turns > 0 {
        let (monster_x, monster_y) = objects[monster_id].pos();
        if fov_map.is_in_fov(monster_x, monster_y) {
            let (player_x, player_y) = objects[PLAYER].pos();
            move_away(monster_id, player_x, player_y, map, objects);
            proof {
                lemma_moved_wf(old(objects)@, objects@, monster_id as int);
            }
            return Ai::Scared { previous: previous, turns: turns - 1 };
        }
    }
    *previous
}

/// `after` stands within one cell of `before` on each axis.
pub open spec fn within_a_step(before: ObjectView, after: ObjectView) -> bool {
    before.x - 1 <= after.x <= before.x + 1 && before.y - 1 <= after.y <= before.y + 1
}

/// Lets a confused entity act: stumble by a random offset, and come to
/// its senses when the confusion has run out.
pub fn ai_confused(
    monster_id: usize,
    map: &TileGrid,
    objects: &mut [Object],
    messages: &mut MessageLog,
    previous: Box<Ai>,
    turns: i32,
    dice: &mut Dice,
) -> (next: Ai)
    requires
        monster_id < old(objects)@.len(),
        map.wf(),
        all_wf(old(objects)@),
        old(messages).wf(),
        old(dice).wf(),
    ensures
        (Turn { objects: arena(final(objects)@), log: final(messages)@, ai: next }, *final(dice))
            == confused_turn(
            arena(old(objects)@),
            old(messages)@,
            *old(dice),
            monster_id as int,
            map@,
            *previous,
            turns,
        ),
        final(objects)@.len() == old(objects)@.len(),
        within_a_step(
            arena(old(objects)@)[monster_id as int],
            arena(final(objects)@)[monster_id as int],
        ),
        forall|i: int|
            0 <= i < old(objects)@.len() && i != monster_id ==> #[trigger] arena(final(objects)@)[i]
                == arena(old(objects)@)[i],
        all_wf(final(objects)@),
        final(messages).wf(),
        final(dice).wf(),
{
    let dx = dice.roll(-1, 2);
    let dy = dice.roll(-1, 2);
    move_by(monster_id, dx, dy, map, objects);
    proof {
        lemma_moved_wf(old(objects)@, objects@, monster_id as int);
    }
    if turns > 0 {
        Ai::Confused { previous: previous, turns: turns - 1 }
    } else {
        message(messages, join2(objects[monster_id].name.as_str(), " nao esta mais confuso"), red());
        *previous
    }
}

/// Lets the entity in slot `monster_id` take its turn, if it has a state.
#[verifier::rlimit(40)]
pub fn ai_take_turn(
    monster_id: usize,
    map: &TileGrid,
    objects: &mut [Object],
    fov_map: &FovMap,
    messages: &mut MessageLog,
    dice: &mut Dice,
)
    requires
        monster_id < old(objects)@.len(),
        monster_id != PLAYER,
        map.wf(),
        all_wf(old(objects)@),
        old(messages).wf(),
        old(dice).wf(),
    ensures
        (arena(final(objects)@), final(messages)@, *final(dice)) == ai_turn(
            arena(old(objects)@),
            old(messages)@,
            *old(dice),
            monster_id as int,
            map@,
            fov_map@,
        ),
        final(objects)@.len() == old(objects)@.len(),
        all_wf(final(objects)@),
        player_kept(arena(old(objects)@), arena(final(objects)@)),
        final(messages).wf(),
        final(dice).wf(),
{
    let taken = objects[monster_id].ai.take();
    if let Some(ai) = taken {
        assert(arena(objects@) =~= with_ai(arena(old(objects)@), monster_id as int, None));
        proof {
            lemma_wf_kept(old(objects)@, objects@);
        }
        let ghost idle = objects@;
        let new_ai = match ai {
            Ai::Basic => ai_basic(monster_id, map, objects, fov_map, messages),
            Ai::Confused { previous, turns } => ai_confused(
                monster_id,
                map,
                objects,
                messages,
                previous,
                turns,
                dice,
            ),
            Ai::Scared { previous, turns } => ai_scared(
                monster_id,
                map,
                objects,
                fov_map,
                messages,
                previous,
                turns,
            ),
        };
        let ghost acted = objects@;
        objects[monster_id].ai = Some(new_ai);
        assert(arena(objects@) =~= with_ai(arena(acted), monster_id as int, Some(new_ai)));
        proof {
            lemma_wf_kept(acted, objects@);
        }
    } else {
        assert(arena(objects@) =~= arena(old(objects)@));
        proof {
            lemma_wf_kept(old(objects)@, objects@);
        }
    }
}

/// The arena, the log and the generator after the entity in slot `id` has
/// taken `n` turns in a row.
pub open spec fn ai_turns(
    objects: Seq<ObjectView>,
    log: LogView,
    dice: Dice,
    id: int,
    grid: GridView,
    fov: Seq<Seq<bool>>,
    n: nat,
) -> (Seq<ObjectView>, LogView, Dice)
    decreases n,
{
    if n == 0 {
        (objects, log, dice)
    } else {
        let (o, l, d) = ai_turn(objects, log, dice, id, grid, fov);
        ai_turns(o, l, d, id, grid, fov, (n - 1) as nat)
    }
}

/// One turn of a confused entity: its name stays, its confusion is one
/// turn shorter and the log is untouched, or, with no turn left, the state
/// before returns and the log gains the line that says so.
pub proof fn lemma_confused_turn(
    objects: Seq<ObjectView>,
    log: LogView,
    dice: Dice,
    id: int,
    grid: GridView,
    fov: Seq<Seq<bool>>,
    previous: Ai,
    turns: i32,
)
    requires
        0 <= id < objects.len(),
        objects[id].ai == Some(Ai::Confused { previous: Box::new(previous), turns }),
    ensures
        ({
            let (o, l, d) = ai_turn(objects, log, dice, id, grid, fov);
            &&& o.len() == objects.len()
            &&& o[id].name == objects[id].name
            &&& turns > 0 ==> o[id].ai == Some(
                Ai::Confused { previous: Box::new(previous), turns: (turns - 1) as i32 },
            ) && l == log
            &&& turns <= 0 ==> o[id].ai == Some(previous) && l == log.logged(
                objects[id].name + " nao esta mais confuso"@,
                red(),
            )
        }),
{
}

/// Confusion wears off: an entity that has just been confused is back in
/// the state it had before after six turns of its own, and in those six
/// turns the log gains one line, the one that says so.
pub proof fn lemma_confusion_wears_off(
    objects: Seq<ObjectView>,
    log: LogView,
    dice: Dice,
    id: int,
    grid: GridView,
    fov: Seq<Seq<bool>>,
    previous: Ai,
)
    requires
        0 <= id < objects.len(),
        objects[id].ai == Some(Ai::Confused { previous: Box::new(previous), turns: EFFECT_TURNS }),
    ensures
        ({
            let (o, l, d) = ai_turns(objects, log, dice, id, grid, fov, 6);
            &&& o.len() == objects.len()
            &&& o[id].ai == Some(previous)
            &&& l == log.logged(objects[id].name + " nao esta mais confuso"@, red())
        }),
{
    reveal_with_fuel(ai_turns, 7);
    let (o1, l1, d1) = ai_turn(objects, log, dice, id, grid, fov);
    lemma_confused_turn(objects, log, dice, id, grid, fov, previous, 5);
    let (o2, l2, d2) = ai_turn(o1, l1, d1, id, grid, fov);
    lemma_confused_turn(o1, l1, d1, id, grid, fov, previous, 4);
    let (o3, l3, d3) = ai_turn(o2, l2, d2, id, grid, fov);
    lemma_confused_turn(o2, l2, d2, id, grid, fov, previous, 3);
    let (o4, l4, d4) = ai_turn(o3, l3, d3, id, grid, fov);
    lemma_confused_turn(o3, l3, d3, id, grid, fov, previous, 2);
    let (o5, l5, d5) = ai_turn(o4, l4, d4, id, grid, fov);
    lemma_confused_turn(o4, l4, d4, id, grid, fov, previous, 1);
    let (o6, l6, d6) = ai_turn(o5, l5, d5, id, grid, fov);
    lemma_confused_turn(o5, l5, d5, id, grid, fov, previous, 0);
}

} // verus!
