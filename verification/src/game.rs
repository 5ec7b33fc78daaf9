//! One turn of the game: the player's intent, then the turn of every
//! entity that acts.

use vstd::prelude::*;
use crate::ai::{ai_take_turn, ai_turn};
use crate::color::red;
use crate::dice::Dice;
use crate::enums::{ItemType, PlayerAction};
use crate::fov::FovMap;
use crate::items::{is_merge_safe, merge_safe, use_item, used};
use crate::map::{flipped, GridView, TileGrid};
use crate::mapgen::{generate_with, generated, GenConfig, Level};
use crate::messages::{message, LogView, MessageLog};
use crate::object::{all_wf, lemma_wf_kept, arena, attack_log, player_kept, struck, Object, ObjectView};
use crate::view::{camera_after, handle_camera};
use crate::store::{
    move_by,
    moved_by,
    mut_two,
    pick_item_up,
    picked_up,
    InvalidIndices,
    Picked,
    PLAYER,
};

verus! {

/// What the player wants to do this turn.
#[derive(Clone, Copy, Debug, PartialEq, Eq, Structural)]
pub enum PlayerIntent {
    /// Step by an offset, or strike what stands there.
    Move(i32, i32),
    /// Use an entry of the inventory.
    UseItem(usize),
    /// Pick up what lies under the player.
    PickUp,
    /// Flip the explored flag of every tile.
    ToggleExploredDebug,
    /// Widen or narrow the torch.
    AdjustTorchRadius(i32),
    /// Leave the game.
    Quit,
}

/// The entity `o` stands on `(x, y)` and has an item component, if
/// `want_item`, or a fighter, if not.
pub open spec fn found(o: ObjectView, x: int, y: int, want_item: bool) -> bool {
    o.x == x && o.y == y && (if want_item {
        o.item.is_some()
    } else {
        o.fighter.is_some()
    })
}

/// The lowest of the first `n` slots whose entity is `found`.
pub open spec fn first_at(objects: Seq<ObjectView>, x: int, y: int, want_item: bool, n: nat) -> Option<
    usize,
>
    decreases n,
{
    if n == 0 {
        None
    } else {
        match first_at(objects, x, y, want_item, (n - 1) as nat) {
            Some(i) => Some(i),
            None => if found(objects[n - 1], x, y, want_item) {
                Some((n - 1) as usize)
            } else {
                None
            },
        }
    }
}

/// Finds the first entity on `(x, y)` with an item component, if
/// `want_item`, or with a fighter, if not.
pub fn find_at(objects: &[Object], x: i64, y: i64, want_item: bool) -> (r: Option<usize>)
    ensures
        r == first_at(arena(objects@), x as int, y as int, want_item, objects@.len()),
        r matches Some(i) ==> i < objects@.len() && found(
            arena(objects@)[i as int],
            x as int,
            y as int,
            want_item,
        ),
        r matches Some(i) ==> forall|k: int|
            0 <= k < i ==> !found(#[trigger] arena(objects@)[k], x as int, y as int, want_item),
        r is None ==> forall|i: int|
            0 <= i < objects@.len() ==> !found(
                #[trigger] arena(objects@)[i],
                x as int,
                y as int,
                want_item,
            ),
{
    let mut i: usize = 0;
    while i < objects.len()
        invariant
            i <= objects@.len(),
            first_at(arena(objects@), x as int, y as int, want_item, i as nat) is None,
            forall|k: int| 0 <= k < i ==> !found(#[trigger] arena(objects@)[k], x as int, y as int, want_item),
        decreases objects@.len() - i,
    {
        let o = &objects[i];
        let here = o.x as i64 == x && o.y as i64 == y;
        let has = if want_item {
            o.item.is_some()
        } else {
            o.fighter.is_some()
        };
        if here && has {
            proof {
                lemma_first_found(arena(objects@), x as int, y as int, want_item, i as int, objects@.len());
            }
            return Some(i);
        }
        i = i + 1;
    }
    None
}

/// Once a slot has been found among the first slots, it stays the first
/// however many more are looked at.
pub proof fn lemma_first_found(objects: Seq<ObjectView>, x: int, y: int, want_item: bool, i: int, n: nat)
    requires
        0 <= i < n,
        first_at(objects, x, y, want_item, i as nat) is None,
        found(objects[i], x, y, want_item),
    ensures
        first_at(objects, x, y, want_item, n) == Some(i as usize),
    decreases n,
{
    if n > i + 1 {
        lemma_first_found(objects, x, y, want_item, i, (n - 1) as nat);
    }
}

/// What a step of the player leaves behind: the arena, the inventory and
/// the log.
pub struct Stepped {
    pub objects: Seq<ObjectView>,
    pub inventory: Seq<ObjectView>,
    pub log: LogView,
}

/// The player moves by `(dx, dy)` or attacks. First the first item on
/// the destination is picked up. Then the first fighter there is struck;
/// if there is none, the player steps there unless the cell is blocked.
pub open spec fn after_step(
    objects: Seq<ObjectView>,
    inventory: Seq<ObjectView>,
    log: LogView,
    dx: int,
    dy: int,
    grid: GridView,
) -> Stepped {
    let x2 = objects[PLAYER as int].x + dx;
    let y2 = objects[PLAYER as int].y + dy;
    let p = match first_at(objects, x2, y2, true, objects.len()) {
        Some(i) => picked_up(objects, inventory, log, i as int),
        None => Picked { objects, inventory, log },
    };
    match first_at(p.objects, x2, y2, false, p.objects.len()) {
        Some(t) => Stepped {
            objects: p.objects.update(
                t as int,
                struck(p.objects[PLAYER as int], p.objects[t as int]),
            ),
            inventory: p.inventory,
            log: attack_log(p.log, p.objects[PLAYER as int], p.objects[t as int]),
        },
        None => Stepped {
            objects: moved_by(p.objects, PLAYER as int, dx, dy, grid),
            inventory: p.inventory,
            log: p.log,
        },
    }
}

/// A step by `(dx, dy)` would have the player strike itself: it goes
/// nowhere, and the player is a fighter.
pub open spec fn strikes_self(objects: Seq<ObjectView>, dx: int, dy: int) -> bool {
    dx == 0 && dy == 0 && objects[PLAYER as int].fighter.is_some()
}

/// What must hold of the arena between turns: the player is there and is
/// neither a pickup nor driven by a state machine, and every fighter
/// keeps its points within bounds.
pub open spec fn arena_ok(objects: Seq<Object>) -> bool {
    &&& objects.len() >= 1
    &&& all_wf(objects)
    &&& objects[PLAYER as int].item.is_none()
    &&& objects[PLAYER as int].ai.is_none()
}

/// Whether the arena is in order.
pub fn arena_in_order(objects: &[Object]) -> (r: bool)
    ensures
        r == arena_ok(objects@),
{
    if objects.len() < 1 {
        return false;
    }
    if objects[PLAYER].item.is_some() || objects[PLAYER].ai.is_some() {
        return false;
    }
    let mut i: usize = 0;
    while i < objects.len()
        invariant
            i <= objects@.len(),
            forall|k: int| 0 <= k < i ==> (#[trigger] objects@[k]).wf(),
        decreases objects@.len() - i,
    {
        if !objects[i].is_wf() {
            return false;
        }
        i = i + 1;
    }
    true
}

/// Moves the player by `(dx, dy)`, or has it strike the fighter that
/// stands there, after picking up the item that lies there. A step that
/// would have the player strike itself is an error and changes nothing.
#[verifier::rlimit(40)]
pub fn player_move_or_attack(
    dx: i32,
    dy: i32,
    map: &TileGrid,
    objects: &mut Vec<Object>,
    messages: &mut MessageLog,
    inventory: &mut Vec<Object>,
) -> (r: Result<(), InvalidIndices>)
    requires
        map.wf(),
        arena_ok(old(objects)@),
        old(messages).wf(),
    ensures
        r.is_err() <==> strikes_self(arena(old(objects)@), dx as int, dy as int),
        r.is_err() ==> *final(objects) == *old(objects) && *final(inventory) == *old(inventory)
            && *final(messages) == *old(messages),
        r.is_ok() ==> (Stepped {
            objects: arena(final(objects)@),
            inventory: arena(final(inventory)@),
            log: final(messages)@,
        }) == after_step(
            arena(old(objects)@),
            arena(old(inventory)@),
            old(messages)@,
            dx as int,
            dy as int,
            map@,
        ),
        arena_ok(final(objects)@),
        final(messages).wf(),
{
    if dx == 0 && dy == 0 && objects[PLAYER].fighter.is_some() {
        return Err(InvalidIndices);
    }
    let x2: i64 = objects[PLAYER].x as i64 + dx as i64;
    let y2: i64 = objects[PLAYER].y as i64 + dy as i64;
    let item_id = find_at(objects.as_slice(), x2, y2, true);
    if let Some(item_id) = item_id {
        assert(arena(old(objects)@)[PLAYER as int].item.is_none());
        pick_item_up(item_id, objects, inventory, messages);
    }
    let ghost picked = objects@;
    assert(picked[PLAYER as int].item.is_none() && picked[PLAYER as int].ai.is_none());
    let target_id = find_at(objects.as_slice(), x2, y2, false);
    match target_id {
        Some(target_id) => {
            match mut_two(PLAYER, target_id, objects.as_mut_slice()) {
                Ok((player, target)) => {
                    player.attack(target, messages);
                },
                Err(_) => {},
            }
            assert(arena(objects@) =~= arena(picked).update(
                target_id as int,
                struck(picked[PLAYER as int]@, picked[target_id as int]@),
            ));
            proof {
                lemma_wf_kept(picked, objects@);
                assert(arena(objects@)[PLAYER as int] == arena(picked)[PLAYER as int]);
                assert(arena(objects@)[PLAYER as int] == objects@[PLAYER as int]@);
                assert(arena(picked)[PLAYER as int] == picked[PLAYER as int]@);
            }
        },
        None => {
            move_by(PLAYER, dx, dy, map, objects.as_mut_slice());
            proof {
                crate::ai::lemma_moved_wf(picked, objects@, PLAYER as int);
                assert(arena(objects@)[PLAYER as int].item == arena(picked)[PLAYER as int].item);
                assert(arena(objects@)[PLAYER as int].ai == arena(picked)[PLAYER as int].ai);
                assert(arena(objects@)[PLAYER as int] == objects@[PLAYER as int]@);
                assert(arena(picked)[PLAYER as int] == picked[PLAYER as int]@);
            }
        },
    }
    Ok(())
}

/// The world of one game: the grid, the arena with the player in its
/// first slot, what the player carries, the log, the dice and the camera.
#[derive(Debug)]
pub struct Game {
    pub map: TileGrid,
    pub objects: Vec<Object>,
    pub inventory: Vec<Object>,
    pub messages: MessageLog,
    pub dice: Dice,
    pub camera: (i32, i32),
}

/// A game as the contracts see it.
pub struct GameView {
    pub grid: GridView,
    pub objects: Seq<ObjectView>,
    pub inventory: Seq<ObjectView>,
    pub log: LogView,
    pub dice: Dice,
    pub camera: (i32, i32),
}

impl View for Game {
    type V = GameView;

    open spec fn view(&self) -> GameView {
        GameView {
            grid: self.map@,
            objects: arena(self.objects@),
            inventory: arena(self.inventory@),
            log: self.messages@,
            dice: self.dice,
            camera: self.camera,
        }
    }
}

impl Game {
    /// The grid is rectangular, the arena is in order, the log keeps its
    /// bound and the dice can be rolled.
    pub open spec fn wf(&self) -> bool {
        &&& self.map.wf()
        &&& arena_ok(self.objects@)
        &&& self.messages.wf()
        &&& self.dice.wf()
    }

    /// Generates the level of `level_seed` for `config` and starts a game
    /// on it with the dice of `seed`.
    pub fn generate(level_seed: u64, config: &GenConfig, seed: u64) -> (game: Game)
        requires
            config.valid(),
        ensures
            game.wf(),
            game@.grid == generated(level_seed, *config).grid,
            game@.objects == generated(level_seed, *config).objects,
            game@.inventory.len() == 0,
            game@.dice == Dice::seeded(seed),
    {
        let level = generate_with(level_seed, config);
        Game::new(level, seed)
    }

    /// Starts a game on `level`: nothing is carried, the log bids
    /// welcome, the camera is on the player, and the dice are those of
    /// `seed`.
    pub fn new(level: Level, seed: u64) -> (game: Game)
        requires
            level.map.wf(),
            arena_ok(level.objects@),
        ensures
            game.wf(),
            game@ == (GameView {
                grid: level.map@,
                objects: arena(level.objects@),
                inventory: Seq::empty(),
                log: (LogView { lines: Seq::empty(), capacity: crate::messages::MSG_HEIGHT as nat }).logged(
                    "Bem vindo!"@,
                    red(),
                ),
                dice: Dice::seeded(seed),
                camera: (level.objects@[PLAYER as int].x, level.objects@[PLAYER as int].y),
            }),
    {
        let mut messages = MessageLog::standard();
        assert(messages@ == (LogView { lines: Seq::empty(), capacity: crate::messages::MSG_HEIGHT as nat })) by {
            assert(messages@.lines =~= Seq::empty());
        }
        message(&mut messages, String::from_str("Bem vindo!"), red());
        let camera = (level.objects[PLAYER].x, level.objects[PLAYER].y);
        let game = Game {
            map: level.map,
            objects: level.objects,
            inventory: Vec::new(),
            messages,
            dice: Dice::from_seed(seed),
            camera,
        };
        assert(arena(game.inventory@) =~= Seq::empty());
        game
    }
}

/// The intent can be carried out. An inventory entry that merges asks
/// that the player can be merged with every entity without a statistic
/// leaving the range of its type; a change of the torch asks that the
/// radius stays in the range of its type.
pub open spec fn intent_ok(g: GameView, intent: PlayerIntent) -> bool {
    match intent {
        PlayerIntent::UseItem(i) => i < g.inventory.len() && (g.inventory[i as int].item matches Some(
            item,
        ) && item.item_type == ItemType::Merge) ==> merge_safe(g.objects),
        PlayerIntent::AdjustTorchRadius(delta) => i32::MIN <= g.objects[PLAYER as int].torch_radius
            + delta <= i32::MAX,
        _ => true,
    }
}

/// Whether the intent can be carried out.
pub fn can_handle(game: &Game, intent: PlayerIntent) -> (r: bool)
    requires
        game.objects@.len() >= 1,
    ensures
        r == intent_ok(game@, intent),
{
    match intent {
        PlayerIntent::UseItem(i) => {
            if i < game.inventory.len() {
                match game.inventory[i].item {
                    Some(item) => match item.item_type {
                        ItemType::Merge => is_merge_safe(game.objects.as_slice()),
                        _ => true,
                    },
                    None => true,
                }
            } else {
                true
            }
        },
        PlayerIntent::AdjustTorchRadius(delta) => {
            let radius: i64 = game.objects[PLAYER].torch_radius as i64 + delta as i64;
            i32::MIN as i64 <= radius && radius <= i32::MAX as i64
        },
        _ => true,
    }
}

/// The world after the player's intent, and whether it took the turn.
/// Quitting leaves; a dead player can do nothing else. A step takes the
/// turn. Using an entry of the inventory, picking up what lies under the
/// player, flipping the explored flags and changing the torch do not.
pub open spec fn intended(g: GameView, intent: PlayerIntent, fov: Seq<Seq<bool>>) -> (
    GameView,
    PlayerAction,
) {
    let p = g.objects[PLAYER as int];
    match intent {
        PlayerIntent::Quit => (g, PlayerAction::Exit),
        _ => if !p.alive {
            (g, PlayerAction::DidntTakeTurn)
        } else {
            match intent {
                PlayerIntent::Move(dx, dy) => {
                    let s = after_step(g.objects, g.inventory, g.log, dx as int, dy as int, g.grid);
                    (
                        GameView { objects: s.objects, inventory: s.inventory, log: s.log, ..g },
                        PlayerAction::TookTurn,
                    )
                },
                PlayerIntent::UseItem(i) => if i < g.inventory.len() {
                    let u = used(g.inventory, i as int, g.objects, g.log, g.dice, fov);
                    (
                        GameView {
                            objects: u.objects,
                            inventory: u.inventory,
                            log: u.log,
                            dice: u.dice,
                            ..g
                        },
                        PlayerAction::DidntTakeTurn,
                    )
                } else {
                    (g, PlayerAction::DidntTakeTurn)
                },
                PlayerIntent::PickUp => match first_at(
                    g.objects,
                    p.x as int,
                    p.y as int,
                    true,
                    g.objects.len(),
                ) {
                    Some(i) => {
                        let k = picked_up(g.objects, g.inventory, g.log, i as int);
                        (
                            GameView { objects: k.objects, inventory: k.inventory, log: k.log, ..g },
                            PlayerAction::DidntTakeTurn,
                        )
                    },
                    None => (g, PlayerAction::DidntTakeTurn),
                },
                PlayerIntent::ToggleExploredDebug => (
                    GameView { grid: flipped(g.grid), ..g },
                    PlayerAction::DidntTakeTurn,
                ),
                PlayerIntent::AdjustTorchRadius(delta) => (
                    GameView {
                        objects: g.objects.update(
                            PLAYER as int,
                            ObjectView { torch_radius: (p.torch_radius + delta) as i32, ..p },
                        ),
                        ..g
                    },
                    PlayerAction::DidntTakeTurn,
                ),
                PlayerIntent::Quit => (g, PlayerAction::Exit),
            }
        },
    }
}

/// The intent is a step of a living player that would have it strike
/// itself.
pub open spec fn self_strike(g: GameView, intent: PlayerIntent) -> bool {
    intent matches PlayerIntent::Move(dx, dy) && g.objects[PLAYER as int].alive && strikes_self(
        g.objects,
        dx as int,
        dy as int,
    )
}

/// Carries out the player's intent and says whether it took the turn. A
/// step that would have the player strike itself is an error and changes
/// nothing.
#[verifier::rlimit(40)]
pub fn handle_intent(game: &mut Game, intent: PlayerIntent, fov_map: &FovMap) -> (r: Result<
    PlayerAction,
    InvalidIndices,
>)
    requires
        old(game).wf(),
        intent_ok(old(game)@, intent),
    ensures
        r.is_err() <==> self_strike(old(game)@, intent),
        r.is_err() ==> *final(game) == *old(game),
        r matches Ok(action) ==> (final(game)@, action) == intended(old(game)@, intent, fov_map@),
        final(game).wf(),
{
    if let PlayerIntent::Quit = intent {
        return Ok(PlayerAction::Exit);
    }
    if !game.objects[PLAYER].alive {
        return Ok(PlayerAction::DidntTakeTurn);
    }
    match intent {
        PlayerIntent::Move(dx, dy) => {
            match player_move_or_attack(
                dx,
                dy,
                &game.map,
                &mut game.objects,
                &mut game.messages,
                &mut game.inventory,
            ) {
                Ok(()) => Ok(PlayerAction::TookTurn),
                Err(e) => Err(e),
            }
        },
        PlayerIntent::UseItem(index) => {
            if index < game.inventory.len() {
                use_item(
                    index,
                    &mut game.inventory,
                    game.objects.as_mut_slice(),
                    &mut game.messages,
                    fov_map,
                    &mut game.dice,
                );
            }
            Ok(PlayerAction::DidntTakeTurn)
        },
        PlayerIntent::PickUp => {
            let (x, y) = game.objects[PLAYER].pos();
            let item_id = find_at(game.objects.as_slice(), x as i64, y as i64, true);
            if let Some(item_id) = item_id {
                assert(arena(game.objects@)[PLAYER as int].item.is_none());
                pick_item_up(item_id, &mut game.objects, &mut game.inventory, &mut game.messages);
            }
            Ok(PlayerAction::DidntTakeTurn)
        },
        PlayerIntent::ToggleExploredDebug => {
            game.map.toggle_explored();
            Ok(PlayerAction::DidntTakeTurn)
        },
        PlayerIntent::AdjustTorchRadius(delta) => {
            let ghost before = game.objects@;
            game.objects[PLAYER].torch_radius = game.objects[PLAYER].torch_radius + delta;
            assert(arena(game.objects@) =~= arena(before).update(
                PLAYER as int,
                ObjectView {
                    torch_radius: (before[PLAYER as int].torch_radius + delta) as i32,
                    ..before[PLAYER as int]@
                },
            ));
            proof {
                lemma_wf_kept(before, game.objects@);
            }
            Ok(PlayerAction::DidntTakeTurn)
        },
        PlayerIntent::Quit => Ok(PlayerAction::Exit),
    }
}

/// The arena, the log and the dice after the entities in the `n` slots
/// from `from` on have each taken their turn, in the order of the arena.
/// The player's slot is passed over.
pub open spec fn monsters_run(
    objects: Seq<ObjectView>,
    log: LogView,
    dice: Dice,
    grid: GridView,
    fov: Seq<Seq<bool>>,
    from: int,
    n: nat,
) -> (Seq<ObjectView>, LogView, Dice)
    decreases n,
{
    if n == 0 {
        (objects, log, dice)
    } else if from == PLAYER {
        monsters_run(objects, log, dice, grid, fov, from + 1, (n - 1) as nat)
    } else {
        let (o, l, d) = ai_turn(objects, log, dice, from, grid, fov);
        monsters_run(o, l, d, grid, fov, from + 1, (n - 1) as nat)
    }
}

/// Lets every entity that has a state take its turn, in the order of the
/// arena.
pub fn run_monsters(game: &mut Game, fov_map: &FovMap)
    requires
        old(game).wf(),
    ensures
        (final(game)@.objects, final(game)@.log, final(game)@.dice) == monsters_run(
            old(game)@.objects,
            old(game)@.log,
            old(game)@.dice,
            old(game)@.grid,
            fov_map@,
            0,
            old(game)@.objects.len(),
        ),
        final(game)@.grid == old(game)@.grid,
        final(game)@.inventory == old(game)@.inventory,
        final(game).camera == old(game).camera,
        final(game).wf(),
{
    let count = game.objects.len();
    let mut id: usize = 0;
    while id < count
        invariant
            id <= count,
            count == game.objects@.len(),
            game.wf(),
            game.map == old(game).map,
            game.inventory == old(game).inventory,
            game.camera == old(game).camera,
            monsters_run(
                old(game)@.objects,
                old(game)@.log,
                old(game)@.dice,
                old(game)@.grid,
                fov_map@,
                0,
                count as nat,
            ) == monsters_run(
                game@.objects,
                game@.log,
                game@.dice,
                game@.grid,
                fov_map@,
                id as int,
                (count - id) as nat,
            ),
        decreases count - id,
    {
        if id != PLAYER && game.objects[id].ai.is_some() {
            ai_take_turn(
                id,
                &game.map,
                game.objects.as_mut_slice(),
                fov_map,
                &mut game.messages,
                &mut game.dice,
            );
        }
        id = id + 1;
    }
}

/// The world after one whole turn, and what the player's intent came
/// to. After the intent the camera follows the player if the turn was
/// taken, and then, if the player is alive and the turn was taken, every
/// other entity takes its turn.
pub open spec fn ticked(g: GameView, intent: PlayerIntent, fov: Seq<Seq<bool>>) -> (
    GameView,
    PlayerAction,
) {
    let (g1, action) = intended(g, intent, fov);
    if action != PlayerAction::TookTurn {
        (g1, action)
    } else {
        let p = g1.objects[PLAYER as int];
        let g2 = GameView {
            camera: (
                camera_after(g1.camera.0 as int, p.x as int) as i32,
                camera_after(g1.camera.1 as int, p.y as int) as i32,
            ),
            ..g1
        };
        if p.alive {
            let (o, l, d) = monsters_run(g2.objects, g2.log, g2.dice, g2.grid, fov, 0, g2.objects.len());
            (GameView { objects: o, log: l, dice: d, ..g2 }, action)
        } else {
            (g2, action)
        }
    }
}

/// Plays one whole turn: the player's intent, the camera, and the turn
/// of every other entity.
pub fn tick(game: &mut Game, intent: PlayerIntent, fov_map: &FovMap) -> (r: Result<
    PlayerAction,
    InvalidIndices,
>)
    requires
        old(game).wf(),
        intent_ok(old(game)@, intent),
    ensures
        r.is_err() <==> self_strike(old(game)@, intent),
        r.is_err() ==> *final(game) == *old(game),
        r matches Ok(action) ==> (final(game)@, action) == ticked(old(game)@, intent, fov_map@),
        final(game).wf(),
{
    let action = match handle_intent(game, intent, fov_map) {
        Ok(action) => action,
        Err(e) => {
            return Err(e);
        },
    };
    if action == PlayerAction::TookTurn {
        handle_camera(&mut game.camera, game.objects.as_slice());
        if game.objects[PLAYER].alive {
            run_monsters(game, fov_map);
        }
    }
    Ok(action)
}

} // verus!
