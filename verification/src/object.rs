//! Entities and their components: what stands on the grid, fights, carries
//! an effect or lies on the floor to be picked up.

use vstd::prelude::*;
use crate::color::{Color, dark_red, green, red, potion_purple, light_red, scroll_orange, black, orange};
use crate::enums::{Ai, DeathCallback, ItemType};
use crate::messages::{message, LogView, MessageLog};
use crate::rect::toward_zero;
use crate::text::{decimal, decimal_text, join2, join3};

verus! {

/// The combat component.
#[derive(Clone, Copy, Debug, PartialEq, Eq, Structural)]
pub struct Fighter {
    pub max_hp: i32,
    pub hp: i32,
    pub max_mana: i32,
    pub mana: i32,
    pub defense: i32,
    pub power: i32,
    pub on_death: DeathCallback,
}

impl Fighter {
    /// Hit points and mana stay between zero and their maximum.
    pub open spec fn wf(self) -> bool {
        0 <= self.hp <= self.max_hp && 0 <= self.mana <= self.max_mana
    }
}

/// The item component: what using it does, how much, how far.
#[derive(Clone, Copy, Debug, PartialEq, Eq, Structural)]
pub struct Item {
    pub item_type: ItemType,
    pub amount: u32,
    pub range: u32,
}

impl Item {
    /// An item of the given kind, amount and range.
    pub fn new(item_type: ItemType, amount: u32, range: u32) -> (item: Item)
        ensures
            item == (Item { item_type, amount, range }),
    {
        Item { item_type, amount, range }
    }

    /// Heals five hit points.
    #[verifier::allow_in_spec]
    pub fn heal_potion() -> Item
        returns
            (Item { item_type: ItemType::Heal, amount: 5, range: 0 }),
    {
        Item { item_type: ItemType::Heal, amount: 5, range: 0 }
    }

    /// Deals twenty damage within five cells.
    #[verifier::allow_in_spec]
    pub fn fire_ball() -> Item
        returns
            (Item { item_type: ItemType::FireBolt, amount: 20, range: 5 }),
    {
        Item { item_type: ItemType::FireBolt, amount: 20, range: 5 }
    }

    /// Confuses within five cells.
    #[verifier::allow_in_spec]
    pub fn confusion_spell() -> Item
        returns
            (Item { item_type: ItemType::Confuse, amount: 0, range: 5 }),
    {
        Item { item_type: ItemType::Confuse, amount: 0, range: 5 }
    }

    /// Scares within five cells.
    #[verifier::allow_in_spec]
    pub fn fear_spell() -> Item
        returns
            (Item { item_type: ItemType::Scare, amount: 0, range: 5 }),
    {
        Item { item_type: ItemType::Scare, amount: 0, range: 5 }
    }

    /// Merges within five cells.
    #[verifier::allow_in_spec]
    pub fn merge_spell() -> Item
        returns
            (Item { item_type: ItemType::Merge, amount: 0, range: 5 }),
    {
        Item { item_type: ItemType::Merge, amount: 0, range: 5 }
    }
}

/// Torch radius of a newly made entity.
pub const TORCH_RADIUS: i32 = 10;

/// An entity of the game.
#[derive(Debug)]
pub struct Object {
    pub x: i32,
    pub y: i32,
    pub glyph: char,
    pub color: Color,
    pub name: String,
    pub blocks: bool,
    pub alive: bool,
    pub fighter: Option<Fighter>,
    pub ai: Option<Ai>,
    pub item: Option<Item>,
    pub torch_radius: i32,
    pub always_visible: bool,
}

/// An entity as the contracts see it: the name is its sequence of
/// characters, every other field is itself.
pub struct ObjectView {
    pub x: i32,
    pub y: i32,
    pub glyph: char,
    pub color: Color,
    pub name: Seq<char>,
    pub blocks: bool,
    pub alive: bool,
    pub fighter: Option<Fighter>,
    pub ai: Option<Ai>,
    pub item: Option<Item>,
    pub torch_radius: i32,
    pub always_visible: bool,
}

impl View for Object {
    type V = ObjectView;

    open spec fn view(&self) -> ObjectView {
        ObjectView {
            x: self.x,
            y: self.y,
            glyph: self.glyph,
            color: self.color,
            name: self.name@,
            blocks: self.blocks,
            alive: self.alive,
            fighter: self.fighter,
            ai: self.ai,
            item: self.item,
            torch_radius: self.torch_radius,
            always_visible: self.always_visible,
        }
    }
}

/// The views of a list of entities, slot by slot.
pub open spec fn arena(objects: Seq<Object>) -> Seq<ObjectView> {
    Seq::new(objects.len(), |i: int| objects[i]@)
}

/// Every entity of `objects` keeps its fighter's points within bounds.
pub open spec fn all_wf(objects: Seq<Object>) -> bool {
    forall|i: int| 0 <= i < objects.len() ==> (#[trigger] objects[i]).wf()
}

/// Fighters keep their bounds through a change of the arena that takes
/// no slot away and leaves in every slot an entity within bounds, if the
/// one before it was.
pub proof fn lemma_wf_kept(before: Seq<Object>, after: Seq<Object>)
    requires
        all_wf(before),
        after.len() == before.len(),
        forall|i: int|
            0 <= i < before.len() && arena(before)[i].wf() ==> (#[trigger] arena(after)[i]).wf(),
    ensures
        all_wf(after),
{
    assert forall|i: int| 0 <= i < after.len() implies (#[trigger] after[i]).wf() by {
        assert(before[i].wf());
        assert(arena(before)[i] == before[i]@);
        assert(arena(after)[i] == after[i]@);
    }
}

/// `objects` begins with the entities of `before`, unchanged.
pub open spec fn extends(objects: Seq<Object>, before: Seq<Object>) -> bool {
    before.len() <= objects.len() && objects.subrange(0, before.len() as int) == before
}

/// The player of `after` is neither a pickup nor driven by a state
/// machine if the player of `before` was not.
pub open spec fn player_kept(before: Seq<ObjectView>, after: Seq<ObjectView>) -> bool {
    &&& after.len() >= 1
    &&& before[0].item.is_none() ==> after[0].item.is_none()
    &&& before[0].ai.is_none() ==> after[0].ai.is_none()
}

/// `v` limited to `lo..=hi`.
pub open spec fn clamp(v: int, lo: int, hi: int) -> int {
    if v < lo {
        lo
    } else if v > hi {
        hi
    } else {
        v
    }
}

/// A merged statistic: three quarters of the sum, rounded toward zero.
pub open spec fn merged_stat(a: int, b: int) -> int {
    toward_zero(3 * (a + b), 4)
}

impl ObjectView {
    /// A bare entity: not alive, no components, default torch.
    pub open spec fn plain(x: i32, y: i32, glyph: char, name: Seq<char>, color: Color, blocks: bool) -> ObjectView {
        ObjectView {
            x,
            y,
            glyph,
            color,
            name,
            blocks,
            alive: false,
            fighter: None,
            ai: None,
            item: None,
            torch_radius: TORCH_RADIUS,
            always_visible: false,
        }
    }

    /// A pickup lying on the floor.
    pub open spec fn pickup(x: i32, y: i32, glyph: char, name: Seq<char>, color: Color, item: Item) -> ObjectView {
        ObjectView { item: Some(item), ..ObjectView::plain(x, y, glyph, name, color, false) }
    }

    /// A fighter, if there is one, keeps its points within their bounds.
    pub open spec fn wf(self) -> bool {
        self.fighter matches Some(f) ==> f.wf()
    }

    /// The fighter's power, or zero without a fighter.
    pub open spec fn power(self) -> int {
        match self.fighter {
            Some(f) => f.power as int,
            None => 0,
        }
    }

    /// The fighter's defense, or zero without a fighter.
    pub open spec fn defense(self) -> int {
        match self.fighter {
            Some(f) => f.defense as int,
            None => 0,
        }
    }

    /// The fighter's most hit points, or zero without a fighter.
    pub open spec fn max_hp(self) -> int {
        match self.fighter {
            Some(f) => f.max_hp as int,
            None => 0,
        }
    }

    /// The fighter's hit points, or zero without a fighter.
    pub open spec fn hp(self) -> int {
        match self.fighter {
            Some(f) => f.hp as int,
            None => 0,
        }
    }

    /// Squared Euclidean distance between two entities.
    pub open spec fn distance_squared(self, other: ObjectView) -> int {
        (other.x - self.x) * (other.x - self.x) + (other.y - self.y) * (other.y - self.y)
    }

    /// After healing: hit points rise by `amount`, within zero and the
    /// maximum.
    pub open spec fn healed(self, amount: int) -> ObjectView {
        match self.fighter {
            Some(f) => ObjectView {
                fighter: Some(Fighter { hp: clamp(f.hp + amount, 0, f.max_hp as int) as i32, ..f }),
                ..self
            },
            None => self,
        }
    }

    /// After spending mana: mana falls by `amount`, within zero and the
    /// maximum.
    pub open spec fn drained(self, amount: int) -> ObjectView {
        match self.fighter {
            Some(f) => ObjectView {
                fighter: Some(
                    Fighter { mana: clamp(f.mana - amount, 0, f.max_mana as int) as i32, ..f },
                ),
                ..self
            },
            None => self,
        }
    }

    /// After losing hit points, before any death is dealt with: a positive
    /// `damage` is taken off, not below zero; any other leaves them alone.
    pub open spec fn hurt(self, damage: int) -> ObjectView {
        match self.fighter {
            Some(f) => if damage > 0 {
                ObjectView {
                    fighter: Some(Fighter { hp: clamp(f.hp - damage, 0, f.hp as int) as i32, ..f }),
                    ..self
                }
            } else {
                self
            },
            None => self,
        }
    }

    /// The player's body after death.
    pub open spec fn as_dead_player(self) -> ObjectView {
        ObjectView { glyph: '%', color: dark_red(), ..self }
    }

    /// A monster's remains.
    pub open spec fn as_dead_monster(self) -> ObjectView {
        ObjectView {
            glyph: 'x',
            color: dark_red(),
            blocks: false,
            fighter: None,
            ai: None,
            name: "remains of "@ + self.name,
            ..self
        }
    }

    /// What `callback` makes of the entity.
    pub open spec fn fallen(self, callback: DeathCallback) -> ObjectView {
        match callback {
            DeathCallback::Player => self.as_dead_player(),
            DeathCallback::Monster => self.as_dead_monster(),
        }
    }

    /// After taking `damage`, death included.
    pub open spec fn damaged(self, damage: int) -> ObjectView {
        let h = self.hurt(damage);
        match h.fighter {
            Some(f) => if f.hp <= 0 {
                (ObjectView { alive: false, ..h }).fallen(f.on_death)
            } else {
                h
            },
            None => h,
        }
    }

    /// Whether two entities can be merged without a statistic leaving the
    /// range of its type.
    pub open spec fn merge_fits(self, target: ObjectView) -> bool {
        &&& i32::MIN <= merged_stat(self.defense(), target.defense()) <= i32::MAX
        &&& i32::MIN <= merged_stat(self.power(), target.power()) <= i32::MAX
        &&& i32::MIN <= merged_stat(self.max_hp(), target.max_hp()) <= i32::MAX
    }

    /// The entity that merging `self` with `target` makes: it stands where
    /// `self` stands and looks like it but for the colour, which is the
    /// target's; its name is the two names with a blank between them; its
    /// defense, power and most hit points are three quarters of the sums,
    /// its hit points the sum, at most the new maximum; its mana and its
    /// state are those of `self`.
    pub open spec fn merged(self, target: ObjectView) -> ObjectView {
        let max_hp = merged_stat(self.max_hp(), target.max_hp());
        let sum = self.hp() + target.hp();
        ObjectView {
            fighter: Some(
                Fighter {
                    mana: match self.fighter {
                        Some(f) => f.mana,
                        None => 0,
                    },
                    max_mana: match self.fighter {
                        Some(f) => f.max_mana,
                        None => 0,
                    },
                    defense: merged_stat(self.defense(), target.defense()) as i32,
                    hp: (if sum < max_hp { sum } else { max_hp }) as i32,
                    max_hp: max_hp as i32,
                    power: merged_stat(self.power(), target.power()) as i32,
                    on_death: DeathCallback::Player,
                },
            ),
            ai: self.ai,
            alive: true,
            ..ObjectView::plain(
                self.x,
                self.y,
                self.glyph,
                self.name + " "@ + target.name,
                target.color,
                self.blocks,
            )
        }
    }
}

/// The log after `callback` has announced the death of `o`.
pub open spec fn death_log(log: LogView, o: ObjectView, callback: DeathCallback) -> LogView {
    match callback {
        DeathCallback::Player => log.logged("Voce morreu!"@, red()),
        DeathCallback::Monster => log.logged(o.name + " esta morto"@, green()),
    }
}

/// The log after `o` has taken `damage`.
pub open spec fn damage_log(log: LogView, o: ObjectView, damage: int) -> LogView {
    let h = o.hurt(damage);
    match h.fighter {
        Some(f) => if f.hp <= 0 {
            death_log(log, h, f.on_death)
        } else {
            log
        },
        None => log,
    }
}

/// The damage of one blow: the attacker's power less the defender's
/// defense.
pub open spec fn blow(attacker: ObjectView, defender: ObjectView) -> int {
    attacker.power() - defender.defense()
}

/// The defender after `attacker` has struck it: hurt by a positive blow,
/// untouched by any other.
pub open spec fn struck(attacker: ObjectView, defender: ObjectView) -> ObjectView {
    let damage = blow(attacker, defender);
    if damage > 0 {
        defender.damaged(damage)
    } else {
        defender
    }
}

/// The log after `attacker` has struck `defender`.
pub open spec fn attack_log(log: LogView, attacker: ObjectView, defender: ObjectView) -> LogView {
    let damage = blow(attacker, defender);
    if damage > 0 {
        damage_log(
            log.logged(
                attacker.name + " ataca "@ + defender.name + " com "@ + decimal_text(damage)
                    + " pontos de forca."@,
                red(),
            ),
            defender,
            damage,
        )
    } else {
        log.logged(attacker.name + " ataca "@ + defender.name + " mas nao tem efeito!"@, red())
    }
}

/// Points stay within their bounds: healing, spending mana, taking damage
/// and being struck each leave a fighter with hit points between zero and
/// their maximum and mana between zero and its maximum.
pub proof fn lemma_points_stay_in_bounds(o: ObjectView, attacker: ObjectView, amount: int)
    requires
        o.wf(),
    ensures
        o.healed(amount).wf(),
        o.drained(amount).wf(),
        o.hurt(amount).wf(),
        o.damaged(amount).wf(),
        struck(attacker, o).wf(),
{
}

/// The player dies: the log says so and the body becomes a corpse. The
/// entity stays in play, inert.
pub fn player_death(player: &mut Object, messages: &mut MessageLog)
    requires
        old(messages).wf(),
    ensures
        final(player)@ == old(player)@.as_dead_player(),
        final(messages)@ == death_log(old(messages)@, old(player)@, DeathCallback::Player),
        final(messages).wf(),
{
    message(messages, String::from_str("Voce morreu!"), red());
    player.glyph = '%';
    player.color = dark_red();
}

/// A monster dies: the log says so, and what is left neither blocks, fights
/// nor acts.
pub fn monster_death(monster: &mut Object, messages: &mut MessageLog)
    requires
        old(messages).wf(),
    ensures
        final(monster)@ == old(monster)@.as_dead_monster(),
        final(messages)@ == death_log(old(messages)@, old(monster)@, DeathCallback::Monster),
        final(messages).wf(),
{
    message(messages, join2(monster.name.as_str(), " esta morto"), green());
    monster.glyph = 'x';
    monster.color = dark_red();
    monster.blocks = false;
    monster.fighter = None;
    monster.ai = None;
    monster.name = join2("remains of ", monster.name.as_str());
}

impl DeathCallback {
    /// Runs the death routine that `self` names on `object`.
    pub fn callback(self, object: &mut Object, messages: &mut MessageLog)
        requires
            old(messages).wf(),
        ensures
            final(object)@ == old(object)@.fallen(self),
            final(messages)@ == death_log(old(messages)@, old(object)@, self),
            final(messages).wf(),
    {
        match self {
            DeathCallback::Player => player_death(object, messages),
            DeathCallback::Monster => monster_death(object, messages),
        }
    }
}

impl Clone for Object {
    fn clone(&self) -> (r: Object)
        ensures
            r == *self,
    {
        Object {
            x: self.x,
            y: self.y,
            glyph: self.glyph,
            color: self.color,
            name: self.name.clone(),
            blocks: self.blocks,
            alive: self.alive,
            fighter: self.fighter,
            ai: match &self.ai {
                Some(ai) => Some(ai.copy()),
                None => None,
            },
            item: self.item,
            torch_radius: self.torch_radius,
            always_visible: self.always_visible,
        }
    }
}

impl Object {
    /// The entity keeps its fighter's points within their bounds.
    pub open spec fn wf(&self) -> bool {
        self@.wf()
    }

    /// A bare entity: not alive, no components, default torch.
    pub fn new(x: i32, y: i32, glyph: char, name: String, color: Color, blocks: bool) -> (o: Object)
        ensures
            o@ == ObjectView::plain(x, y, glyph, name@, color, blocks),
            o.name == name,
    {
        Object {
            x,
            y,
            glyph,
            color,
            name,
            blocks,
            alive: false,
            fighter: None,
            ai: None,
            item: None,
            torch_radius: TORCH_RADIUS,
            always_visible: false,
        }
    }

    /// A healing potion lying on `(x, y)`.
    pub fn heal_potion(x: i32, y: i32) -> (o: Object)
        ensures
            o@ == ObjectView::pickup(x, y, '!', "Pocao de cura"@, potion_purple(), Item::heal_potion()),
    {
        let mut object = Object::new(x, y, '!', String::from_str("Pocao de cura"), potion_purple(), false);
        object.item = Some(Item::heal_potion());
        object
    }

    /// A fire ball scroll lying on `(x, y)`.
    pub fn fire_ball(x: i32, y: i32) -> (o: Object)
        ensures
            o@ == ObjectView::pickup(x, y, 'º', "Bola de Fogo"@, light_red(), Item::fire_ball()),
    {
        let mut object = Object::new(x, y, 'º', String::from_str("Bola de Fogo"), light_red(), false);
        object.item = Some(Item::fire_ball());
        object
    }

    /// A confusion scroll lying on `(x, y)`.
    pub fn confusion_spell(x: i32, y: i32) -> (o: Object)
        ensures
            o@ == ObjectView::pickup(
                x,
                y,
                '$',
                "Feitico de confusao"@,
                scroll_orange(),
                Item::confusion_spell(),
            ),
    {
        let mut object = Object::new(
            x,
            y,
            '$',
            String::from_str("Feitico de confusao"),
            scroll_orange(),
            false,
        );
        object.item = Some(Item::confusion_spell());
        object
    }

    /// A fear scroll lying on `(x, y)`.
    pub fn fear_spell(x: i32, y: i32) -> (o: Object)
        ensures
            o@ == ObjectView::pickup(x, y, '*', "Feitico de medo"@, black(), Item::fear_spell()),
    {
        let mut object = Object::new(x, y, '*', String::from_str("Feitico de medo"), black(), false);
        object.item = Some(Item::fear_spell());
        object
    }

    /// A merge scroll lying on `(x, y)`.
    pub fn merge_spell(x: i32, y: i32) -> (o: Object)
        ensures
            o@ == ObjectView::pickup(x, y, 'M', "Feitico de fusao"@, orange(), Item::merge_spell()),
    {
        let mut object = Object::new(x, y, 'M', String::from_str("Feitico de fusao"), orange(), false);
        object.item = Some(Item::merge_spell());
        object
    }

    /// Where the entity stands.
    pub fn pos(&self) -> (p: (i32, i32))
        ensures
            p == (self.x, self.y),
    {
        (self.x, self.y)
    }

    /// Puts the entity on `(x, y)`.
    pub fn set_pos(&mut self, x: i32, y: i32)
        ensures
            final(self)@ == (ObjectView { x, y, ..old(self)@ }),
            final(self).name == old(self).name,
    {
        self.x = x;
        self.y = y;
    }

    /// Squared Euclidean distance to `other`.
    pub fn distance_squared_to(&self, other: &Object) -> (d: u128)
        ensures
            d == self@.distance_squared(other@),
    {
        let dx: i128 = other.x as i128 - self.x as i128;
        let dy: i128 = other.y as i128 - self.y as i128;
        assert(0 <= dx * dx <= 0x1_0000_0000 * 0x1_0000_0000) by (nonlinear_arith)
            requires
                -0x1_0000_0000 <= dx <= 0x1_0000_0000,
        ;
        assert(0 <= dy * dy <= 0x1_0000_0000 * 0x1_0000_0000) by (nonlinear_arith)
            requires
                -0x1_0000_0000 <= dy <= 0x1_0000_0000,
        ;
        (dx * dx + dy * dy) as u128
    }

    /// Restores up to `amount` hit points, never beyond the maximum.
    pub fn heal(&mut self, amount: i32)
        requires
            old(self).wf(),
        ensures
            final(self)@ == old(self)@.healed(amount as int),
            final(self).name == old(self).name,
            final(self).wf(),
    {
        if let Some(f) = self.fighter {
            let raised: i64 = f.hp as i64 + amount as i64;
            let hp: i32 = if raised < 0 {
                0
            } else if raised > f.max_hp as i64 {
                f.max_hp
            } else {
                raised as i32
            };
            self.fighter = Some(Fighter { hp, ..f });
        }
    }

    /// Spends up to `amount` mana, never below zero.
    pub fn take_mana(&mut self, amount: i32)
        requires
            old(self).wf(),
        ensures
            final(self)@ == old(self)@.drained(amount as int),
            final(self).name == old(self).name,
            final(self).wf(),
    {
        if let Some(f) = self.fighter {
            let left: i64 = f.mana as i64 - amount as i64;
            let mana: i32 = if left < 0 {
                0
            } else if left > f.max_mana as i64 {
                f.max_mana
            } else {
                left as i32
            };
            self.fighter = Some(Fighter { mana, ..f });
        }
    }

    /// Takes a positive `damage` off the hit points, not below zero; any
    /// other damage leaves them alone. An entity whose hit points are then
    /// at zero is no longer alive, and its death routine runs.
    pub fn take_damage(&mut self, damage: i32, messages: &mut MessageLog)
        requires
            old(self).wf(),
            old(messages).wf(),
        ensures
            final(self)@ == old(self)@.damaged(damage as int),
            final(messages)@ == damage_log(old(messages)@, old(self)@, damage as int),
            final(self).wf(),
            final(messages).wf(),
    {
        if let Some(f) = self.fighter {
            if damage > 0 {
                let hp: i32 = if f.hp > damage {
                    f.hp - damage
                } else {
                    0
                };
                self.fighter = Some(Fighter { hp, ..f });
            }
        }
        if let Some(f) = self.fighter {
            if f.hp <= 0 {
                self.alive = false;
                f.on_death.callback(self, messages);
            }
        }
    }

    /// Strikes `target`: a positive difference of power and defense is
    /// taken off its hit points, anything else has no effect.
    pub fn attack(&mut self, target: &mut Object, messages: &mut MessageLog)
        requires
            old(target).wf(),
            old(messages).wf(),
        ensures
            *final(self) == *old(self),
            final(target)@ == struck(old(self)@, old(target)@),
            final(messages)@ == attack_log(old(messages)@, old(self)@, old(target)@),
            final(target).wf(),
            final(messages).wf(),
    {
        let power: i64 = match self.fighter {
            Some(f) => f.power as i64,
            None => 0,
        };
        let defense: i64 = match target.fighter {
            Some(f) => f.defense as i64,
            None => 0,
        };
        let damage: i64 = power - defense;
        if damage > 0 {
            let mut text = join3(self.name.as_str(), " ataca ", target.name.as_str());
            text.append(" com ");
            text.append(decimal(damage).as_str());
            text.append(" pontos de forca.");
            message(messages, text, red());
            let dealt: i32 = if damage > i32::MAX as i64 {
                i32::MAX
            } else {
                damage as i32
            };
            target.take_damage(dealt, messages);
        } else {
            let mut text = join3(self.name.as_str(), " ataca ", target.name.as_str());
            text.append(" mas nao tem efeito!");
            message(messages, text, red());
        }
    }

    /// Whether `self` can be merged with `target` without a statistic
    /// leaving the range of its type.
    pub fn fits_merge(&self, target: &Object) -> (r: bool)
        ensures
            r == self@.merge_fits(target@),
    {
        let (a_defense, a_power, a_max_hp): (i64, i64, i64) = match self.fighter {
            Some(f) => (f.defense as i64, f.power as i64, f.max_hp as i64),
            None => (0, 0, 0),
        };
        let (b_defense, b_power, b_max_hp): (i64, i64, i64) = match target.fighter {
            Some(f) => (f.defense as i64, f.power as i64, f.max_hp as i64),
            None => (0, 0, 0),
        };
        let defense: i64 = (3 * (a_defense + b_defense)) / 4;
        let power: i64 = (3 * (a_power + b_power)) / 4;
        let max_hp: i64 = (3 * (a_max_hp + b_max_hp)) / 4;
        i32::MIN as i64 <= defense && defense <= i32::MAX as i64 && i32::MIN as i64 <= power && power
            <= i32::MAX as i64 && i32::MIN as i64 <= max_hp && max_hp <= i32::MAX as i64
    }

    /// Whether the fighter, if there is one, keeps its points within
    /// their bounds.
    pub fn is_wf(&self) -> (r: bool)
        ensures
            r == self.wf(),
    {
        match self.fighter {
            Some(f) => 0 <= f.hp && f.hp <= f.max_hp && 0 <= f.mana && f.mana <= f.max_mana,
            None => true,
        }
    }

    /// Makes the entity that unites `self` and `target`; neither is
    /// changed.
    pub fn merge(&mut self, target: &mut Object) -> (merged: Object)
        requires
            old(self).wf(),
            old(target).wf(),
            old(self)@.merge_fits(old(target)@),
        ensures
            *final(self) == *old(self),
            *final(target) == *old(target),
            merged@ == old(self)@.merged(old(target)@),
            merged.wf(),
    {
        let (a_defense, a_power, a_max_hp, a_hp, a_mana, a_max_mana): (i64, i64, i64, i64, i32, i32) =
            match self.fighter {
            Some(f) => (
                f.defense as i64,
                f.power as i64,
                f.max_hp as i64,
                f.hp as i64,
                f.mana,
                f.max_mana,
            ),
            None => (0, 0, 0, 0, 0, 0),
        };
        let (b_defense, b_power, b_max_hp, b_hp): (i64, i64, i64, i64) = match target.fighter {
            Some(f) => (f.defense as i64, f.power as i64, f.max_hp as i64, f.hp as i64),
            None => (0, 0, 0, 0),
        };
        let defense: i64 = (3 * (a_defense + b_defense)) / 4;
        let power: i64 = (3 * (a_power + b_power)) / 4;
        let max_hp: i64 = (3 * (a_max_hp + b_max_hp)) / 4;
        let sum: i64 = a_hp + b_hp;
        let hp: i64 = if sum < max_hp {
            sum
        } else {
            max_hp
        };
        let name = join3(self.name.as_str(), " ", target.name.as_str());
        let mut object = Object::new(self.x, self.y, self.glyph, name, target.color, self.blocks);
        object.fighter = Some(
            Fighter {
                mana: a_mana,
                max_mana: a_max_mana,
                defense: defense as i32,
                hp: hp as i32,
                max_hp: max_hp as i32,
                power: power as i32,
                on_death: DeathCallback::Player,
            },
        );
        object.ai = match &self.ai {
            Some(ai) => Some(ai.copy()),
            None => None,
        };
        object.alive = true;
        object
    }
}

} // verus!
