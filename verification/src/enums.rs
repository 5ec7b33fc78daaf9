//! The small tagged types shared by the whole engine.

use vstd::prelude::*;

verus! {

/// What an item does when it is used.
#[derive(Clone, Copy, Debug, PartialEq, Eq, Structural)]
pub enum ItemType {
    Heal,
    Damage,
    FireBolt,
    Confuse,
    Scare,
    Merge,
}

/// Outcome of using an item: consumed, or kept because nothing happened.
#[derive(Clone, Copy, Debug, PartialEq, Eq, Structural)]
pub enum UseResult {
    UsedUp,
    Cancelled,
}

/// Whether a player intent consumed the turn.
#[derive(Clone, Copy, Debug, PartialEq, Eq, Structural)]
pub enum PlayerAction {
    TookTurn,
    DidntTakeTurn,
    Exit,
}

/// Which routine runs when a fighter's hit points reach zero.
#[derive(Clone, Copy, Debug, PartialEq, Eq, Structural)]
pub enum DeathCallback {
    Player,
    Monster,
}

/// Behaviour state of a non-player entity. The two timed states own the
/// state they will fall back to, so the nesting is finite by construction.
#[derive(Debug)]
pub enum Ai {
    Basic,
    Confused { previous: Box<Ai>, turns: i32 },
    Scared { previous: Box<Ai>, turns: i32 },
}

/// Number of turns a freshly applied confusion or fear lasts.
pub const EFFECT_TURNS: i32 = 5;

impl Ai {
    /// How many timed states are stacked on top of the innermost `Basic`.
    pub open spec fn depth(self) -> nat
        decreases self,
    {
        match self {
            Ai::Basic => 0,
            Ai::Confused { previous, .. } => 1 + previous.depth(),
            Ai::Scared { previous, .. } => 1 + previous.depth(),
        }
    }

    /// A deep copy of the state.
    pub fn copy(&self) -> (r: Ai)
        ensures
            r == *self,
        decreases *self,
    {
        match self {
            Ai::Basic => Ai::Basic,
            Ai::Confused { previous, turns } => Ai::Confused {
                previous: Box::new(previous.copy()),
                turns: *turns,
            },
            Ai::Scared { previous, turns } => Ai::Scared {
                previous: Box::new(previous.copy()),
                turns: *turns,
            },
        }
    }

    /// Structural comparison of two states.
    pub fn same(&self, other: &Ai) -> (r: bool)
        ensures
            r == (*self == *other),
        decreases *self,
    {
        match (self, other) {
            (Ai::Basic, Ai::Basic) => true,
            (Ai::Confused { previous: p, turns: t }, Ai::Confused { previous: q, turns: u }) => {
                *t == *u && p.same(q)
            },
            (Ai::Scared { previous: p, turns: t }, Ai::Scared { previous: q, turns: u }) => {
                *t == *u && p.same(q)
            },
            _ => false,
        }
    }

    /// Wraps `self` in a confusion that lasts `EFFECT_TURNS` turns.
    pub fn confused(self) -> (r: Ai)
        ensures
            r == (Ai::Confused { previous: Box::new(self), turns: EFFECT_TURNS }),
            r.depth() == self.depth() + 1,
    {
        Ai::Confused { previous: Box::new(self), turns: EFFECT_TURNS }
    }

    /// Wraps `self` in a fear that lasts `EFFECT_TURNS` turns.
    pub fn scared(self) -> (r: Ai)
        ensures
            r == (Ai::Scared { previous: Box::new(self), turns: EFFECT_TURNS }),
            r.depth() == self.depth() + 1,
    {
        Ai::Scared { previous: Box::new(self), turns: EFFECT_TURNS }
    }
}

impl Clone for Ai {
    fn clone(&self) -> (r: Ai)
        ensures
            r == *self,
    {
        self.copy()
    }
}

impl PartialEq for Ai {
    fn eq(&self, other: &Ai) -> (r: bool) {
        self.same(other)
    }
}

impl vstd::std_specs::cmp::PartialEqSpecImpl for Ai {
    open spec fn obeys_eq_spec() -> bool {
        true
    }

    open spec fn eq_spec(&self, other: &Ai) -> bool {
        *self == *other
    }
}

} // verus!
