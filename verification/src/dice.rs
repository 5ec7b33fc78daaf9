//! The source of randomness: a seedable generator whose whole state is four
//! plain words, so that every draw is a function of the state before it.

use vstd::prelude::*;
use rand::Rng;
use rand::SeedableRng;

verus! {

/// What `rand::XorShiftRng`, seeded with the words `a`, `b`, `c`, `d`, gives
/// for one `gen_range(low, high)` followed by four `next_u32`: the number in
/// the range and the four words.
pub uninterp spec fn xorshift_draw(a: u32, b: u32, c: u32, d: u32, low: i32, high: i32) -> (
    i32,
    u32,
    u32,
    u32,
    u32,
);

/// Calls `rand::XorShiftRng::from_seed` with the four words, then
/// `rand::Rng::gen_range(low, high)` once and `rand::Rng::next_u32` four
/// times on that generator.
///
/// Believed, not proved: the result is `xorshift_draw` of the arguments (the
/// generator is integer arithmetic on its seed and nothing else), and the
/// number lies in `low..high`, as `gen_range` documents. Both calls that can
/// panic are kept from it: `from_seed` on an all-zero seed and `gen_range`
/// on an empty range.
#[verifier::external_body]
fn draw_in_range(a: u32, b: u32, c: u32, d: u32, low: i32, high: i32) -> (out: (
    i32,
    u32,
    u32,
    u32,
    u32,
))
    requires
        a != 0 || b != 0 || c != 0 || d != 0,
        low < high,
    ensures
        out == xorshift_draw(a, b, c, d, low, high),
        low <= out.0 < high,
{
    let mut rng = rand::XorShiftRng::from_seed([a, b, c, d]);
    let value = rng.gen_range(low, high);
    (value, rng.next_u32(), rng.next_u32(), rng.next_u32(), rng.next_u32())
}

/// A random number generator held as four words. The words after a draw are
/// the next four outputs of the generator, which for this generator are its
/// state.
#[derive(Clone, Copy, Debug, PartialEq, Eq, Structural)]
pub struct Dice {
    a: u32,
    b: u32,
    c: u32,
    d: u32,
}

/// Third word of a freshly seeded generator.
pub const SEED_C: u32 = 0x9E37_79B9;

/// Fourth word of a freshly seeded generator.
pub const SEED_D: u32 = 0x7F4A_7C15;

impl Dice {
    /// A generator can draw as long as its words are not all zero.
    pub closed spec fn wf(self) -> bool {
        self.a != 0 || self.b != 0 || self.c != 0 || self.d != 0
    }

    /// The generator that `from_seed` makes of `seed`.
    pub closed spec fn seeded(seed: u64) -> Dice {
        Dice {
            a: (seed % 0x1_0000_0000) as u32,
            b: (seed / 0x1_0000_0000) as u32,
            c: SEED_C,
            d: SEED_D,
        }
    }

    /// The number that the next draw from `low..high` gives: what the
    /// outside generator gives, which lies in the range.
    pub closed spec fn value(self, low: i32, high: i32) -> i32 {
        let v = xorshift_draw(self.a, self.b, self.c, self.d, low, high).0;
        if low <= v < high {
            v
        } else {
            low
        }
    }

    /// The generator after a draw from `low..high`.
    pub closed spec fn next(self, low: i32, high: i32) -> Dice {
        let out = xorshift_draw(self.a, self.b, self.c, self.d, low, high);
        if out.1 == 0 && out.2 == 0 && out.3 == 0 && out.4 == 0 {
            Dice::seeded(0)
        } else {
            Dice { a: out.1, b: out.2, c: out.3, d: out.4 }
        }
    }

    /// A draw lies in its range, and the generator that it leaves behind
    /// can draw again.
    pub proof fn lemma_draw(self, low: i32, high: i32)
        requires
            low < high,
        ensures
            low <= self.value(low, high) < high,
            self.next(low, high).wf(),
    {
    }

    /// A generator whose draws are fixed by `seed`.
    pub fn from_seed(seed: u64) -> (dice: Dice)
        ensures
            dice == Dice::seeded(seed),
            dice.wf(),
    {
        Dice {
            a: (seed % 0x1_0000_0000) as u32,
            b: (seed / 0x1_0000_0000) as u32,
            c: SEED_C,
            d: SEED_D,
        }
    }

    /// Draws a number from `low..high` and advances the generator.
    pub fn roll(&mut self, low: i32, high: i32) -> (r: i32)
        requires
            old(self).wf(),
            low < high,
        ensures
            r == old(self).value(low, high),
            *final(self) == old(self).next(low, high),
            final(self).wf(),
            low <= r < high,
    {
        let out = draw_in_range(self.a, self.b, self.c, self.d, low, high);
        if out.1 == 0 && out.2 == 0 && out.3 == 0 && out.4 == 0 {
            *self = Dice::from_seed(0);
        } else {
            self.a = out.1;
            self.b = out.2;
            self.c = out.3;
            self.d = out.4;
        }
        out.0
    }
}

} // verus!
