//! A small seeded generator: the one source of chance in a game.

use vstd::prelude::*;

verus! {

/// Multiplier of the generator's step.
pub const FACTOR: u64 = 6364136223846793005;

/// Increment of the generator's step.
pub const INCREMENT: u64 = 1442695040888963407;

/// The state that follows `s`: one linear congruential step modulo 2^64.
pub open spec fn next_state(s: u64) -> u64 {
    ((s * FACTOR + INCREMENT) % 0x1_0000_0000_0000_0000) as u64
}

/// What a state shows to the outside: its upper half.
pub open spec fn face(s: u64) -> u64 {
    (s / 0x1_0000_0000) as u64
}

/// A linear congruential generator over 64 bits.
pub struct Dice {
    state: u64,
}

impl View for Dice {
    type V = u64;

    closed spec fn view(&self) -> u64 {
        self.state
    }
}

impl Dice {
    /// A generator that starts from `seed`.
    pub fn seeded(seed: u64) -> (d: Dice)
        ensures
            d@ == seed,
    {
        Dice { state: seed }
    }

    /// Steps the generator and shows the new state's face.
    pub fn roll(&mut self) -> (r: u64)
        ensures
            final(self)@ == next_state(old(self)@),
            r == face(final(self)@),
    {
        assert(self.state * FACTOR + INCREMENT <= u128::MAX) by (nonlinear_arith)
            requires
                self.state <= u64::MAX,
                FACTOR <= u64::MAX,
                INCREMENT <= u64::MAX,
        ;
        let wide: u128 = self.state as u128 * FACTOR as u128 + INCREMENT as u128;
        self.state = (wide % 0x1_0000_0000_0000_0000u128) as u64;
        self.state / 0x1_0000_0000u64
    }

    /// Steps the generator and reduces the face to an index below `n`.
    pub fn roll_below(&mut self, n: usize) -> (r: usize)
        requires
            n > 0,
        ensures
            final(self)@ == next_state(old(self)@),
            r == face(final(self)@) % (n as u64),
            r < n,
    {
        let r = self.roll();
        (r % (n as u64)) as usize
    }
}

} // verus!
