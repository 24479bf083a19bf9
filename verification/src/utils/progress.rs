//! The progress of a run as an angle from 0 to 360 degrees, kept in
//! thousandths of a degree. While a run is under way the angle only grows
//! and stops short of the full turn; the full turn is reached by completing
//! the run and by nothing else.

use vstd::prelude::*;

verus! {

/// The full turn, in thousandths of a degree.
pub const FULL_TURN: u32 = 360_000;

/// The angle at which a run that is under way is held back, in thousandths
/// of a degree.
pub const HOLD_BACK: u32 = 359_000;

/// The progress of a run.
#[derive(Debug)]
pub struct Progress {
    turn: u32,
}

/// The angle after a step of `amount` from the angle `turn`: no more than
/// the angle at which a run is held back, and never less than before.
pub open spec fn advanced(turn: int, amount: int) -> int {
    if turn >= 359_000 {
        turn
    } else if turn + amount >= 359_000 {
        359_000
    } else {
        turn + amount
    }
}

impl Progress {
    #[verifier::type_invariant]
    spec fn in_range(self) -> bool {
        self.turn <= 360_000
    }

    /// The angle, in thousandths of a degree.
    pub closed spec fn turn(&self) -> int {
        self.turn as int
    }

    /// The progress of a run that has not begun.
    pub fn new() -> (p: Progress)
        ensures
            p.turn() == 0,
    {
        Progress { turn: 0 }
    }

    /// The angle, in thousandths of a degree.
    pub fn thousandths(&self) -> (t: u32)
        ensures
            t == self.turn(),
            t <= 360_000,
    {
        proof {
            use_type_invariant(self);
        }
        self.turn
    }

    /// The angle in whole degrees, rounded down.
    pub fn degrees(&self) -> (d: u32)
        ensures
            d == self.turn() / 1000,
            d <= 360,
    {
        proof {
            use_type_invariant(self);
        }
        self.turn / 1000
    }

    /// Whether the full turn is reached.
    pub fn is_complete(&self) -> (r: bool)
        ensures
            r == (self.turn() == 360_000),
    {
        self.turn == FULL_TURN
    }

    /// Moves the angle on by `amount` thousandths of a degree.
    pub fn advance(&mut self, amount: u32)
        ensures
            final(self).turn() == advanced(old(self).turn(), amount as int),
            old(self).turn() <= final(self).turn() <= 360_000,
    {
        proof {
            use_type_invariant(&*self);
        }
        if self.turn < HOLD_BACK {
            if amount >= HOLD_BACK - self.turn {
                self.turn = HOLD_BACK;
            } else {
                self.turn = self.turn + amount;
            }
        }
    }

    /// Sets the angle to the full turn.
    pub fn complete(&mut self)
        ensures
            final(self).turn() == 360_000,
            old(self).turn() <= final(self).turn(),
    {
        proof {
            use_type_invariant(&*self);
        }
        self.turn = FULL_TURN;
    }

    /// Sets the angle back to 0 for a new run.
    pub fn reset(&mut self)
        ensures
            final(self).turn() == 0,
    {
        self.turn = 0;
    }
}

/// The step that each of `units` equal parts of a run moves the angle on
/// by; 0 for a run without parts.
pub fn share_of(units: u32) -> (amount: u32)
    ensures
        units == 0 ==> amount == 0,
        units > 0 ==> amount == 360_000int / (units as int),
{
    if units == 0 {
        0
    } else {
        FULL_TURN / units
    }
}

/// The step that each of `chunks` equal chunks of a part moves the angle
/// on by, where the whole part moves it by `share`; 0 for a part without
/// chunks.
pub fn chunk_share(share: u32, chunks: usize) -> (amount: u32)
    ensures
        chunks == 0 ==> amount == 0,
        chunks > 0 ==> amount == share as int / chunks as int,
{
    if chunks == 0 {
        0
    } else {
        let amount: u64 = share as u64 / chunks as u64;
        assert(amount <= share) by (nonlinear_arith)
            requires
                amount == share as int / chunks as int,
                chunks > 0,
        ;
        amount as u32
    }
}

/// The angle after a step lies between the angle before and the full turn.
pub proof fn lemma_advanced_bounds(turn: int, amount: int)
    requires
        0 <= turn <= 360_000,
        0 <= amount,
    ensures
        turn <= advanced(turn, amount) <= 360_000,
        turn < 360_000 ==> advanced(turn, amount) < 360_000,
{
}

} // verus!
