//! The tempo, and the length of a step that follows from it.

use vstd::prelude::*;

verus! {

/// The length in microseconds of one step at `bpm` beats per minute: a
/// minute divided among 24 steps per beat, rounded down.
pub open spec fn period_us_of(bpm: u8) -> int {
    60int * 1000000 / 24 / (bpm as int)
}

/// A tempo in beats per minute, never 0, with the length of a step at it.
pub struct Bpm {
    period_us: u64,
    bpm: u8,
}

impl Bpm {
    #[verifier::type_invariant]
    spec fn well_formed(self) -> bool {
        self.bpm > 0 && self.period_us as int == period_us_of(self.bpm)
    }

    /// The tempo in beats per minute.
    pub closed spec fn beats(self) -> u8 {
        self.bpm
    }

    /// A tempo of `bpm` beats per minute, which must not be 0.
    pub fn new(bpm: u8) -> (r: Self)
        requires
            bpm > 0,
        ensures
            r.beats() == bpm,
    {
        Self { period_us: Self::compute_period_us(bpm), bpm }
    }

    /// Changes the tempo to `bpm` beats per minute, which must not be 0.
    pub fn set_bpm(&mut self, bpm: u8)
        requires
            bpm > 0,
        ensures
            final(self).beats() == bpm,
    {
        *self = Bpm::new(bpm);
    }

    /// The length in microseconds of one step at `bpm` beats per minute,
    /// which must not be 0.
    pub fn compute_period_us(bpm: u8) -> (r: u64)
        requires
            bpm > 0,
        ensures
            r as int == period_us_of(bpm),
    {
        60 * 1000000 / 24 / (bpm as u64)
    }

    /// The length in microseconds of one step at the current tempo.
    pub fn get_period_us(&self) -> (r: u64)
        ensures
            r as int == period_us_of(self.beats()),
            self.beats() > 0,
    {
        proof {
            use_type_invariant(self);
        }
        self.period_us
    }

    /// The tempo in beats per minute.
    pub fn get_bpm(&self) -> (r: u8)
        ensures
            r == self.beats(),
            r > 0,
    {
        proof {
            use_type_invariant(self);
        }
        self.bpm
    }
}

} // verus!
