//! Foraging: how the members of a swarm lay and follow trails.

use crate::binary64::{Binary64, ONE_BITS};
use vstd::prelude::*;

verus! {

/// Encoding of the evaporation rate that a foraging starts with: the
/// binary64 number nearest to 0.1.
pub const EVAPORATION_BITS: u64 = 0x3FB9_9999_9999_999A;

/// Encoding of the exploration rate that a foraging starts with: the
/// binary64 number nearest to 0.2.
pub const EXPLORATION_BITS: u64 = 0x3FC9_9999_9999_999A;

/// The rates of foraging.
#[derive(Clone, Debug)]
pub struct Foraging {
    pheromone_strength: Binary64,
    evaporation_rate: Binary64,
    exploration_rate: Binary64,
}

/// What a foraging holds.
pub struct ForagingView {
    pub pheromone_strength: Binary64,
    pub evaporation_rate: Binary64,
    pub exploration_rate: Binary64,
}

impl ForagingView {
    /// The rates that a foraging starts with: pheromone strength 1,
    /// evaporation rate 0.1 and exploration rate 0.2.
    pub open spec fn initial() -> ForagingView {
        ForagingView {
            pheromone_strength: Binary64 { bits: ONE_BITS },
            evaporation_rate: Binary64 { bits: EVAPORATION_BITS },
            exploration_rate: Binary64 { bits: EXPLORATION_BITS },
        }
    }
}

impl View for Foraging {
    type V = ForagingView;

    closed spec fn view(&self) -> ForagingView {
        ForagingView {
            pheromone_strength: self.pheromone_strength,
            evaporation_rate: self.evaporation_rate,
            exploration_rate: self.exploration_rate,
        }
    }
}

impl Foraging {
    /// A foraging with the initial rates.
    pub fn new() -> (foraging: Foraging)
        ensures
            foraging@ == ForagingView::initial(),
    {
        Foraging {
            pheromone_strength: Binary64 { bits: ONE_BITS },
            evaporation_rate: Binary64 { bits: EVAPORATION_BITS },
            exploration_rate: Binary64 { bits: EXPLORATION_BITS },
        }
    }

    /// The same foraging with the pheromone strength `strength`.
    pub fn with_pheromone_strength(self, strength: Binary64) -> (foraging: Foraging)
        ensures
            foraging@ == (ForagingView { pheromone_strength: strength, ..self@ }),
    {
        let mut foraging = self;
        foraging.pheromone_strength = strength;
        foraging
    }

    /// The same foraging with the evaporation rate `rate`.
    pub fn with_evaporation_rate(self, rate: Binary64) -> (foraging: Foraging)
        ensures
            foraging@ == (ForagingView { evaporation_rate: rate, ..self@ }),
    {
        let mut foraging = self;
        foraging.evaporation_rate = rate;
        foraging
    }

    /// The same foraging with the exploration rate `rate`.
    pub fn with_exploration_rate(self, rate: Binary64) -> (foraging: Foraging)
        ensures
            foraging@ == (ForagingView { exploration_rate: rate, ..self@ }),
    {
        let mut foraging = self;
        foraging.exploration_rate = rate;
        foraging
    }

    /// The pheromone strength.
    pub fn pheromone_strength(&self) -> (strength: Binary64)
        ensures
            strength == self@.pheromone_strength,
    {
        self.pheromone_strength
    }

    /// The evaporation rate.
    pub fn evaporation_rate(&self) -> (rate: Binary64)
        ensures
            rate == self@.evaporation_rate,
    {
        self.evaporation_rate
    }

    /// The exploration rate.
    pub fn exploration_rate(&self) -> (rate: Binary64)
        ensures
            rate == self@.exploration_rate,
    {
        self.exploration_rate
    }
}

impl Default for Foraging {
    /// A foraging with the initial rates.
    fn default() -> (foraging: Foraging)
        ensures
            foraging@ == ForagingView::initial(),
    {
        Foraging::new()
    }
}

} // verus!
