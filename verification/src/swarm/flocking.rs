//! Flocking: how strongly the members of a swarm keep apart, align and
//! keep together.

use crate::binary64::{Binary64, ONE_BITS};
use vstd::prelude::*;

verus! {

/// Encoding of the separation weight that a flocking starts with: 1.5.
pub const SEPARATION_BITS: u64 = 0x3FF8_0000_0000_0000;

/// The weights of flocking.
#[derive(Clone, Debug)]
pub struct Flocking {
    separation_weight: Binary64,
    alignment_weight: Binary64,
    cohesion_weight: Binary64,
}

/// What a flocking holds.
pub struct FlockingView {
    pub separation_weight: Binary64,
    pub alignment_weight: Binary64,
    pub cohesion_weight: Binary64,
}

impl FlockingView {
    /// The weights that a flocking starts with: separation 1.5, alignment 1
    /// and cohesion 1.
    pub open spec fn initial() -> FlockingView {
        FlockingView {
            separation_weight: Binary64 { bits: SEPARATION_BITS },
            alignment_weight: Binary64 { bits: ONE_BITS },
            cohesion_weight: Binary64 { bits: ONE_BITS },
        }
    }
}

impl View for Flocking {
    type V = FlockingView;

    closed spec fn view(&self) -> FlockingView {
        FlockingView {
            separation_weight: self.separation_weight,
            alignment_weight: self.alignment_weight,
            cohesion_weight: self.cohesion_weight,
        }
    }
}

impl Flocking {
    /// A flocking with the initial weights.
    pub fn new() -> (flocking: Flocking)
        ensures
            flocking@ == FlockingView::initial(),
    {
        Flocking {
            separation_weight: Binary64 { bits: SEPARATION_BITS },
            alignment_weight: Binary64 { bits: ONE_BITS },
            cohesion_weight: Binary64 { bits: ONE_BITS },
        }
    }

    /// The same flocking with the separation weight `weight`.
    pub fn with_separation(self, weight: Binary64) -> (flocking: Flocking)
        ensures
            flocking@ == (FlockingView { separation_weight: weight, ..self@ }),
    {
        let mut flocking = self;
        flocking.separation_weight = weight;
        flocking
    }

    /// The same flocking with the alignment weight `weight`.
    pub fn with_alignment(self, weight: Binary64) -> (flocking: Flocking)
        ensures
            flocking@ == (FlockingView { alignment_weight: weight, ..self@ }),
    {
        let mut flocking = self;
        flocking.alignment_weight = weight;
        flocking
    }

    /// The same flocking with the cohesion weight `weight`.
    pub fn with_cohesion(self, weight: Binary64) -> (flocking: Flocking)
        ensures
            flocking@ == (FlockingView { cohesion_weight: weight, ..self@ }),
    {
        let mut flocking = self;
        flocking.cohesion_weight = weight;
        flocking
    }

    /// The separation weight.
    pub fn separation_weight(&self) -> (weight: Binary64)
        ensures
            weight == self@.separation_weight,
    {
        self.separation_weight
    }

    /// The alignment weight.
    pub fn alignment_weight(&self) -> (weight: Binary64)
        ensures
            weight == self@.alignment_weight,
    {
        self.alignment_weight
    }

    /// The cohesion weight.
    pub fn cohesion_weight(&self) -> (weight: Binary64)
        ensures
            weight == self@.cohesion_weight,
    {
        self.cohesion_weight
    }
}

impl Default for Flocking {
    /// A flocking with the initial weights.
    fn default() -> (flocking: Flocking)
        ensures
            flocking@ == FlockingView::initial(),
    {
        Flocking::new()
    }
}

} // verus!
