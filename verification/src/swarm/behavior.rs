//! The behavior of a swarm.

use crate::binary64::Binary64;
use crate::text::parameters_view;
use vstd::prelude::*;

verus! {

/// The kind of a swarm's behavior.
#[derive(Clone, Copy, Debug, PartialEq, Eq, Structural)]
pub enum BehaviorType {
    /// Moving together.
    Flocking,
    /// Searching for resources.
    Foraging,
    /// Covering unknown ground.
    Exploration,
    /// Gathering in one place.
    Aggregation,
}

/// A behavior: its kind, and named parameters in the order in which they
/// were added. A name may occur more than once.
#[derive(Clone, Debug)]
pub struct Behavior {
    behavior_type: BehaviorType,
    parameters: Vec<(String, Binary64)>,
}

/// What a behavior holds.
pub struct BehaviorView {
    pub behavior_type: BehaviorType,
    pub parameters: Seq<(Seq<char>, Binary64)>,
}

impl View for Behavior {
    type V = BehaviorView;

    closed spec fn view(&self) -> BehaviorView {
        BehaviorView {
            behavior_type: self.behavior_type,
            parameters: parameters_view(self.parameters@),
        }
    }
}

impl Behavior {
    /// The behavior of the given kind, without parameters.
    pub fn new(behavior_type: BehaviorType) -> (behavior: Behavior)
        ensures
            behavior@ == (BehaviorView { behavior_type, parameters: Seq::empty() }),
    {
        let behavior = Behavior { behavior_type, parameters: Vec::new() };
        assert(behavior@.parameters =~= Seq::empty());
        behavior
    }

    /// The same behavior with the parameter `name` of value `value` added
    /// after those it has.
    pub fn with_parameter(self, name: &str, value: Binary64) -> (behavior: Behavior)
        ensures
            behavior@ == (BehaviorView {
                parameters: self@.parameters.push((name@, value)),
                ..self@
            }),
    {
        let mut behavior = self;
        behavior.parameters.push((name.to_owned(), value));
        assert(behavior@.parameters =~= self@.parameters.push((name@, value)));
        behavior
    }

    /// The kind of the behavior.
    pub fn behavior_type(&self) -> (behavior_type: BehaviorType)
        ensures
            behavior_type == self@.behavior_type,
    {
        self.behavior_type
    }

    /// The parameters, in the order in which they were added.
    pub fn parameters(&self) -> (parameters: &[(String, Binary64)])
        ensures
            parameters_view(parameters@) == self@.parameters,
    {
        self.parameters.as_slice()
    }
}

} // verus!
