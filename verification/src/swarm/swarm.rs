//! A swarm: agents that follow one behavior.

use crate::agent::AgentId;
use crate::swarm::behavior::{Behavior, BehaviorView};
use vstd::prelude::*;

verus! {

/// A swarm of agents. The members stand in the order in which they were
/// added; an agent added twice is listed twice.
#[derive(Clone, Debug)]
pub struct Swarm {
    name: String,
    members: Vec<AgentId>,
    behavior: Option<Behavior>,
}

/// What a swarm holds.
pub struct SwarmView {
    pub name: Seq<char>,
    pub members: Seq<AgentId>,
    pub behavior: Option<BehaviorView>,
}

impl View for Swarm {
    type V = SwarmView;

    closed spec fn view(&self) -> SwarmView {
        SwarmView {
            name: self.name@,
            members: self.members@,
            behavior: match self.behavior {
                Some(behavior) => Some(behavior@),
                None => None,
            },
        }
    }
}

impl Swarm {
    /// The swarm with the given name, without members and without behavior.
    pub fn new(name: &str) -> (swarm: Swarm)
        ensures
            swarm@ == (SwarmView { name: name@, members: Seq::empty(), behavior: None }),
    {
        Swarm { name: name.to_owned(), members: Vec::new(), behavior: None }
    }

    /// Adds `agent_id` after the members there are.
    pub fn add_member(&mut self, agent_id: AgentId)
        ensures
            final(self)@ == (SwarmView {
                members: old(self)@.members.push(agent_id),
                ..old(self)@
            }),
    {
        self.members.push(agent_id);
    }

    /// Sets the behavior, in place of the one there was, if any.
    pub fn set_behavior(&mut self, behavior: Behavior)
        ensures
            final(self)@ == (SwarmView { behavior: Some(behavior@), ..old(self)@ }),
    {
        self.behavior = Some(behavior);
    }

    /// The name of the swarm.
    pub fn name(&self) -> (name: &str)
        ensures
            name@ == self@.name,
    {
        self.name.as_str()
    }

    /// The members, in the order in which they were added.
    pub fn members(&self) -> (members: &[AgentId])
        ensures
            members@ == self@.members,
    {
        self.members.as_slice()
    }

    /// The behavior, if one is set.
    pub fn behavior(&self) -> (behavior: Option<&Behavior>)
        ensures
            match behavior {
                Some(b) => self@.behavior == Some(b@),
                None => self@.behavior.is_none(),
            },
    {
        self.behavior.as_ref()
    }

    /// The number of members.
    pub fn size(&self) -> (size: usize)
        ensures
            size == self@.members.len(),
    {
        self.members.len()
    }
}

} // verus!
