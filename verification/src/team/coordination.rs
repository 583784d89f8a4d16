//! Coordination of a team: its leader and its members.

use crate::agent::AgentId;
use vstd::prelude::*;

verus! {

/// Who leads a team and who belongs to it. Members stand in the order in
/// which they were added; an agent added twice is listed twice.
#[derive(Clone, Debug)]
pub struct Coordination {
    leader: Option<AgentId>,
    members: Vec<AgentId>,
}

/// What a coordination holds.
pub struct CoordinationView {
    pub leader: Option<AgentId>,
    pub members: Seq<AgentId>,
}

impl View for Coordination {
    type V = CoordinationView;

    closed spec fn view(&self) -> CoordinationView {
        CoordinationView { leader: self.leader, members: self.members@ }
    }
}

impl Coordination {
    /// A coordination without leader and without members.
    pub fn new() -> (coordination: Coordination)
        ensures
            coordination@ == (CoordinationView { leader: None, members: Seq::empty() }),
    {
        Coordination { leader: None, members: Vec::new() }
    }

    /// Makes `leader` the leader, in place of the leader there was, if any.
    pub fn set_leader(&mut self, leader: AgentId)
        ensures
            final(self)@ == (CoordinationView { leader: Some(leader), ..old(self)@ }),
    {
        self.leader = Some(leader);
    }

    /// Adds `member` after the members there are.
    pub fn add_member(&mut self, member: AgentId)
        ensures
            final(self)@ == (CoordinationView {
                members: old(self)@.members.push(member),
                ..old(self)@
            }),
    {
        self.members.push(member);
    }

    /// The leader, if one is set.
    pub fn leader(&self) -> (leader: Option<&AgentId>)
        ensures
            match leader {
                Some(id) => self@.leader == Some(*id),
                None => self@.leader.is_none(),
            },
    {
        self.leader.as_ref()
    }

    /// The members, in the order in which they were added.
    pub fn members(&self) -> (members: &[AgentId])
        ensures
            members@ == self@.members,
    {
        self.members.as_slice()
    }
}

impl Default for Coordination {
    /// A coordination without leader and without members.
    fn default() -> (coordination: Coordination)
        ensures
            coordination@ == (CoordinationView { leader: None, members: Seq::empty() }),
    {
        Coordination::new()
    }
}

} // verus!
