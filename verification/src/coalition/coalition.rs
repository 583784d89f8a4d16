//! A coalition: a set of agents with a strategy and a value.

use crate::agent::AgentId;
use crate::agent_map::AgentMap;
use crate::binary64::Binary64;
use crate::coalition::strategy::{Strategy, StrategyView};
use crate::keyed::{keys_of, lemma_keys_distinct, lemma_keys_of, lemma_without_distinct};
use vstd::prelude::*;

verus! {

/// A coalition of agents. An agent is a member at most once; the members
/// stand in the order in which they joined.
#[derive(Clone, Debug)]
pub struct Coalition {
    name: String,
    members: AgentMap<()>,
    strategy: Option<Strategy>,
    value: Binary64,
}

/// What a coalition holds.
pub struct CoalitionView {
    pub name: Seq<char>,
    pub members: Seq<AgentId>,
    pub strategy: Option<StrategyView>,
    pub value: Binary64,
}

impl CoalitionView {
    /// No agent is a member twice.
    pub open spec fn wf(self) -> bool {
        self.members.no_duplicates()
    }
}

impl View for Coalition {
    type V = CoalitionView;

    closed spec fn view(&self) -> CoalitionView {
        CoalitionView {
            name: self.name@,
            members: keys_of(self.members@),
            strategy: match self.strategy {
                Some(strategy) => Some(strategy@),
                None => None,
            },
            value: self.value,
        }
    }
}

impl Coalition {
    /// The coalition with the given name: no members, no strategy, and the
    /// value zero.
    pub fn new(name: &str) -> (coalition: Coalition)
        ensures
            coalition@ == (CoalitionView {
                name: name@,
                members: Seq::empty(),
                strategy: None,
                value: Binary64 { bits: 0 },
            }),
    {
        let coalition = Coalition {
            name: name.to_owned(),
            members: AgentMap::new(),
            strategy: None,
            value: Binary64 { bits: 0 },
        };
        assert(coalition@.members =~= Seq::empty());
        coalition
    }

    /// Makes `agent_id` a member and tells whether it was none before.
    pub fn add_member(&mut self, agent_id: AgentId) -> (added: bool)
        ensures
            added == !old(self)@.members.contains(agent_id),
            final(self)@ == (CoalitionView {
                members: if added {
                    old(self)@.members.push(agent_id)
                } else {
                    old(self)@.members
                },
                ..old(self)@
            }),
            final(self)@.wf(),
    {
        let previous: Option<()> = self.members.insert(agent_id, ());
        proof {
            lemma_keys_of(old(self).members@, agent_id, ());
            lemma_keys_distinct(self.members@);
        }
        previous.is_none()
    }

    /// Removes `agent_id` from the members and tells whether it was one.
    /// The other members keep their order.
    pub fn remove_member(&mut self, agent_id: &AgentId) -> (removed: bool)
        ensures
            removed == old(self)@.members.contains(*agent_id),
            final(self)@ == (CoalitionView {
                members: if removed {
                    old(self)@.members.remove(old(self)@.members.index_of(*agent_id))
                } else {
                    old(self)@.members
                },
                ..old(self)@
            }),
            final(self)@.wf(),
            !final(self)@.members.contains(*agent_id),
    {
        let previous: Option<()> = self.members.remove(agent_id);
        proof {
            lemma_keys_of(old(self).members@, *agent_id, ());
            lemma_keys_of(self.members@, *agent_id, ());
            lemma_keys_distinct(self.members@);
            lemma_without_distinct(old(self).members@, *agent_id);
        }
        previous.is_some()
    }

    /// Tells whether `agent_id` is a member.
    pub fn has_member(&self, agent_id: &AgentId) -> (found: bool)
        ensures
            found == self@.members.contains(*agent_id),
    {
        let found: bool = self.members.contains(agent_id);
        proof {
            lemma_keys_of(self.members@, *agent_id, ());
        }
        found
    }

    /// Sets the strategy, in place of the one there was, if any.
    pub fn set_strategy(&mut self, strategy: Strategy)
        ensures
            final(self)@ == (CoalitionView { strategy: Some(strategy@), ..old(self)@ }),
    {
        self.strategy = Some(strategy);
    }

    /// Sets the value of the coalition.
    pub fn set_value(&mut self, value: Binary64)
        ensures
            final(self)@ == (CoalitionView { value, ..old(self)@ }),
    {
        self.value = value;
    }

    /// The name of the coalition.
    pub fn name(&self) -> (name: &str)
        ensures
            name@ == self@.name,
    {
        self.name.as_str()
    }

    /// The members, in the order in which they joined.
    pub fn members(&self) -> (members: Vec<AgentId>)
        ensures
            members@ == self@.members,
            self@.wf(),
    {
        let members: Vec<AgentId> = self.members.keys();
        proof {
            lemma_keys_distinct(self.members@);
        }
        members
    }

    /// The number of members.
    pub fn size(&self) -> (size: usize)
        ensures
            size == self@.members.len(),
    {
        self.members.len()
    }

    /// The strategy, if one is set.
    pub fn strategy(&self) -> (strategy: Option<&Strategy>)
        ensures
            match strategy {
                Some(s) => self@.strategy == Some(s@),
                None => self@.strategy.is_none(),
            },
    {
        self.strategy.as_ref()
    }

    /// The value of the coalition.
    pub fn value(&self) -> (value: Binary64)
        ensures
            value == self@.value,
    {
        self.value
    }
}

} // verus!
