//! The allocation of resources to agents.

use crate::agent::AgentId;
use crate::agent_map::AgentMap;
use crate::keyed::{distinct_keys, lemma_put_twice, lemma_same_keys, put, value_of};
use crate::text::strings_view;
use vstd::prelude::*;

verus! {

/// The allocations as plain values: each agent with its resources.
pub open spec fn allocations_view(allocations: Seq<(AgentId, Vec<String>)>) -> Seq<
    (AgentId, Seq<Seq<char>>),
> {
    allocations.map_values(|entry: (AgentId, Vec<String>)| (entry.0, strings_view(entry.1@)))
}

/// The resources of `agent_id` after `resource` has been allocated to it:
/// those it had, then the new one.
pub open spec fn resources_with(
    allocations: Seq<(AgentId, Seq<Seq<char>>)>,
    agent_id: AgentId,
    resource: Seq<char>,
) -> Seq<Seq<char>> {
    match value_of(allocations, agent_id) {
        Some(resources) => resources.push(resource),
        None => seq![resource],
    }
}

/// Which resources each agent has. The agents stand in the order in which
/// they first got a resource, the resources of an agent in the order in
/// which it got them; a resource allocated twice is listed twice.
#[derive(Clone, Debug)]
pub struct Allocation {
    allocations: AgentMap<Vec<String>>,
}

/// What an allocation holds.
pub struct AllocationView {
    pub allocations: Seq<(AgentId, Seq<Seq<char>>)>,
}

impl AllocationView {
    /// No agent has two entries.
    pub open spec fn wf(self) -> bool {
        distinct_keys(self.allocations)
    }
}

impl View for Allocation {
    type V = AllocationView;

    closed spec fn view(&self) -> AllocationView {
        AllocationView { allocations: allocations_view(self.allocations@) }
    }
}

impl Allocation {
    /// The allocation in which no agent has a resource.
    pub fn new() -> (allocation: Allocation)
        ensures
            allocation@ == (AllocationView { allocations: Seq::empty() }),
    {
        let allocation = Allocation { allocations: AgentMap::new() };
        assert(allocation@.allocations =~= Seq::empty());
        allocation
    }

    /// Allocates `resource` to `agent_id`, after the resources it has.
    pub fn allocate(&mut self, agent_id: AgentId, resource: &str)
        ensures
            final(self)@ == (AllocationView {
                allocations: put(
                    old(self)@.allocations,
                    agent_id,
                    resources_with(old(self)@.allocations, agent_id, resource@),
                ),
            }),
            final(self)@.wf(),
    {
        let placeholder: Vec<String> = Vec::new();
        let ghost empty = placeholder;
        let previous: Option<Vec<String>> = self.allocations.insert(agent_id, placeholder);
        let mut resources: Vec<String> = match previous {
            Some(list) => list,
            None => Vec::new(),
        };
        let ghost had = resources@;
        resources.push(resource.to_owned());
        self.allocations.insert(agent_id, resources);
        proof {
            let before = old(self).allocations@;
            let after = self.allocations@;
            lemma_put_twice(before, agent_id, empty, resources);
            lemma_same_keys(before, allocations_view(before));
            lemma_same_keys(after, allocations_view(after));
            assert(strings_view(resources@) =~= resources_with(
                allocations_view(before),
                agent_id,
                resource@,
            )) by {
                assert(strings_view(resources@) =~= strings_view(had).push(resource@));
                if previous.is_none() {
                    assert(strings_view(had) =~= Seq::empty());
                }
            }
            assert(allocations_view(after) =~= put(
                allocations_view(before),
                agent_id,
                strings_view(resources@),
            ));
        }
    }

    /// The resources of `agent_id`, if it has any entry.
    pub fn get(&self, agent_id: &AgentId) -> (resources: Option<&Vec<String>>)
        ensures
            match resources {
                Some(list) => value_of(self@.allocations, *agent_id) == Some(strings_view(list@)),
                None => value_of(self@.allocations, *agent_id).is_none(),
            },
    {
        let resources: Option<&Vec<String>> = self.allocations.get(agent_id);
        proof {
            lemma_same_keys(self.allocations@, allocations_view(self.allocations@));
        }
        resources
    }

    /// All allocations: each agent with its resources.
    pub fn all(&self) -> (allocations: &AgentMap<Vec<String>>)
        ensures
            allocations_view(allocations@) == self@.allocations,
    {
        &self.allocations
    }
}

impl Default for Allocation {
    /// The allocation in which no agent has a resource.
    fn default() -> (allocation: Allocation)
        ensures
            allocation@ == (AllocationView { allocations: Seq::empty() }),
    {
        Allocation::new()
    }
}

} // verus!
