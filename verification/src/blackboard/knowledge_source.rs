//! Sources of the knowledge on a blackboard.

use crate::agent::AgentId;
use vstd::prelude::*;

verus! {

/// The kind of a knowledge source.
#[derive(Clone, Copy, Debug, PartialEq, Eq, Structural)]
pub enum KnowledgeSourceType {
    /// Reports what it observes.
    Sensor,
    /// Derives knowledge from knowledge.
    Reasoning,
}

/// An agent that contributes knowledge, with the priority of what it
/// contributes.
#[derive(Clone, Copy, Debug, PartialEq, Eq, Structural)]
pub struct KnowledgeSource {
    pub agent_id: AgentId,
    pub source_type: KnowledgeSourceType,
    pub priority: u32,
}

impl KnowledgeSource {
    /// The source `agent_id` of the given kind, with priority zero.
    pub fn new(agent_id: AgentId, source_type: KnowledgeSourceType) -> (source: KnowledgeSource)
        ensures
            source == (KnowledgeSource { agent_id, source_type, priority: 0 }),
    {
        KnowledgeSource { agent_id, source_type, priority: 0 }
    }

    /// The same source with the priority `priority`.
    pub fn with_priority(self, priority: u32) -> (source: KnowledgeSource)
        ensures
            source == (KnowledgeSource { priority, ..self }),
    {
        KnowledgeSource { priority, ..self }
    }

    /// The agent that contributes.
    pub fn agent_id(&self) -> (agent_id: &AgentId)
        ensures
            *agent_id == self.agent_id,
    {
        &self.agent_id
    }

    /// The kind of the source.
    pub fn source_type(&self) -> (source_type: KnowledgeSourceType)
        ensures
            source_type == self.source_type,
    {
        self.source_type
    }

    /// The priority of the source.
    pub fn priority(&self) -> (priority: u32)
        ensures
            priority == self.priority,
    {
        self.priority
    }
}

} // verus!
