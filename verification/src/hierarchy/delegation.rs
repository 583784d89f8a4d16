//! The delegation of a task from one agent to another.

use crate::agent::AgentId;
use vstd::prelude::*;

verus! {

/// A task that one agent hands to another, with the authority that goes
/// with it.
#[derive(Clone, Debug)]
pub struct Delegation {
    from: AgentId,
    to: AgentId,
    task: String,
    authority_level: u32,
}

/// What a delegation holds.
pub struct DelegationView {
    pub from: AgentId,
    pub to: AgentId,
    pub task: Seq<char>,
    pub authority_level: u32,
}

impl View for Delegation {
    type V = DelegationView;

    closed spec fn view(&self) -> DelegationView {
        DelegationView {
            from: self.from,
            to: self.to,
            task: self.task@,
            authority_level: self.authority_level,
        }
    }
}

impl Delegation {
    /// The delegation of `task` from `from` to `to`.
    pub fn new(from: AgentId, to: AgentId, task: &str, authority_level: u32) -> (delegation:
        Delegation)
        ensures
            delegation@ == (DelegationView { from, to, task: task@, authority_level }),
    {
        Delegation { from, to, task: task.to_owned(), authority_level }
    }

    /// The agent that delegates.
    pub fn from(&self) -> (from: &AgentId)
        ensures
            *from == self@.from,
    {
        &self.from
    }

    /// The agent that the task is handed to.
    pub fn to(&self) -> (to: &AgentId)
        ensures
            *to == self@.to,
    {
        &self.to
    }

    /// The task.
    pub fn task(&self) -> (task: &str)
        ensures
            task@ == self@.task,
    {
        self.task.as_str()
    }

    /// The authority that goes with the task.
    pub fn authority_level(&self) -> (authority_level: u32)
        ensures
            authority_level == self@.authority_level,
    {
        self.authority_level
    }
}

} // verus!
