//! Agent identifiers.

use vstd::prelude::*;

verus! {

/// Identifier of an agent: a 128-bit value that callers choose.
///
/// Two identifiers name the same agent exactly when their values are equal.
/// The library never mints identifiers; it only stores and compares them.
#[derive(Clone, Copy, Debug, PartialEq, Eq, Hash, Structural)]
pub struct AgentId {
    pub value: u128,
}

impl AgentId {
    /// The identifier with the given value.
    pub fn from_u128(value: u128) -> (id: AgentId)
        ensures
            id.value == value,
    {
        AgentId { value }
    }

    /// The value of this identifier.
    pub fn as_u128(&self) -> (value: u128)
        ensures
            value == self.value,
    {
        self.value
    }
}

/// Tells whether `id` is among `agents`.
pub fn is_among(agents: &[AgentId], id: &AgentId) -> (found: bool)
    ensures
        found == agents@.contains(*id),
{
    let n: usize = agents.len();
    let mut i: usize = 0;
    while i < n
        invariant
            n == agents.len(),
            i <= n,
            forall|j: int| 0 <= j < i ==> agents@[j] != *id,
        decreases n - i,
    {
        if agents[i] == *id {
            return true;
        }
        i += 1;
    }
    false
}

/// A copy of `agents`.
pub fn copy_of(agents: &[AgentId]) -> (copy: Vec<AgentId>)
    ensures
        copy@ == agents@,
{
    let n: usize = agents.len();
    let mut copy: Vec<AgentId> = Vec::new();
    let mut i: usize = 0;
    while i < n
        invariant
            n == agents.len(),
            i <= n,
            copy@ == agents@.take(i as int),
        decreases n - i,
    {
        copy.push(agents[i]);
        assert(copy@ =~= agents@.take(i + 1));
        i += 1;
    }
    assert(copy@ =~= agents@);
    copy
}

} // verus!
