//! A map from agents to values that remembers the order in which the agents
//! were first entered.

use crate::agent::AgentId;
use crate::keyed::{
    distinct_keys, has_key, keys_of, lemma_position_unique, lemma_put_distinct, lemma_without_distinct,
    position_of, put, value_of, without,
};
use vstd::prelude::*;

verus! {

/// A map from agents to values. Each agent has at most one entry, and the
/// entries stand in the order in which their agents were first entered.
#[derive(Debug)]
pub struct AgentMap<V> {
    entries: Vec<(AgentId, V)>,
}

impl<V> View for AgentMap<V> {
    type V = Seq<(AgentId, V)>;

    closed spec fn view(&self) -> Seq<(AgentId, V)> {
        self.entries@
    }
}

impl<V: Clone> Clone for AgentMap<V> {
    /// A map with the same agents in the same order, each with a clone of
    /// its value.
    fn clone(&self) -> (map: AgentMap<V>)
        ensures
            map@.len() == self@.len(),
            forall|i: int|
                0 <= i < self@.len() ==> (#[trigger] map@[i]).0 == self@[i].0 && cloned(
                    self@[i].1,
                    map@[i].1,
                ),
    {
        proof {
            use_type_invariant(self);
        }
        let n: usize = self.entries.len();
        let mut entries: Vec<(AgentId, V)> = Vec::new();
        let mut i: usize = 0;
        while i < n
            invariant
                n == self.entries.len(),
                i == entries.len(),
                i <= n,
                forall|j: int|
                    0 <= j < i ==> (#[trigger] entries@[j]).0 == self.entries@[j].0 && cloned(
                        self.entries@[j].1,
                        entries@[j].1,
                    ),
            decreases n - i,
        {
            let value: V = self.entries[i].1.clone();
            entries.push((self.entries[i].0, value));
            i += 1;
        }
        assert forall|a: int, b: int| 0 <= a < b < entries@.len() implies (#[trigger] entries@[a]).0
            != (#[trigger] entries@[b]).0 by {
            assert(self.entries@[a].0 != self.entries@[b].0);
        }
        AgentMap { entries }
    }
}

impl<V> AgentMap<V> {
    #[verifier::type_invariant]
    spec fn well_formed(self) -> bool {
        distinct_keys(self.entries@)
    }

    /// The map without entries.
    pub fn new() -> (map: AgentMap<V>)
        ensures
            map@ == Seq::<(AgentId, V)>::empty(),
    {
        AgentMap { entries: Vec::new() }
    }

    /// The number of entries.
    pub fn len(&self) -> (n: usize)
        ensures
            n == self@.len(),
            distinct_keys(self@),
    {
        proof {
            use_type_invariant(self);
        }
        self.entries.len()
    }

    /// Whether the map has no entry.
    pub fn is_empty(&self) -> (r: bool)
        ensures
            r == (self@.len() == 0),
    {
        self.entries.len() == 0
    }

    /// The entries, in order.
    pub fn as_slice(&self) -> (entries: &[(AgentId, V)])
        ensures
            entries@ == self@,
            distinct_keys(self@),
    {
        proof {
            use_type_invariant(self);
        }
        self.entries.as_slice()
    }

    /// The agents that have an entry, in order.
    pub fn keys(&self) -> (keys: Vec<AgentId>)
        ensures
            keys@ == keys_of(self@),
            distinct_keys(self@),
    {
        proof {
            use_type_invariant(self);
        }
        let n: usize = self.entries.len();
        let mut keys: Vec<AgentId> = Vec::new();
        let mut i: usize = 0;
        while i < n
            invariant
                n == self.entries.len(),
                i <= n,
                keys@ == keys_of(self.entries@).take(i as int),
            decreases n - i,
        {
            keys.push(self.entries[i].0);
            assert(keys@ =~= keys_of(self.entries@).take(i + 1));
            i += 1;
        }
        assert(keys@ =~= keys_of(self.entries@));
        keys
    }

    /// The position of the entry of `id`, if it has one.
    pub fn position(&self, id: &AgentId) -> (r: Option<usize>)
        ensures
            match r {
                Some(i) => has_key(self@, *id) && i == position_of(self@, *id),
                None => !has_key(self@, *id),
            },
            distinct_keys(self@),
    {
        proof {
            use_type_invariant(self);
        }
        let n: usize = self.entries.len();
        let mut i: usize = 0;
        while i < n
            invariant
                n == self.entries.len(),
                i <= n,
                distinct_keys(self.entries@),
                forall|j: int| 0 <= j < i ==> (#[trigger] self.entries@[j]).0 != *id,
            decreases n - i,
        {
            if self.entries[i].0 == *id {
                proof {
                    lemma_position_unique(self@, *id, i as int);
                }
                return Some(i);
            }
            i += 1;
        }
        None
    }

    /// Whether `id` has an entry.
    pub fn contains(&self, id: &AgentId) -> (r: bool)
        ensures
            r == has_key(self@, *id),
            distinct_keys(self@),
    {
        self.position(id).is_some()
    }

    /// The value entered for `id`, if there is one.
    pub fn get(&self, id: &AgentId) -> (r: Option<&V>)
        ensures
            match r {
                Some(value) => value_of(self@, *id) == Some(*value),
                None => value_of(self@, *id).is_none(),
            },
            distinct_keys(self@),
    {
        match self.position(id) {
            Some(i) => Some(&self.entries[i].1),
            None => None,
        }
    }

    /// Enters `value` for `id`, in place of the value that `id` had, if any,
    /// and returns that value.
    pub fn insert(&mut self, id: AgentId, value: V) -> (previous: Option<V>)
        ensures
            final(self)@ == put(old(self)@, id, value),
            previous == value_of(old(self)@, id),
            distinct_keys(old(self)@),
            distinct_keys(final(self)@),
    {
        proof {
            use_type_invariant(&*self);
            lemma_put_distinct(self@, id, value);
        }
        let found: Option<usize> = self.position(&id);
        let mut entries: Vec<(AgentId, V)> = Vec::new();
        std::mem::swap(&mut entries, &mut self.entries);
        let mut entry: (AgentId, V) = (id, value);
        let previous: Option<V> = match found {
            Some(i) => {
                std::mem::swap(&mut entries[i], &mut entry);
                Some(entry.1)
            },
            None => {
                entries.push(entry);
                None
            },
        };
        self.entries = entries;
        previous
    }

    /// Removes the entry of `id`, if it has one, and returns its value. The
    /// other entries keep their order.
    pub fn remove(&mut self, id: &AgentId) -> (previous: Option<V>)
        ensures
            final(self)@ == without(old(self)@, *id),
            previous == value_of(old(self)@, *id),
            distinct_keys(old(self)@),
            distinct_keys(final(self)@),
    {
        proof {
            use_type_invariant(&*self);
            lemma_without_distinct(self@, *id);
        }
        let found: Option<usize> = self.position(id);
        match found {
            Some(i) => {
                let mut entries: Vec<(AgentId, V)> = Vec::new();
                std::mem::swap(&mut entries, &mut self.entries);
                let entry: (AgentId, V) = entries.remove(i);
                self.entries = entries;
                Some(entry.1)
            },
            None => None,
        }
    }

    /// Removes every entry.
    pub fn clear(&mut self)
        ensures
            final(self)@ == Seq::<(AgentId, V)>::empty(),
    {
        self.entries = Vec::new();
    }
}

} // verus!
