//! A blackboard: knowledge that agents share, as values under keys.

use crate::blackboard::knowledge_source::KnowledgeSource;
use crate::keyed::{
    distinct_keys, has_key, lemma_position_unique, lemma_put_distinct, lemma_without_distinct,
    position_of, put, value_of, without,
};
use vstd::prelude::*;

verus! {

/// The knowledge as plain values: each key with its value.
pub open spec fn knowledge_view(knowledge: Seq<(String, String)>) -> Seq<(Seq<char>, Seq<char>)> {
    knowledge.map_values(|entry: (String, String)| (entry.0@, entry.1@))
}

/// A blackboard. A key has at most one value; the keys stand in the order
/// in which they were first written, the sources in the order in which they
/// were added.
#[derive(Debug)]
pub struct Blackboard {
    name: String,
    knowledge: Vec<(String, String)>,
    sources: Vec<KnowledgeSource>,
}

/// What a blackboard holds.
pub struct BlackboardView {
    pub name: Seq<char>,
    pub knowledge: Seq<(Seq<char>, Seq<char>)>,
    pub sources: Seq<KnowledgeSource>,
}

impl BlackboardView {
    /// No key has two values.
    pub open spec fn wf(self) -> bool {
        distinct_keys(self.knowledge)
    }
}

impl View for Blackboard {
    type V = BlackboardView;

    closed spec fn view(&self) -> BlackboardView {
        BlackboardView {
            name: self.name@,
            knowledge: knowledge_view(self.knowledge@),
            sources: self.sources@,
        }
    }
}

/// The position of the entry of `key` in `knowledge`, if it has one.
fn find(knowledge: &Vec<(String, String)>, key: &str) -> (r: Option<usize>)
    requires
        distinct_keys(knowledge_view(knowledge@)),
    ensures
        match r {
            Some(i) => has_key(knowledge_view(knowledge@), key@) && i == position_of(
                knowledge_view(knowledge@),
                key@,
            ),
            None => !has_key(knowledge_view(knowledge@), key@),
        },
{
    let wanted: String = key.to_owned();
    let n: usize = knowledge.len();
    let mut i: usize = 0;
    while i < n
        invariant
            n == knowledge.len(),
            i <= n,
            wanted@ == key@,
            distinct_keys(knowledge_view(knowledge@)),
            forall|j: int| 0 <= j < i ==> (#[trigger] knowledge_view(knowledge@)[j]).0 != key@,
        decreases n - i,
    {
        if knowledge[i].0 == wanted {
            proof {
                assert(knowledge_view(knowledge@)[i as int].0 == key@);
                lemma_position_unique(knowledge_view(knowledge@), key@, i as int);
            }
            return Some(i);
        }
        i += 1;
    }
    None
}

impl Clone for Blackboard {
    /// A blackboard that holds the same as this one.
    fn clone(&self) -> (blackboard: Blackboard)
        ensures
            blackboard@ == self@,
    {
        proof {
            use_type_invariant(self);
        }
        let n: usize = self.knowledge.len();
        let mut knowledge: Vec<(String, String)> = Vec::new();
        let mut i: usize = 0;
        while i < n
            invariant
                n == self.knowledge.len(),
                i <= n,
                knowledge@ == self.knowledge@.take(i as int),
            decreases n - i,
        {
            knowledge.push((self.knowledge[i].0.clone(), self.knowledge[i].1.clone()));
            assert(knowledge@ =~= self.knowledge@.take(i + 1));
            i += 1;
        }
        assert(knowledge@ =~= self.knowledge@);
        let m: usize = self.sources.len();
        let mut sources: Vec<KnowledgeSource> = Vec::new();
        let mut j: usize = 0;
        while j < m
            invariant
                m == self.sources.len(),
                j <= m,
                sources@ == self.sources@.take(j as int),
            decreases m - j,
        {
            sources.push(self.sources[j]);
            assert(sources@ =~= self.sources@.take(j + 1));
            j += 1;
        }
        assert(sources@ =~= self.sources@);
        Blackboard { name: self.name.clone(), knowledge, sources }
    }
}

impl Blackboard {
    #[verifier::type_invariant]
    spec fn well_formed(self) -> bool {
        distinct_keys(knowledge_view(self.knowledge@))
    }

    /// The blackboard with the given name, without knowledge and without
    /// sources.
    pub fn new(name: &str) -> (blackboard: Blackboard)
        ensures
            blackboard@ == (BlackboardView {
                name: name@,
                knowledge: Seq::empty(),
                sources: Seq::empty(),
            }),
    {
        let blackboard = Blackboard {
            name: name.to_owned(),
            knowledge: Vec::new(),
            sources: Vec::new(),
        };
        assert(blackboard@.knowledge =~= Seq::empty());
        blackboard
    }

    /// Writes `value` under `key`, in place of the value that stood there,
    /// if any.
    pub fn write(&mut self, key: &str, value: &str)
        ensures
            final(self)@ == (BlackboardView {
                knowledge: put(old(self)@.knowledge, key@, value@),
                ..old(self)@
            }),
            final(self)@.wf(),
    {
        proof {
            use_type_invariant(&*self);
            lemma_put_distinct(knowledge_view(self.knowledge@), key@, value@);
        }
        let found: Option<usize> = find(&self.knowledge, key);
        let mut knowledge: Vec<(String, String)> = Vec::new();
        std::mem::swap(&mut knowledge, &mut self.knowledge);
        match found {
            Some(i) => {
                knowledge[i] = (key.to_owned(), value.to_owned());
            },
            None => {
                knowledge.push((key.to_owned(), value.to_owned()));
            },
        }
        assert(knowledge_view(knowledge@) =~= put(old(self)@.knowledge, key@, value@));
        self.knowledge = knowledge;
    }

    /// The value under `key`, if there is one.
    pub fn read(&self, key: &str) -> (value: Option<&String>)
        ensures
            match value {
                Some(v) => value_of(self@.knowledge, key@) == Some(v@),
                None => value_of(self@.knowledge, key@).is_none(),
            },
    {
        proof {
            use_type_invariant(self);
        }
        match find(&self.knowledge, key) {
            Some(i) => Some(&self.knowledge[i].1),
            None => None,
        }
    }

    /// Removes `key` and returns the value that stood under it, if any. The
    /// other keys keep their order.
    pub fn remove(&mut self, key: &str) -> (value: Option<String>)
        ensures
            match value {
                Some(v) => value_of(old(self)@.knowledge, key@) == Some(v@),
                None => value_of(old(self)@.knowledge, key@).is_none(),
            },
            final(self)@ == (BlackboardView {
                knowledge: without(old(self)@.knowledge, key@),
                ..old(self)@
            }),
            final(self)@.wf(),
    {
        proof {
            use_type_invariant(&*self);
            lemma_without_distinct(knowledge_view(self.knowledge@), key@);
        }
        match find(&self.knowledge, key) {
            Some(i) => {
                let mut knowledge: Vec<(String, String)> = Vec::new();
                std::mem::swap(&mut knowledge, &mut self.knowledge);
                let entry: (String, String) = knowledge.remove(i);
                assert(knowledge_view(knowledge@) =~= without(old(self)@.knowledge, key@));
                self.knowledge = knowledge;
                Some(entry.1)
            },
            None => None,
        }
    }

    /// Adds `source` after the sources there are.
    pub fn add_source(&mut self, source: KnowledgeSource)
        ensures
            final(self)@ == (BlackboardView {
                sources: old(self)@.sources.push(source),
                ..old(self)@
            }),
    {
        proof {
            use_type_invariant(&*self);
        }
        let mut sources: Vec<KnowledgeSource> = Vec::new();
        std::mem::swap(&mut sources, &mut self.sources);
        sources.push(source);
        self.sources = sources;
    }

    /// The name of the blackboard.
    pub fn name(&self) -> (name: &str)
        ensures
            name@ == self@.name,
    {
        self.name.as_str()
    }

    /// All knowledge: each key with its value, in the order in which the
    /// keys were first written.
    pub fn knowledge(&self) -> (knowledge: &[(String, String)])
        ensures
            knowledge_view(knowledge@) == self@.knowledge,
            self@.wf(),
    {
        proof {
            use_type_invariant(self);
        }
        self.knowledge.as_slice()
    }

    /// The sources, in the order in which they were added.
    pub fn sources(&self) -> (sources: &[KnowledgeSource])
        ensures
            sources@ == self@.sources,
    {
        self.sources.as_slice()
    }

    /// Removes all knowledge. Name and sources stay.
    pub fn clear(&mut self)
        ensures
            final(self)@ == (BlackboardView { knowledge: Seq::empty(), ..old(self)@ }),
    {
        self.knowledge = Vec::new();
        assert(self@.knowledge =~= Seq::empty());
    }

    /// The number of keys.
    pub fn size(&self) -> (size: usize)
        ensures
            size == self@.knowledge.len(),
    {
        self.knowledge.len()
    }
}

} // verus!
