//! The formation of a coalition: agents stand as candidates, and candidates
//! are selected.

use crate::agent::{copy_of, is_among, AgentId};
use vstd::prelude::*;

verus! {

/// The way in which a coalition forms.
#[derive(Clone, Copy, Debug, PartialEq, Eq, Structural)]
pub enum FormationType {
    /// Decided from above.
    TopDown,
    /// Grown from below.
    BottomUp,
    /// Agreed by negotiation.
    Negotiation,
    /// Settled by auction.
    Auction,
}

/// A coalition in formation. Only a candidate can be selected; an agent
/// stands in each list once for each time it was added to it.
#[derive(Debug)]
pub struct Formation {
    formation_type: FormationType,
    candidates: Vec<AgentId>,
    selected: Vec<AgentId>,
}

/// What a formation holds.
pub struct FormationView {
    pub formation_type: FormationType,
    pub candidates: Seq<AgentId>,
    pub selected: Seq<AgentId>,
}

impl FormationView {
    /// Every selected agent is a candidate.
    pub open spec fn wf(self) -> bool {
        forall|i: int|
            0 <= i < self.selected.len() ==> self.candidates.contains(#[trigger] self.selected[i])
    }
}

impl View for Formation {
    type V = FormationView;

    closed spec fn view(&self) -> FormationView {
        FormationView {
            formation_type: self.formation_type,
            candidates: self.candidates@,
            selected: self.selected@,
        }
    }
}

impl Clone for Formation {
    /// A formation that holds the same as this one.
    fn clone(&self) -> (formation: Formation)
        ensures
            formation@ == self@,
    {
        proof {
            use_type_invariant(self);
        }
        Formation {
            formation_type: self.formation_type,
            candidates: copy_of(self.candidates.as_slice()),
            selected: copy_of(self.selected.as_slice()),
        }
    }
}

impl Formation {
    #[verifier::type_invariant]
    spec fn well_formed(self) -> bool {
        forall|i: int|
            0 <= i < self.selected@.len() ==> self.candidates@.contains(#[trigger] self.selected@[i])
    }

    /// A formation of the given kind, without candidates.
    pub fn new(formation_type: FormationType) -> (formation: Formation)
        ensures
            formation@ == (FormationView {
                formation_type,
                candidates: Seq::empty(),
                selected: Seq::empty(),
            }),
    {
        Formation { formation_type, candidates: Vec::new(), selected: Vec::new() }
    }

    /// Adds `agent_id` to the candidates.
    pub fn add_candidate(&mut self, agent_id: AgentId)
        ensures
            final(self)@ == (FormationView {
                candidates: old(self)@.candidates.push(agent_id),
                ..old(self)@
            }),
            final(self)@.wf(),
    {
        proof {
            use_type_invariant(&*self);
        }
        let mut candidates: Vec<AgentId> = Vec::new();
        let mut selected: Vec<AgentId> = Vec::new();
        std::mem::swap(&mut selected, &mut self.selected);
        std::mem::swap(&mut candidates, &mut self.candidates);
        candidates.push(agent_id);
        proof {
            assert forall|i: int| 0 <= i < selected@.len() implies candidates@.contains(
                #[trigger] selected@[i],
            ) by {
                let k = old(self).candidates@.index_of(selected@[i]);
                assert(candidates@[k] == selected@[i]);
            }
        }
        self.candidates = candidates;
        self.selected = selected;
    }

    /// Selects `agent_id` if it is a candidate; does nothing if it is not.
    pub fn select(&mut self, agent_id: AgentId)
        ensures
            final(self)@ == (FormationView {
                selected: if old(self)@.candidates.contains(agent_id) {
                    old(self)@.selected.push(agent_id)
                } else {
                    old(self)@.selected
                },
                ..old(self)@
            }),
            final(self)@.wf(),
    {
        proof {
            use_type_invariant(&*self);
        }
        if is_among(self.candidates.as_slice(), &agent_id) {
            let mut selected: Vec<AgentId> = Vec::new();
            std::mem::swap(&mut selected, &mut self.selected);
            selected.push(agent_id);
            self.selected = selected;
        }
    }

    /// The way in which the coalition forms.
    pub fn formation_type(&self) -> (formation_type: FormationType)
        ensures
            formation_type == self@.formation_type,
    {
        self.formation_type
    }

    /// The candidates, in the order in which they were added.
    pub fn candidates(&self) -> (candidates: &[AgentId])
        ensures
            candidates@ == self@.candidates,
    {
        self.candidates.as_slice()
    }

    /// The selected agents, in the order in which they were selected.
    pub fn selected(&self) -> (selected: &[AgentId])
        ensures
            selected@ == self@.selected,
            self@.wf(),
    {
        proof {
            use_type_invariant(self);
        }
        self.selected.as_slice()
    }

    /// Tells whether the formation is complete: whether an agent has been
    /// selected.
    pub fn is_complete(&self) -> (complete: bool)
        ensures
            complete == (self@.selected.len() > 0),
    {
        self.selected.len() > 0
    }
}

} // verus!
