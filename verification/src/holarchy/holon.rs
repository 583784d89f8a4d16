//! A holon: an autonomous unit that may have a parent and children.

use crate::agent::AgentId;
use crate::binary64::{Binary64, ONE_BITS};
use vstd::prelude::*;

verus! {

/// Encoding of the autonomy level with which a composite holon starts: the
/// binary64 number nearest to 0.8.
pub const COMPOSITE_AUTONOMY_BITS: u64 = 0x3FE9_9999_9999_999A;

/// The kind of a holon.
#[derive(Clone, Copy, Debug, PartialEq, Eq, Structural)]
pub enum HolonType {
    /// A single agent.
    Atomic,
    /// A holon made of holons.
    Composite,
}

/// A holon. Its children stand in the order in which they were added; a
/// holon that gets a child is composite from then on.
#[derive(Clone, Debug)]
pub struct Holon {
    id: AgentId,
    holon_type: HolonType,
    parent: Option<AgentId>,
    children: Vec<AgentId>,
    autonomy_level: Binary64,
}

/// What a holon holds.
pub struct HolonView {
    pub id: AgentId,
    pub holon_type: HolonType,
    pub parent: Option<AgentId>,
    pub children: Seq<AgentId>,
    pub autonomy_level: Binary64,
}

impl View for Holon {
    type V = HolonView;

    closed spec fn view(&self) -> HolonView {
        HolonView {
            id: self.id,
            holon_type: self.holon_type,
            parent: self.parent,
            children: self.children@,
            autonomy_level: self.autonomy_level,
        }
    }
}

impl Holon {
    /// An atomic holon: no parent, no children, and the autonomy level one.
    pub fn atomic(id: AgentId) -> (holon: Holon)
        ensures
            holon@ == (HolonView {
                id,
                holon_type: HolonType::Atomic,
                parent: None,
                children: Seq::empty(),
                autonomy_level: Binary64 { bits: ONE_BITS },
            }),
    {
        Holon {
            id,
            holon_type: HolonType::Atomic,
            parent: None,
            children: Vec::new(),
            autonomy_level: Binary64 { bits: ONE_BITS },
        }
    }

    /// A composite holon: no parent, no children yet, and the autonomy
    /// level 0.8.
    pub fn composite(id: AgentId) -> (holon: Holon)
        ensures
            holon@ == (HolonView {
                id,
                holon_type: HolonType::Composite,
                parent: None,
                children: Seq::empty(),
                autonomy_level: Binary64 { bits: COMPOSITE_AUTONOMY_BITS },
            }),
    {
        Holon {
            id,
            holon_type: HolonType::Composite,
            parent: None,
            children: Vec::new(),
            autonomy_level: Binary64 { bits: COMPOSITE_AUTONOMY_BITS },
        }
    }

    /// Sets the parent, in place of the one there was, if any.
    pub fn set_parent(&mut self, parent: AgentId)
        ensures
            final(self)@ == (HolonView { parent: Some(parent), ..old(self)@ }),
    {
        self.parent = Some(parent);
    }

    /// Adds `child` after the children there are. The holon is composite
    /// afterwards.
    pub fn add_child(&mut self, child: AgentId)
        ensures
            final(self)@ == (HolonView {
                children: old(self)@.children.push(child),
                holon_type: HolonType::Composite,
                ..old(self)@
            }),
    {
        self.children.push(child);
        if self.holon_type == HolonType::Atomic {
            self.holon_type = HolonType::Composite;
        }
    }

    /// Sets the autonomy level to `level` clamped to the range from zero to
    /// one.
    pub fn set_autonomy_level(&mut self, level: Binary64)
        ensures
            final(self)@ == (HolonView {
                autonomy_level: level.clamped_to_unit(),
                ..old(self)@
            }),
    {
        self.autonomy_level = level.clamp_to_unit();
    }

    /// The identifier of the holon.
    pub fn id(&self) -> (id: &AgentId)
        ensures
            *id == self@.id,
    {
        &self.id
    }

    /// The kind of the holon.
    pub fn holon_type(&self) -> (holon_type: HolonType)
        ensures
            holon_type == self@.holon_type,
    {
        self.holon_type
    }

    /// The parent, if one is set.
    pub fn parent(&self) -> (parent: Option<&AgentId>)
        ensures
            match parent {
                Some(id) => self@.parent == Some(*id),
                None => self@.parent.is_none(),
            },
    {
        self.parent.as_ref()
    }

    /// The children, in the order in which they were added.
    pub fn children(&self) -> (children: &[AgentId])
        ensures
            children@ == self@.children,
    {
        self.children.as_slice()
    }

    /// The autonomy level.
    pub fn autonomy_level(&self) -> (level: Binary64)
        ensures
            level == self@.autonomy_level,
    {
        self.autonomy_level
    }

    /// Tells whether the holon is a leaf: whether it has no children.
    pub fn is_leaf(&self) -> (leaf: bool)
        ensures
            leaf == (self@.children.len() == 0),
    {
        self.children.len() == 0
    }
}

} // verus!
