//! Roles that the members of a team take.

use crate::text::strings_view;
use vstd::prelude::*;

verus! {

/// The kind of a role.
#[derive(Clone, Copy, Debug, PartialEq, Eq, Structural)]
pub enum RoleType {
    /// Leads the team.
    Leader,
    /// Coordinates the work of others.
    Coordinator,
    /// Carries work out.
    Executor,
    /// Brings a special skill.
    Specialist,
}

/// A role in a team, with the responsibilities that go with it.
#[derive(Clone, Debug, PartialEq)]
pub struct Role {
    name: String,
    role_type: RoleType,
    responsibilities: Vec<String>,
}

/// What a role holds.
pub struct RoleView {
    pub name: Seq<char>,
    pub role_type: RoleType,
    pub responsibilities: Seq<Seq<char>>,
}

impl View for Role {
    type V = RoleView;

    closed spec fn view(&self) -> RoleView {
        RoleView {
            name: self.name@,
            role_type: self.role_type,
            responsibilities: strings_view(self.responsibilities@),
        }
    }
}

impl Role {
    /// The role with the given name and kind, without responsibilities.
    pub fn new(name: &str, role_type: RoleType) -> (role: Role)
        ensures
            role@ == (RoleView { name: name@, role_type, responsibilities: Seq::empty() }),
    {
        let role = Role { name: name.to_owned(), role_type, responsibilities: Vec::new() };
        assert(role@.responsibilities =~= Seq::empty());
        role
    }

    /// The same role with `responsibility` added after those it has.
    pub fn with_responsibility(self, responsibility: &str) -> (role: Role)
        ensures
            role@ == (RoleView {
                responsibilities: self@.responsibilities.push(responsibility@),
                ..self@
            }),
    {
        let mut role = self;
        role.responsibilities.push(responsibility.to_owned());
        assert(role@.responsibilities =~= self@.responsibilities.push(responsibility@));
        role
    }

    /// The name of the role.
    pub fn name(&self) -> (name: &str)
        ensures
            name@ == self@.name,
    {
        self.name.as_str()
    }

    /// The kind of the role.
    pub fn role_type(&self) -> (role_type: RoleType)
        ensures
            role_type == self@.role_type,
    {
        self.role_type
    }

    /// The responsibilities, in the order in which they were added.
    pub fn responsibilities(&self) -> (responsibilities: &[String])
        ensures
            strings_view(responsibilities@) == self@.responsibilities,
    {
        self.responsibilities.as_slice()
    }
}

} // verus!
