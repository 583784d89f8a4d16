//! A team: agents with their roles, and the coordination among them.

use crate::agent::AgentId;
use crate::agent_map::AgentMap;
use crate::keyed::{distinct_keys, keys_of, lemma_same_keys, put, value_of};
use crate::team::coordination::{Coordination, CoordinationView};
use crate::team::role::{Role, RoleView};
use vstd::prelude::*;

verus! {

/// The roles as plain values: each agent with the role it has.
pub open spec fn roles_view(roles: Seq<(AgentId, Role)>) -> Seq<(AgentId, RoleView)> {
    roles.map_values(|entry: (AgentId, Role)| (entry.0, entry.1@))
}

/// A team. Each agent of the team has one role; the coordination lists an
/// agent once for each time a role was assigned to it.
#[derive(Clone, Debug)]
pub struct Team {
    name: String,
    roles: AgentMap<Role>,
    coordination: Coordination,
}

/// What a team holds.
pub struct TeamView {
    pub name: Seq<char>,
    pub roles: Seq<(AgentId, RoleView)>,
    pub coordination: CoordinationView,
}

impl TeamView {
    /// No agent has two roles.
    pub open spec fn wf(self) -> bool {
        distinct_keys(self.roles)
    }
}

impl View for Team {
    type V = TeamView;

    closed spec fn view(&self) -> TeamView {
        TeamView {
            name: self.name@,
            roles: roles_view(self.roles@),
            coordination: self.coordination@,
        }
    }
}

impl Team {
    /// The team with the given name, without agents and without leader.
    pub fn new(name: &str) -> (team: Team)
        ensures
            team@ == (TeamView {
                name: name@,
                roles: Seq::empty(),
                coordination: CoordinationView { leader: None, members: Seq::empty() },
            }),
    {
        let team = Team {
            name: name.to_owned(),
            roles: AgentMap::new(),
            coordination: Coordination::new(),
        };
        assert(team@.roles =~= Seq::empty());
        team
    }

    /// Gives `agent_id` the role `role`, in place of the role it had, if
    /// any, and lists it as a member.
    pub fn assign_role(&mut self, agent_id: AgentId, role: Role)
        ensures
            final(self)@ == (TeamView {
                roles: put(old(self)@.roles, agent_id, role@),
                coordination: CoordinationView {
                    members: old(self)@.coordination.members.push(agent_id),
                    ..old(self)@.coordination
                },
                ..old(self)@
            }),
            final(self)@.wf(),
    {
        self.roles.insert(agent_id, role);
        self.coordination.add_member(agent_id);
        proof {
            lemma_same_keys(old(self).roles@, roles_view(old(self).roles@));
            lemma_same_keys(self.roles@, roles_view(self.roles@));
            assert(self@.roles =~= put(old(self)@.roles, agent_id, role@));
        }
    }

    /// The role of `agent_id`, if it has one.
    pub fn get_role(&self, agent_id: &AgentId) -> (role: Option<&Role>)
        ensures
            match role {
                Some(r) => value_of(self@.roles, *agent_id) == Some(r@),
                None => value_of(self@.roles, *agent_id).is_none(),
            },
    {
        let role: Option<&Role> = self.roles.get(agent_id);
        proof {
            lemma_same_keys(self.roles@, roles_view(self.roles@));
        }
        role
    }

    /// Makes `leader` the leader of the team.
    pub fn set_leader(&mut self, leader: AgentId)
        ensures
            final(self)@ == (TeamView {
                coordination: CoordinationView { leader: Some(leader), ..old(self)@.coordination },
                ..old(self)@
            }),
    {
        self.coordination.set_leader(leader);
    }

    /// The name of the team.
    pub fn name(&self) -> (name: &str)
        ensures
            name@ == self@.name,
    {
        self.name.as_str()
    }

    /// The coordination of the team.
    pub fn coordination(&self) -> (coordination: &Coordination)
        ensures
            coordination@ == self@.coordination,
    {
        &self.coordination
    }

    /// The agents that have a role, each once, in the order in which they
    /// first got one.
    pub fn members(&self) -> (members: Vec<AgentId>)
        ensures
            members@ == keys_of(self@.roles),
            self@.wf(),
    {
        let members: Vec<AgentId> = self.roles.keys();
        proof {
            assert(members@ =~= keys_of(self@.roles));
            lemma_same_keys(self.roles@, roles_view(self.roles@));
        }
        members
    }
}

} // verus!
