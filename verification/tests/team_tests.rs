use agentropic_patterns::prelude::{AgentId, Coordination, Role, RoleType, Team};

#[test]
fn role_keeps_responsibilities_in_order() {
    let role = Role::new("lead", RoleType::Leader)
        .with_responsibility("plan")
        .with_responsibility("review")
        .with_responsibility("plan");
    assert_eq!(role.name(), "lead");
    assert_eq!(role.role_type(), RoleType::Leader);
    assert_eq!(role.responsibilities(), &["plan", "review", "plan"]);
    assert!(Role::new("idle", RoleType::Executor).responsibilities().is_empty());
    assert_eq!(role.clone(), role);
}

#[test]
fn coordination_holds_leader_and_members() {
    let mut coordination = Coordination::new();
    assert!(coordination.leader().is_none());
    assert!(coordination.members().is_empty());
    assert!(Coordination::default().leader().is_none());
    assert!(Coordination::default().members().is_empty());

    let a = AgentId::from_u128(1);
    let b = AgentId::from_u128(2);
    coordination.add_member(a);
    coordination.add_member(b);
    coordination.add_member(a);
    coordination.set_leader(a);
    coordination.set_leader(b);
    assert_eq!(coordination.leader(), Some(&b));
    assert_eq!(coordination.members(), &[a, b, a]);
}

#[test]
fn team_assigns_one_role_per_agent() {
    let mut team = Team::new("builders");
    assert_eq!(team.name(), "builders");
    assert!(team.members().is_empty());

    let a = AgentId::from_u128(1);
    let b = AgentId::from_u128(2);
    team.assign_role(a, Role::new("lead", RoleType::Leader));
    team.assign_role(b, Role::new("hands", RoleType::Executor));
    team.assign_role(a, Role::new("expert", RoleType::Specialist));
    team.set_leader(b);

    assert_eq!(team.members(), vec![a, b]);
    assert_eq!(team.get_role(&a).unwrap().name(), "expert");
    assert_eq!(team.get_role(&a).unwrap().role_type(), RoleType::Specialist);
    assert_eq!(team.get_role(&b).unwrap().role_type(), RoleType::Executor);
    assert!(team.get_role(&AgentId::from_u128(3)).is_none());
    assert_eq!(team.coordination().members(), &[a, b, a]);
    assert_eq!(team.coordination().leader(), Some(&b));
}
