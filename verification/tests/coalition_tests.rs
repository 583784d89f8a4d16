use agentropic_patterns::prelude::{
    AgentId, Binary64, Coalition, Formation, FormationType, Strategy, StrategyType,
};

fn number(value: f64) -> Binary64 {
    Binary64::from_bits(value.to_bits())
}

fn value(number: Binary64) -> f64 {
    f64::from_bits(number.to_bits())
}

#[test]
fn create_coalition() {
    let mut coalition = Coalition::new("trading_coalition");

    coalition.add_member(AgentId::from_u128(1));
    coalition.add_member(AgentId::from_u128(2));
    coalition.set_value(number(1000.0));

    assert_eq!(coalition.size(), 2);
    assert_eq!(value(coalition.value()), 1000.0);
}

#[test]
fn coalition_formation() {
    let mut formation = Formation::new(FormationType::Negotiation);

    let agent1 = AgentId::from_u128(1);
    let agent2 = AgentId::from_u128(2);

    formation.add_candidate(agent1.clone());
    formation.add_candidate(agent2.clone());
    formation.select(agent1);

    assert!(formation.is_complete());
    assert_eq!(formation.selected().len(), 1);
}

#[test]
fn coalition_starts_empty() {
    let coalition = Coalition::new("defi_coalition");
    assert_eq!(coalition.name(), "defi_coalition");
    assert_eq!(coalition.size(), 0);
    assert!(coalition.members().is_empty());
    assert!(coalition.strategy().is_none());
    assert_eq!(coalition.value().to_bits(), 0.0f64.to_bits());
}

#[test]
fn coalition_member_joins_once() {
    let mut coalition = Coalition::new("c");
    let a = AgentId::from_u128(1);
    let b = AgentId::from_u128(2);
    assert!(coalition.add_member(a));
    assert!(coalition.add_member(b));
    assert!(!coalition.add_member(a));
    assert_eq!(coalition.size(), 2);
    assert_eq!(coalition.members(), vec![a, b]);
    assert!(coalition.has_member(&a));
    assert!(coalition.has_member(&b));
    assert!(!coalition.has_member(&AgentId::from_u128(3)));
}

#[test]
fn coalition_member_leaves() {
    let mut coalition = Coalition::new("c");
    let a = AgentId::from_u128(1);
    let b = AgentId::from_u128(2);
    let c = AgentId::from_u128(3);
    coalition.add_member(a);
    coalition.add_member(b);
    coalition.add_member(c);
    assert!(coalition.remove_member(&b));
    assert!(!coalition.remove_member(&b));
    assert!(!coalition.has_member(&b));
    assert_eq!(coalition.members(), vec![a, c]);
    assert_eq!(coalition.size(), 2);
    assert!(coalition.add_member(b));
    assert_eq!(coalition.members(), vec![a, c, b]);
}

#[test]
fn coalition_strategy_and_value_are_replaced() {
    let mut coalition = Coalition::new("c");
    coalition.set_strategy(Strategy::new(StrategyType::MinimizeCost));
    coalition.set_strategy(
        Strategy::new(StrategyType::MaximizeUtility).with_parameter("risk_tolerance", number(0.6)),
    );
    coalition.set_value(number(1.0));
    coalition.set_value(number(5000.0));

    let strategy = coalition.strategy().unwrap();
    assert_eq!(strategy.strategy_type(), StrategyType::MaximizeUtility);
    assert_eq!(strategy.parameters().len(), 1);
    assert_eq!(strategy.parameters()[0].0, "risk_tolerance");
    assert_eq!(value(strategy.parameters()[0].1), 0.6);
    assert_eq!(value(coalition.value()), 5000.0);
}

#[test]
fn strategy_keeps_parameters_in_order() {
    let strategy = Strategy::new(StrategyType::BalanceResources)
        .with_parameter("a", number(1.0))
        .with_parameter("b", number(-2.0))
        .with_parameter("a", number(3.0));
    assert_eq!(strategy.strategy_type(), StrategyType::BalanceResources);
    let names: Vec<&str> = strategy.parameters().iter().map(|p| p.0.as_str()).collect();
    let values: Vec<f64> = strategy.parameters().iter().map(|p| value(p.1)).collect();
    assert_eq!(names, vec!["a", "b", "a"]);
    assert_eq!(values, vec![1.0, -2.0, 3.0]);
    assert!(Strategy::new(StrategyType::MaximizeCoverage).parameters().is_empty());
}

#[test]
fn formation_selects_candidates_only() {
    let mut formation = Formation::new(FormationType::TopDown);
    assert_eq!(formation.formation_type(), FormationType::TopDown);
    assert!(!formation.is_complete());

    let a = AgentId::from_u128(1);
    let b = AgentId::from_u128(2);
    formation.select(a);
    assert!(!formation.is_complete());
    assert!(formation.selected().is_empty());

    formation.add_candidate(a);
    formation.select(b);
    assert!(formation.selected().is_empty());
    formation.select(a);
    formation.select(a);
    assert_eq!(formation.candidates(), &[a]);
    assert_eq!(formation.selected(), &[a, a]);
    assert!(formation.is_complete());

    let copy = formation.clone();
    assert_eq!(copy.formation_type(), FormationType::TopDown);
    assert_eq!(copy.candidates(), formation.candidates());
    assert_eq!(copy.selected(), formation.selected());
}
