use agentropic_patterns::prelude::{AgentId, Delegation, Level, LevelType};

#[test]
fn level_comparison() {
    let high = Level::new("High", LevelType::Strategic, 10);
    let low = Level::new("Low", LevelType::Operational, 1);

    assert!(high.is_above(&low));
    assert!(!low.is_above(&high));
}

#[test]
fn delegation() {
    let manager = AgentId::from_u128(1);
    let worker = AgentId::from_u128(2);

    let delegation = Delegation::new(manager.clone(), worker.clone(), "process_orders", 2);

    assert_eq!(delegation.from(), &manager);
    assert_eq!(delegation.to(), &worker);
    assert_eq!(delegation.task(), "process_orders");
}

#[test]
fn delegation_holds_its_authority_level() {
    let delegation =
        Delegation::new(AgentId::from_u128(1), AgentId::from_u128(1), "implement_strategy", u32::MAX);
    assert_eq!(delegation.authority_level(), u32::MAX);
    assert_eq!(delegation.from(), delegation.to());
}

#[test]
fn level_holds_what_it_was_made_with() {
    let level = Level::new("C-Level", LevelType::Strategic, 3);
    assert_eq!(level.name(), "C-Level");
    assert_eq!(level.level_type(), LevelType::Strategic);
    assert_eq!(level.rank(), 3);
    assert_eq!(level.clone(), level);
    assert_ne!(level, Level::new("C-Level", LevelType::Tactical, 3));
}

#[test]
fn level_of_equal_rank_is_not_above() {
    let a = Level::new("Management", LevelType::Tactical, 2);
    let b = Level::new("Workers", LevelType::Operational, 2);
    assert!(!a.is_above(&b));
    assert!(!b.is_above(&a));
    assert!(!a.is_above(&a));
    let top = Level::new("Top", LevelType::Strategic, u32::MAX);
    let bottom = Level::new("Bottom", LevelType::Operational, 0);
    assert!(top.is_above(&bottom));
    assert!(!bottom.is_above(&top));
}
