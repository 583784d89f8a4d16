use agentropic_patterns::prelude::{AgentId, Binary64, Holon, HolonType};

fn number(value: f64) -> Binary64 {
    Binary64::from_bits(value.to_bits())
}

fn value(number: Binary64) -> f64 {
    f64::from_bits(number.to_bits())
}

#[test]
fn atomic_holon_starts_fully_autonomous() {
    let id = AgentId::from_u128(5);
    let holon = Holon::atomic(id);
    assert_eq!(holon.id(), &id);
    assert_eq!(holon.holon_type(), HolonType::Atomic);
    assert!(holon.parent().is_none());
    assert!(holon.children().is_empty());
    assert!(holon.is_leaf());
    assert_eq!(value(holon.autonomy_level()), 1.0);
}

#[test]
fn composite_holon_starts_at_eight_tenths() {
    let holon = Holon::composite(AgentId::from_u128(5));
    assert_eq!(holon.holon_type(), HolonType::Composite);
    assert!(holon.parent().is_none());
    assert!(holon.is_leaf());
    assert_eq!(value(holon.autonomy_level()), 0.8);
}

#[test]
fn holon_with_a_child_is_composite() {
    let mut holon = Holon::atomic(AgentId::from_u128(1));
    let a = AgentId::from_u128(2);
    let b = AgentId::from_u128(3);
    holon.add_child(a);
    assert_eq!(holon.holon_type(), HolonType::Composite);
    holon.add_child(b);
    holon.add_child(a);
    assert_eq!(holon.holon_type(), HolonType::Composite);
    assert_eq!(holon.children(), &[a, b, a]);
    assert!(!holon.is_leaf());
    assert_eq!(value(holon.autonomy_level()), 1.0);
}

#[test]
fn holon_parent_is_replaced() {
    let mut holon = Holon::composite(AgentId::from_u128(1));
    holon.set_parent(AgentId::from_u128(8));
    holon.set_parent(AgentId::from_u128(9));
    assert_eq!(holon.parent(), Some(&AgentId::from_u128(9)));
}

#[test]
fn holon_autonomy_level_is_clamped() {
    let mut holon = Holon::atomic(AgentId::from_u128(1));
    for level in [0.0, 0.3, 1.0, -0.0, 5e-324, -1.0, 1.0000000000000002, 42.0, f64::INFINITY,
        f64::NEG_INFINITY, f64::NAN]
    {
        holon.set_autonomy_level(number(level));
        assert_eq!(holon.autonomy_level().to_bits(), level.clamp(0.0, 1.0).to_bits());
    }
}
