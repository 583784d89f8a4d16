use agentropic_patterns::prelude::{AgentId, AgentMap};

#[test]
fn agent_id_is_its_value() {
    let id = AgentId::from_u128(u128::MAX);
    assert_eq!(id.as_u128(), u128::MAX);
    assert_eq!(id, AgentId::from_u128(u128::MAX));
    assert_ne!(id, AgentId::from_u128(0));
}

#[test]
fn agent_map_insert_returns_previous_value() {
    let mut map: AgentMap<u32> = AgentMap::new();
    assert!(map.is_empty());
    let a = AgentId::from_u128(1);
    let b = AgentId::from_u128(2);
    assert_eq!(map.insert(a, 10), None);
    assert_eq!(map.insert(b, 20), None);
    assert_eq!(map.insert(a, 30), Some(10));
    assert_eq!(map.len(), 2);
    assert!(!map.is_empty());
    assert_eq!(map.as_slice(), &[(a, 30), (b, 20)]);
    assert_eq!(map.get(&a), Some(&30));
    assert_eq!(map.get(&b), Some(&20));
    assert_eq!(map.get(&AgentId::from_u128(3)), None);
}

#[test]
fn agent_map_position_and_contains() {
    let mut map: AgentMap<&str> = AgentMap::new();
    let a = AgentId::from_u128(1);
    let b = AgentId::from_u128(2);
    let c = AgentId::from_u128(3);
    map.insert(a, "a");
    map.insert(b, "b");
    assert_eq!(map.position(&a), Some(0));
    assert_eq!(map.position(&b), Some(1));
    assert_eq!(map.position(&c), None);
    assert!(map.contains(&a));
    assert!(!map.contains(&c));
}

#[test]
fn agent_map_remove_keeps_order() {
    let mut map: AgentMap<u32> = AgentMap::new();
    let ids: Vec<AgentId> = (1..=4).map(AgentId::from_u128).collect();
    for (i, id) in ids.iter().enumerate() {
        map.insert(*id, i as u32);
    }
    assert_eq!(map.remove(&ids[1]), Some(1));
    assert_eq!(map.remove(&ids[1]), None);
    assert_eq!(map.as_slice(), &[(ids[0], 0), (ids[2], 2), (ids[3], 3)]);
    map.insert(ids[1], 9);
    assert_eq!(map.as_slice()[3], (ids[1], 9));
}

#[test]
fn agent_map_clear_and_clone() {
    let mut map: AgentMap<String> = AgentMap::new();
    map.insert(AgentId::from_u128(1), "x".to_string());
    map.insert(AgentId::from_u128(2), "y".to_string());
    let copy = map.clone();
    map.clear();
    assert!(map.is_empty());
    assert_eq!(map.len(), 0);
    assert_eq!(copy.len(), 2);
    assert_eq!(copy.get(&AgentId::from_u128(2)), Some(&"y".to_string()));
    assert_eq!(copy.as_slice()[0], (AgentId::from_u128(1), "x".to_string()));
}
