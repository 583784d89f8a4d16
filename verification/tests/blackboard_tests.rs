use agentropic_patterns::prelude::{AgentId, Blackboard, KnowledgeSource, KnowledgeSourceType};

#[test]
fn blackboard_starts_empty() {
    let blackboard = Blackboard::new("shared_knowledge");
    assert_eq!(blackboard.name(), "shared_knowledge");
    assert_eq!(blackboard.size(), 0);
    assert!(blackboard.knowledge().is_empty());
    assert!(blackboard.sources().is_empty());
    assert!(blackboard.read("temperature").is_none());
}

#[test]
fn blackboard_write_then_read() {
    let mut blackboard = Blackboard::new("b");
    blackboard.write("temperature", "25 C");
    blackboard.write("pressure", "1013 hPa");
    blackboard.write("inference", "weather_stable");
    assert_eq!(blackboard.read("temperature"), Some(&"25 C".to_string()));
    assert_eq!(blackboard.read("pressure"), Some(&"1013 hPa".to_string()));
    assert_eq!(blackboard.read("inference"), Some(&"weather_stable".to_string()));
    assert_eq!(blackboard.read("humidity"), None);
    assert_eq!(blackboard.read(""), None);
    assert_eq!(blackboard.size(), 3);
}

#[test]
fn blackboard_write_replaces_in_place() {
    let mut blackboard = Blackboard::new("b");
    blackboard.write("a", "1");
    blackboard.write("b", "2");
    blackboard.write("a", "3");
    assert_eq!(blackboard.size(), 2);
    assert_eq!(blackboard.read("a"), Some(&"3".to_string()));
    assert_eq!(
        blackboard.knowledge(),
        &[("a".to_string(), "3".to_string()), ("b".to_string(), "2".to_string())]
    );
}

#[test]
fn blackboard_remove_returns_the_value() {
    let mut blackboard = Blackboard::new("b");
    blackboard.write("a", "1");
    blackboard.write("b", "2");
    blackboard.write("c", "3");
    assert_eq!(blackboard.remove("b"), Some("2".to_string()));
    assert_eq!(blackboard.remove("b"), None);
    assert_eq!(blackboard.remove("z"), None);
    assert_eq!(blackboard.size(), 2);
    assert_eq!(blackboard.read("b"), None);
    assert_eq!(
        blackboard.knowledge(),
        &[("a".to_string(), "1".to_string()), ("c".to_string(), "3".to_string())]
    );
    blackboard.write("b", "4");
    assert_eq!(blackboard.knowledge()[2], ("b".to_string(), "4".to_string()));
}

#[test]
fn blackboard_clear_keeps_name_and_sources() {
    let mut blackboard = Blackboard::new("b");
    let sensor =
        KnowledgeSource::new(AgentId::from_u128(1), KnowledgeSourceType::Sensor).with_priority(1);
    let reasoner =
        KnowledgeSource::new(AgentId::from_u128(2), KnowledgeSourceType::Reasoning).with_priority(2);
    blackboard.add_source(sensor);
    blackboard.add_source(reasoner);
    blackboard.write("a", "1");
    blackboard.clear();
    assert_eq!(blackboard.size(), 0);
    assert_eq!(blackboard.read("a"), None);
    assert_eq!(blackboard.name(), "b");
    assert_eq!(blackboard.sources(), &[sensor, reasoner]);

    let copy = blackboard.clone();
    assert_eq!(copy.name(), "b");
    assert_eq!(copy.sources(), blackboard.sources());
    assert_eq!(copy.knowledge(), blackboard.knowledge());
}

#[test]
fn blackboard_clone_holds_the_same_knowledge() {
    let mut blackboard = Blackboard::new("b");
    blackboard.write("a", "1");
    blackboard.write("b", "2");
    let copy = blackboard.clone();
    blackboard.write("a", "changed");
    assert_eq!(copy.read("a"), Some(&"1".to_string()));
    assert_eq!(copy.read("b"), Some(&"2".to_string()));
    assert_eq!(copy.size(), 2);
}

#[test]
fn knowledge_source_holds_what_it_was_made_with() {
    let id = AgentId::from_u128(3);
    let source = KnowledgeSource::new(id, KnowledgeSourceType::Sensor);
    assert_eq!(source.agent_id(), &id);
    assert_eq!(source.source_type(), KnowledgeSourceType::Sensor);
    assert_eq!(source.priority(), 0);
    let raised = source.with_priority(7);
    assert_eq!(raised.agent_id(), &id);
    assert_eq!(raised.source_type(), KnowledgeSourceType::Sensor);
    assert_eq!(raised.priority(), 7);
}
