use agentropic_patterns::prelude::{
    AgentId, Behavior, BehaviorType, Binary64, Consensus, Flocking, Foraging, Swarm,
};

fn number(value: f64) -> Binary64 {
    Binary64::from_bits(value.to_bits())
}

fn value(number: Binary64) -> f64 {
    f64::from_bits(number.to_bits())
}

fn consensus_of(threshold: f64, choices: &[&str]) -> Consensus {
    let mut consensus = Consensus::new(number(threshold));
    for (i, choice) in choices.iter().enumerate() {
        consensus.vote(AgentId::from_u128(i as u128 + 1), choice);
    }
    consensus
}

#[test]
fn create_swarm() {
    let mut swarm = Swarm::new("robot_swarm");

    swarm.add_member(AgentId::from_u128(1));
    swarm.add_member(AgentId::from_u128(2));
    swarm.add_member(AgentId::from_u128(3));

    assert_eq!(swarm.size(), 3);
}

#[test]
fn flocking_behavior() {
    let flocking = Flocking::new()
        .with_separation(number(2.0))
        .with_alignment(number(1.5))
        .with_cohesion(number(1.0));

    assert_eq!(value(flocking.separation_weight()), 2.0);
    assert_eq!(value(flocking.alignment_weight()), 1.5);
    assert_eq!(value(flocking.cohesion_weight()), 1.0);
}

#[test]
fn consensus() {
    let mut consensus = Consensus::new(number(0.6));

    consensus.vote(AgentId::from_u128(1), "option_a");
    consensus.vote(AgentId::from_u128(2), "option_a");
    consensus.vote(AgentId::from_u128(3), "option_b");

    assert!(consensus.is_reached());
    assert_eq!(consensus.winner(), Some("option_a".to_string()));
}

#[test]
fn swarm_holds_name_members_and_behavior() {
    let mut swarm = Swarm::new("drone_swarm");
    assert_eq!(swarm.name(), "drone_swarm");
    assert!(swarm.members().is_empty());
    assert!(swarm.behavior().is_none());

    let a = AgentId::from_u128(10);
    swarm.add_member(a);
    swarm.add_member(a);
    assert_eq!(swarm.members(), &[a, a]);
    assert_eq!(swarm.size(), 2);

    swarm.set_behavior(Behavior::new(BehaviorType::Foraging));
    swarm.set_behavior(Behavior::new(BehaviorType::Flocking).with_parameter("separation", number(2.0)));
    let behavior = swarm.behavior().unwrap();
    assert_eq!(behavior.behavior_type(), BehaviorType::Flocking);
    assert_eq!(behavior.parameters().len(), 1);
}

#[test]
fn behavior_keeps_parameters_in_order() {
    let behavior = Behavior::new(BehaviorType::Exploration)
        .with_parameter("separation", number(2.0))
        .with_parameter("alignment", number(1.0))
        .with_parameter("separation", number(0.5));
    assert_eq!(behavior.behavior_type(), BehaviorType::Exploration);
    let parameters = behavior.parameters();
    assert_eq!(parameters.len(), 3);
    assert_eq!(parameters[0].0, "separation");
    assert_eq!(value(parameters[0].1), 2.0);
    assert_eq!(parameters[1].0, "alignment");
    assert_eq!(value(parameters[1].1), 1.0);
    assert_eq!(parameters[2].0, "separation");
    assert_eq!(value(parameters[2].1), 0.5);
    assert!(Behavior::new(BehaviorType::Aggregation).parameters().is_empty());
}

#[test]
fn flocking_starts_with_its_initial_weights() {
    for flocking in [Flocking::new(), Flocking::default()] {
        assert_eq!(value(flocking.separation_weight()), 1.5);
        assert_eq!(value(flocking.alignment_weight()), 1.0);
        assert_eq!(value(flocking.cohesion_weight()), 1.0);
    }
}

#[test]
fn foraging_starts_with_its_initial_rates() {
    for foraging in [Foraging::new(), Foraging::default()] {
        assert_eq!(value(foraging.pheromone_strength()), 1.0);
        assert_eq!(value(foraging.evaporation_rate()), 0.1);
        assert_eq!(value(foraging.exploration_rate()), 0.2);
    }
}

#[test]
fn foraging_builders_set_one_rate_each() {
    let foraging = Foraging::new()
        .with_pheromone_strength(number(2.5))
        .with_evaporation_rate(number(0.05))
        .with_exploration_rate(number(0.3));
    assert_eq!(value(foraging.pheromone_strength()), 2.5);
    assert_eq!(value(foraging.evaporation_rate()), 0.05);
    assert_eq!(value(foraging.exploration_rate()), 0.3);

    let one = Foraging::new().with_evaporation_rate(number(0.5));
    assert_eq!(value(one.pheromone_strength()), 1.0);
    assert_eq!(value(one.evaporation_rate()), 0.5);
    assert_eq!(value(one.exploration_rate()), 0.2);
}

#[test]
fn consensus_two_of_three_reaches_six_tenths() {
    let consensus = consensus_of(0.6, &["X", "X", "Y"]);
    assert!(consensus.is_reached());
    assert_eq!(consensus.winner(), Some("X".to_string()));
}

#[test]
fn consensus_three_ways_does_not_reach_six_tenths() {
    let consensus = consensus_of(0.6, &["X", "Y", "Z"]);
    assert!(!consensus.is_reached());
    assert_eq!(consensus.winner(), None);
}

#[test]
fn consensus_is_not_reached_without_votes() {
    for threshold in [0.0, -0.0, 0.5, 1.0, -3.0, 7.0, f64::NAN] {
        let consensus = Consensus::new(number(threshold));
        assert!(!consensus.is_reached());
        assert_eq!(consensus.winner(), None);
    }
}

#[test]
fn consensus_strict_leader_with_enough_share_wins() {
    let consensus = consensus_of(0.5, &["b", "a", "a", "c", "a", "b"]);
    assert!(consensus.is_reached());
    assert_eq!(consensus.winner(), Some("a".to_string()));

    let short = consensus_of(0.75, &["b", "a", "a", "c", "a", "b"]);
    assert!(!short.is_reached());
    assert_eq!(short.winner(), None);
}

#[test]
fn consensus_later_vote_replaces_earlier_one() {
    let mut consensus = Consensus::new(number(1.0));
    let a = AgentId::from_u128(1);
    let b = AgentId::from_u128(2);
    consensus.vote(a, "north");
    consensus.vote(b, "south");
    assert!(!consensus.is_reached());
    consensus.vote(b, "north");
    assert!(consensus.is_reached());
    assert_eq!(consensus.winner(), Some("north".to_string()));

    let votes = consensus.votes();
    assert_eq!(votes.len(), 2);
    assert_eq!(votes.get(&a), Some(&"north".to_string()));
    assert_eq!(votes.get(&b), Some(&"north".to_string()));
    assert_eq!(votes.as_slice()[0].0, a);
    assert_eq!(votes.as_slice()[1].0, b);
}

#[test]
fn consensus_tie_goes_to_the_option_voted_first() {
    let consensus = consensus_of(0.5, &["y", "x", "x", "y"]);
    assert!(consensus.is_reached());
    assert_eq!(consensus.winner(), Some("y".to_string()));

    let mut changed = consensus_of(0.5, &["y", "x", "x", "y"]);
    changed.vote(AgentId::from_u128(1), "x");
    changed.vote(AgentId::from_u128(3), "y");
    assert_eq!(changed.winner(), Some("x".to_string()));
}

#[test]
fn consensus_threshold_is_clamped() {
    assert_eq!(value(Consensus::new(number(1.5)).threshold()), 1.0);
    assert_eq!(value(Consensus::new(number(f64::INFINITY)).threshold()), 1.0);
    assert_eq!(Consensus::new(number(-0.25)).threshold().to_bits(), 0.0f64.to_bits());
    assert_eq!(Consensus::new(number(f64::NEG_INFINITY)).threshold().to_bits(), 0.0f64.to_bits());
    assert_eq!(value(Consensus::new(number(0.6)).threshold()), 0.6);
    assert!(value(Consensus::new(number(f64::NAN)).threshold()).is_nan());

    let all = consensus_of(9.0, &["a", "a"]);
    assert!(all.is_reached());
    let split = consensus_of(9.0, &["a", "b"]);
    assert!(!split.is_reached());
    let any = consensus_of(-9.0, &["a", "b", "c"]);
    assert!(any.is_reached());
    assert_eq!(any.winner(), Some("a".to_string()));
}

#[test]
fn consensus_threshold_that_is_no_number_is_never_reached() {
    let consensus = consensus_of(f64::NAN, &["a", "a", "a"]);
    assert!(!consensus.is_reached());
    assert_eq!(consensus.winner(), None);
}

#[test]
fn consensus_share_that_rounds_onto_the_threshold_reaches_it() {
    let four_of_five = consensus_of(0.8, &["X", "X", "X", "X", "Y"]);
    assert!(four_of_five.is_reached());
    assert_eq!(four_of_five.winner(), Some("X".to_string()));

    let one_of_ten = consensus_of(0.1, &["a", "b", "c", "d", "e", "f", "g", "h", "i", "j"]);
    assert!(one_of_ten.is_reached());
    assert_eq!(one_of_ten.winner(), Some("a".to_string()));

    assert!(consensus_of(0.2, &["a", "b", "c", "d", "e"]).is_reached());
    assert!(consensus_of(0.4, &["a", "a", "b", "c", "d"]).is_reached());
    assert!(consensus_of(0.6, &["a", "a", "a", "b", "c"]).is_reached());
    assert!(consensus_of(0.9, &["a", "a", "a", "a", "a", "a", "a", "a", "a", "b"]).is_reached());

    let mut eleven_of_twenty = Consensus::new(number(0.55));
    for i in 0..20u128 {
        eleven_of_twenty.vote(AgentId::from_u128(i), if i < 11 { "yes" } else { "no" });
    }
    assert!(eleven_of_twenty.is_reached());
    assert_eq!(eleven_of_twenty.winner(), Some("yes".to_string()));
}

#[test]
fn consensus_share_next_to_the_threshold() {
    assert!(consensus_of(0.5, &["a", "b"]).is_reached());
    assert!(consensus_of(0.25, &["a", "b", "c", "d"]).is_reached());
    assert!(!consensus_of(0.25, &["a", "b", "c", "d", "e"]).is_reached());
    let below_half = f64::from_bits(0.5f64.to_bits() - 1);
    let above_half = f64::from_bits(0.5f64.to_bits() + 1);
    assert!(consensus_of(below_half, &["a", "b"]).is_reached());
    assert!(!consensus_of(above_half, &["a", "b"]).is_reached());
    let above_eight_tenths = f64::from_bits(0.8f64.to_bits() + 1);
    assert!(!consensus_of(above_eight_tenths, &["X", "X", "X", "X", "Y"]).is_reached());
    assert!(!consensus_of(0.8, &["X", "X", "X", "Y", "Z"]).is_reached());
}

#[test]
fn consensus_agrees_with_division_of_the_counts() {
    let thresholds = [0.0, 0.1, 0.2, 0.3, 1.0 / 3.0, 0.4, 0.5, 0.55, 0.6, 2.0 / 3.0, 0.7, 0.75, 0.8, 0.9, 1.0];
    for total in 1usize..=12 {
        for leading in 1..=total {
            let mut choices: Vec<String> = Vec::new();
            for i in 0..total {
                if i < leading {
                    choices.push("lead".to_string());
                } else {
                    choices.push(format!("other{}", i));
                }
            }
            for threshold in thresholds {
                let mut consensus = Consensus::new(number(threshold));
                for (i, choice) in choices.iter().enumerate() {
                    consensus.vote(AgentId::from_u128(i as u128), choice);
                }
                let expected = leading as f64 / total as f64 >= threshold;
                assert_eq!(consensus.is_reached(), expected, "{leading} of {total} at {threshold}");
                let winner = if expected { Some("lead".to_string()) } else { None };
                assert_eq!(consensus.winner(), winner, "{leading} of {total} at {threshold}");
            }
        }
    }
}

#[test]
fn consensus_clear_removes_votes_and_keeps_threshold() {
    let mut consensus = consensus_of(0.6, &["a", "a", "b"]);
    assert!(consensus.is_reached());
    consensus.clear();
    assert!(consensus.votes().is_empty());
    assert!(!consensus.is_reached());
    assert_eq!(consensus.winner(), None);
    assert_eq!(value(consensus.threshold()), 0.6);
    consensus.vote(AgentId::from_u128(9), "c");
    assert_eq!(consensus.winner(), Some("c".to_string()));
}
