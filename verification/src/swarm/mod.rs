//! Swarm coordination: swarms, their behaviors, and consensus by vote.

pub mod behavior;
pub mod consensus;
pub mod flocking;
pub mod foraging;
pub mod swarm;

pub use behavior::{Behavior, BehaviorType, BehaviorView};
pub use consensus::{Consensus, ConsensusView};
pub use flocking::{Flocking, FlockingView};
pub use foraging::{Foraging, ForagingView};
pub use swarm::{Swarm, SwarmView};
