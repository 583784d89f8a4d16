//! The types of the library, for import in one line.

pub use crate::agent::AgentId;
pub use crate::agent_map::AgentMap;
pub use crate::binary64::Binary64;
pub use crate::blackboard::{Blackboard, KnowledgeSource, KnowledgeSourceType};
pub use crate::coalition::{Coalition, Formation, FormationType, Strategy, StrategyType};
pub use crate::hierarchy::{Delegation, Level, LevelType};
pub use crate::holarchy::{Holon, HolonType};
pub use crate::market::{Allocation, Auction, AuctionType, Bid, Market};
pub use crate::swarm::{Behavior, BehaviorType, Consensus, Flocking, Foraging, Swarm};
pub use crate::team::{Coordination, Role, RoleType, Team};
