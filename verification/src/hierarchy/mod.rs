//! Hierarchical organization: levels of an organization and the delegation
//! of tasks between agents.

pub mod delegation;
pub mod level;

pub use delegation::{Delegation, DelegationView};
pub use level::{Level, LevelType, LevelView};
