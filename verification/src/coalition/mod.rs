//! Coalitions: their members, how they form, and the strategy they follow.

pub mod coalition;
pub mod formation;
pub mod strategy;

pub use coalition::{Coalition, CoalitionView};
pub use formation::{Formation, FormationType, FormationView};
pub use strategy::{Strategy, StrategyType, StrategyView};
