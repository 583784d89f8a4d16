//! Data structures for multi-agent coordination patterns: markets and
//! auctions, swarms and consensus, coalitions, teams, hierarchies, holons and
//! blackboards.
//!
//! Every operation is stated over a mathematical model of the structure it
//! works on and proved against that statement.

pub mod agent;
pub mod agent_map;
pub mod binary64;
pub mod blackboard;
pub mod coalition;
pub mod hierarchy;
pub mod holarchy;
pub mod keyed;
pub mod market;
pub mod prelude;
pub mod share;
pub mod swarm;
pub mod team;
pub mod text;
