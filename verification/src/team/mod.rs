//! Team-based collaboration: roles, coordination and teams.

pub mod coordination;
pub mod role;
pub mod team;

pub use coordination::{Coordination, CoordinationView};
pub use role::{Role, RoleType, RoleView};
pub use team::{Team, TeamView};
