//! Holarchies: holons, units that are wholes of their own and parts of a
//! larger whole.

pub mod holon;

pub use holon::{Holon, HolonType, HolonView};
