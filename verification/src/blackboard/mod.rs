//! Blackboard coordination: shared knowledge and the sources that write it.

pub mod blackboard;
pub mod knowledge_source;

pub use blackboard::{Blackboard, BlackboardView};
pub use knowledge_source::{KnowledgeSource, KnowledgeSourceType};
