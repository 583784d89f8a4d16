//! Levels of an organization, ordered by rank.

use vstd::prelude::*;

verus! {

/// The kind of an organizational level.
#[derive(Clone, Copy, Debug, PartialEq, Eq, Structural)]
pub enum LevelType {
    /// Sets the goals.
    Strategic,
    /// Plans how the goals are met.
    Tactical,
    /// Carries the plans out.
    Operational,
}

/// A level of an organization. A level with a greater rank stands above one
/// with a smaller rank.
#[derive(Clone, Debug, PartialEq)]
pub struct Level {
    name: String,
    level_type: LevelType,
    rank: u32,
}

/// What a level holds.
pub struct LevelView {
    pub name: Seq<char>,
    pub level_type: LevelType,
    pub rank: u32,
}

impl View for Level {
    type V = LevelView;

    closed spec fn view(&self) -> LevelView {
        LevelView { name: self.name@, level_type: self.level_type, rank: self.rank }
    }
}

impl Level {
    /// The level with the given name, kind and rank.
    pub fn new(name: &str, level_type: LevelType, rank: u32) -> (level: Level)
        ensures
            level@ == (LevelView { name: name@, level_type, rank }),
    {
        Level { name: name.to_owned(), level_type, rank }
    }

    /// The name of the level.
    pub fn name(&self) -> (name: &str)
        ensures
            name@ == self@.name,
    {
        self.name.as_str()
    }

    /// The kind of the level.
    pub fn level_type(&self) -> (level_type: LevelType)
        ensures
            level_type == self@.level_type,
    {
        self.level_type
    }

    /// The rank of the level.
    pub fn rank(&self) -> (rank: u32)
        ensures
            rank == self@.rank,
    {
        self.rank
    }

    /// Tells whether this level stands above `other`: whether its rank is
    /// the greater one.
    pub fn is_above(&self, other: &Level) -> (above: bool)
        ensures
            above == (self@.rank > other@.rank),
    {
        self.rank > other.rank
    }
}

} // verus!
