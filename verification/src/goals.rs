//! Goals: each names a target partial fact-state that a plan must reach.
//! A goal's target is re-derived fresh on every planning pass; a node is
//! goal-reached when its fact store fully equals the target.

use vstd::prelude::*;
use crate::blackboard::{Blackboard, ValueModel};

verus! {

/// Seeks warmth: satisfied when a fire is nearby.
#[derive(Debug, Clone, Copy, PartialEq, Eq, Structural)]
pub struct StayWarm {}

impl StayWarm {
    pub fn new() -> Self {
        StayWarm {  }
    }
}

/// Stockpiles firewood: satisfied at eight pieces owned.
#[derive(Debug, Clone, Copy, PartialEq, Eq, Structural)]
pub struct CollectFirewood {}

impl CollectFirewood {
    pub fn new() -> Self {
        CollectFirewood {  }
    }
}

/// Hunts the player: satisfied when the player is nearby.
#[derive(Debug, Clone, Copy, PartialEq, Eq, Structural)]
pub struct AggroCharacter {}

impl AggroCharacter {
    pub fn new() -> Self {
        AggroCharacter {  }
    }
}

/// The registered goals, as a closed set of variants.
#[derive(Debug, Clone, Copy, PartialEq, Eq, Structural)]
pub enum GoalKind {
    StayWarm(StayWarm),
    CollectFirewood(CollectFirewood),
    AggroCharacter(AggroCharacter),
}

impl GoalKind {
    /// The target fact-state this goal asks the search to reach.
    pub open spec fn target_spec(self) -> Map<Seq<char>, ValueModel> {
        match self {
            GoalKind::StayWarm(_) => Map::empty().insert("NearbyFire"@, ValueModel::Bool(true)),
            GoalKind::CollectFirewood(_) => Map::empty().insert(
                "FirewoodOwnership"@,
                ValueModel::Number(8),
            ),
            GoalKind::AggroCharacter(_) => Map::empty().insert(
                "NearbyPlayer"@,
                ValueModel::Bool(true),
            ),
        }
    }

    /// The goal's name, for diagnostics.
    pub fn name(&self) -> (r: &'static str)
        ensures
            r@ == self.name_spec(),
    {
        match self {
            GoalKind::StayWarm(_) => "StayWarm",
            GoalKind::CollectFirewood(_) => "CollectFirewood",
            GoalKind::AggroCharacter(_) => "AggroCharacter",
        }
    }

    pub open spec fn name_spec(self) -> Seq<char> {
        match self {
            GoalKind::StayWarm(_) => "StayWarm"@,
            GoalKind::CollectFirewood(_) => "CollectFirewood"@,
            GoalKind::AggroCharacter(_) => "AggroCharacter"@,
        }
    }

    /// Produces the goal's target fact-store, fresh for this pass.
    pub fn get_goal(&self) -> (g: Blackboard)
        ensures
            g@ == self.target_spec(),
    {
        let mut g = Blackboard::new();
        match self {
            GoalKind::StayWarm(_) => g.insert_bool("NearbyFire", true),
            GoalKind::CollectFirewood(_) => g.insert_number("FirewoodOwnership", 8),
            GoalKind::AggroCharacter(_) => g.insert_bool("NearbyPlayer", true),
        }
        g
    }
}

} // verus!
