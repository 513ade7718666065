//! Actions: candidate capabilities, each with a cost, a readiness
//! predicate over the hypothetical state, a predicted effect on a copy of
//! the fact store, and the real-world command its execution asks for.
//! The capability set is closed, so dispatch is a tagged enumeration.

use vstd::prelude::*;
use crate::blackboard::{bool_fact, number_fact, Blackboard, ValueModel};
use crate::world::{Command, Scratch, WorldSnapshot};

verus! {

/// Walks towards a fire already cached in the scratch store, and predicts
/// that the fire becomes located.
#[derive(Debug, Clone, Copy, PartialEq, Eq, Structural)]
pub struct SearchForFire {}

impl SearchForFire {
    pub fn new() -> Self {
        SearchForFire {  }
    }
}

/// Settles down by a fire that is near enough (or already located), and
/// predicts warmth.
#[derive(Debug, Clone, Copy, PartialEq, Eq, Structural)]
pub struct Chill {
    pub max_distance: u64,
}

impl Chill {
    pub fn new(max_distance: u64) -> (r: Self)
        ensures
            r.max_distance == max_distance,
    {
        Chill { max_distance }
    }
}

/// Heads towards a fire that an earlier step has located as a fact.
#[derive(Debug, Clone, Copy, PartialEq, Eq, Structural)]
pub struct GoTowardsFire {}

impl GoTowardsFire {
    pub fn new() -> Self {
        GoTowardsFire {  }
    }
}

/// Picks up an available axe.
#[derive(Debug, Clone, Copy, PartialEq, Eq, Structural)]
pub struct GetAxe {}

impl GetAxe {
    pub fn new() -> Self {
        GetAxe {  }
    }
}

/// Chops a log, which needs an axe in hand.
#[derive(Debug, Clone, Copy, PartialEq, Eq, Structural)]
pub struct ChopLog {}

impl ChopLog {
    pub fn new() -> Self {
        ChopLog {  }
    }
}

/// Gathers loose branches nearby, raising the firewood count by one.
#[derive(Debug, Clone, Copy, PartialEq, Eq, Structural)]
pub struct CollectBranches {}

impl CollectBranches {
    pub fn new() -> Self {
        CollectBranches {  }
    }
}

/// Walks towards a player cached in the scratch store, and predicts that
/// the player's location becomes known.
#[derive(Debug, Clone, Copy, PartialEq, Eq, Structural)]
pub struct Patrol {}

impl Patrol {
    pub fn new() -> Self {
        Patrol {  }
    }
}

/// Closes on a player that is near enough (or already located), and
/// predicts reaching them.
#[derive(Debug, Clone, Copy, PartialEq, Eq, Structural)]
pub struct Attack {
    pub max_distance: u64,
}

impl Attack {
    pub fn new(max_distance: u64) -> (r: Self)
        ensures
            r.max_distance == max_distance,
    {
        Attack { max_distance }
    }
}

/// The registered actions, as a closed set of variants.
#[derive(Debug, Clone, Copy, PartialEq, Eq, Structural)]
pub enum ActionKind {
    SearchForFire(SearchForFire),
    Chill(Chill),
    GoTowardsFire(GoTowardsFire),
    GetAxe(GetAxe),
    ChopLog(ChopLog),
    CollectBranches(CollectBranches),
    Patrol(Patrol),
    Attack(Attack),
}

/// The firewood count after gathering one more branch; the count
/// saturates rather than wrapping.
pub open spec fn bump(n: u32) -> u32 {
    if n < 0xffff_ffffu32 {
        (n + 1) as u32
    } else {
        n
    }
}

impl ActionKind {
    /// The action's declared cost. Costs are non-negative and accumulate
    /// by addition; the search extracts the minimum-cost path.
    pub open spec fn cost_spec(self) -> u64 {
        match self {
            ActionKind::SearchForFire(_) => 3,
            ActionKind::Chill(_) => 3,
            ActionKind::GoTowardsFire(_) => 2,
            ActionKind::GetAxe(_) => 2,
            ActionKind::ChopLog(_) => 4,
            ActionKind::CollectBranches(_) => 8,
            ActionKind::Patrol(_) => 1,
            ActionKind::Attack(_) => 1,
        }
    }

    /// Whether the action may be taken from the given hypothetical state.
    /// Pure over the scratch store and the fact store; never mutates
    /// either.
    pub open spec fn ready_spec(self, scratch: Scratch, bb: Map<Seq<char>, ValueModel>) -> bool {
        match self {
            ActionKind::SearchForFire(_) => scratch.fire is Some,
            ActionKind::Chill(c) => (match scratch.fire {
                Some(t) => t.distance < c.max_distance,
                None => false,
            }) || bool_fact(bb, "LocatedFire"@) == Some(true),
            ActionKind::GoTowardsFire(_) => bool_fact(bb, "LocatedFire"@) == Some(true),
            ActionKind::GetAxe(_) => bool_fact(bb, "AxeLocation"@) == Some(true)
                && bool_fact(bb, "AxeState"@) != Some(true),
            ActionKind::ChopLog(_) => bool_fact(bb, "AxeState"@) == Some(true),
            ActionKind::CollectBranches(_) => match number_fact(bb, "BranchesInViscinity"@) {
                Some(n) => n > 0,
                None => false,
            },
            ActionKind::Patrol(_) => scratch.player is Some,
            ActionKind::Attack(a) => (match scratch.player {
                Some(t) => t.distance < a.max_distance,
                None => false,
            }) || bool_fact(bb, "KnowPlayerLocation"@) == Some(true),
        }
    }

    /// The predicted fact store after taking this action from `bb`:
    /// deterministic, and a function of the hypothetical state alone.
    pub open spec fn effect_spec(
        self,
        bb: Map<Seq<char>, ValueModel>,
    ) -> Map<Seq<char>, ValueModel> {
        match self {
            ActionKind::SearchForFire(_) => bb.insert("LocatedFire"@, ValueModel::Bool(true)),
            ActionKind::Chill(_) => bb.insert("NearbyFire"@, ValueModel::Bool(true)),
            ActionKind::GoTowardsFire(_) => bb.insert(
                "HeadingTowardsFire"@,
                ValueModel::Bool(true),
            ),
            ActionKind::GetAxe(_) => bb.insert("AxeState"@, ValueModel::Bool(true)),
            ActionKind::ChopLog(_) => bb.insert("AxeState"@, ValueModel::Bool(true)),
            ActionKind::CollectBranches(_) => bb.insert(
                "FirewoodOwnership"@,
                ValueModel::Number(
                    bump(
                        match number_fact(bb, "FirewoodOwnership"@) {
                            Some(n) => n,
                            None => 0,
                        },
                    ),
                ),
            ),
            ActionKind::Patrol(_) => bb.insert("KnowPlayerLocation"@, ValueModel::Bool(true)),
            ActionKind::Attack(_) => bb.insert("NearbyPlayer"@, ValueModel::Bool(true)),
        }
    }

    /// The command the action asks for when it is the one chosen to run.
    pub open spec fn execute_spec(self, world_run_speed: u32, scratch: Scratch) -> Option<
        Command,
    > {
        match self {
            ActionKind::SearchForFire(_) => match scratch.fire {
                Some(t) => Some(
                    Command::MoveTowards { x: t.x, y: t.y, z: t.z, speed: world_run_speed },
                ),
                None => None,
            },
            ActionKind::Chill(_) => Some(Command::Stop),
            ActionKind::Patrol(_) => match scratch.player {
                Some(t) => Some(
                    Command::MoveTowards { x: t.x, y: t.y, z: t.z, speed: world_run_speed },
                ),
                None => None,
            },
            ActionKind::Attack(_) => Some(Command::Stop),
            _ => None,
        }
    }

    /// The action's name, which identifies it for diagnostics and
    /// equality.
    pub fn name(&self) -> (r: &'static str)
        ensures
            r@ == self.name_spec(),
    {
        match self {
            ActionKind::SearchForFire(_) => "SearchForFire",
            ActionKind::Chill(_) => "Chill",
            ActionKind::GoTowardsFire(_) => "GoTowardsFire",
            ActionKind::GetAxe(_) => "GetAxe",
            ActionKind::ChopLog(_) => "ChopLog",
            ActionKind::CollectBranches(_) => "CollectBranches",
            ActionKind::Patrol(_) => "Patrol",
            ActionKind::Attack(_) => "Attack",
        }
    }

    pub open spec fn name_spec(self) -> Seq<char> {
        match self {
            ActionKind::SearchForFire(_) => "SearchForFire"@,
            ActionKind::Chill(_) => "Chill"@,
            ActionKind::GoTowardsFire(_) => "GoTowardsFire"@,
            ActionKind::GetAxe(_) => "GetAxe"@,
            ActionKind::ChopLog(_) => "ChopLog"@,
            ActionKind::CollectBranches(_) => "CollectBranches"@,
            ActionKind::Patrol(_) => "Patrol"@,
            ActionKind::Attack(_) => "Attack"@,
        }
    }

    /// The declared cost of taking this action from the given state.
    pub fn cost(&self, blackboard: &Blackboard) -> (c: u64)
        ensures
            c == self.cost_spec(),
            c <= 8,
    {
        match self {
            ActionKind::SearchForFire(_) => 3,
            ActionKind::Chill(_) => 3,
            ActionKind::GoTowardsFire(_) => 2,
            ActionKind::GetAxe(_) => 2,
            ActionKind::ChopLog(_) => 4,
            ActionKind::CollectBranches(_) => 8,
            ActionKind::Patrol(_) => 1,
            ActionKind::Attack(_) => 1,
        }
    }

    /// Decides whether the action may be taken from the given
    /// hypothetical state. Consulted speculatively during search; reads
    /// the scratch store and the fact store, mutating neither.
    pub fn check_readyness(&self, scratch: &Scratch, blackboard: &Blackboard) -> (r: bool)
        ensures
            r == self.ready_spec(*scratch, blackboard@),
    {
        match self {
            ActionKind::SearchForFire(_) => scratch.fire.is_some(),
            ActionKind::Chill(c) => {
                let near = match scratch.fire {
                    Some(t) => t.distance < c.max_distance,
                    None => false,
                };
                near || blackboard.get_bool("LocatedFire") == Some(true)
            },
            ActionKind::GoTowardsFire(_) => blackboard.get_bool("LocatedFire") == Some(true),
            ActionKind::GetAxe(_) => {
                let available = blackboard.get_bool("AxeLocation") == Some(true);
                let held = blackboard.get_bool("AxeState") == Some(true);
                available && !held
            },
            ActionKind::ChopLog(_) => blackboard.get_bool("AxeState") == Some(true),
            ActionKind::CollectBranches(_) => match blackboard.get_number("BranchesInViscinity") {
                Some(n) => n > 0,
                None => false,
            },
            ActionKind::Patrol(_) => scratch.player.is_some(),
            ActionKind::Attack(a) => {
                let near = match scratch.player {
                    Some(t) => t.distance < a.max_distance,
                    None => false,
                };
                near || blackboard.get_bool("KnowPlayerLocation") == Some(true)
            },
        }
    }

    /// Applies the action's predicted effect to a copy of the fact store,
    /// to generate a successor search node.
    pub fn apply_effect(&self, blackboard: &mut Blackboard)
        ensures
            final(blackboard)@ == self.effect_spec(old(blackboard)@),
    {
        match self {
            ActionKind::SearchForFire(_) => blackboard.insert_bool("LocatedFire", true),
            ActionKind::Chill(_) => blackboard.insert_bool("NearbyFire", true),
            ActionKind::GoTowardsFire(_) => blackboard.insert_bool("HeadingTowardsFire", true),
            ActionKind::GetAxe(_) => blackboard.insert_bool("AxeState", true),
            ActionKind::ChopLog(_) => blackboard.insert_bool("AxeState", true),
            ActionKind::CollectBranches(_) => {
                let owned = match blackboard.get_number("FirewoodOwnership") {
                    Some(n) => n,
                    None => 0,
                };
                let next = if owned < 0xffff_ffffu32 {
                    owned + 1
                } else {
                    owned
                };
                blackboard.insert_number("FirewoodOwnership", next);
            },
            ActionKind::Patrol(_) => blackboard.insert_bool("KnowPlayerLocation", true),
            ActionKind::Attack(_) => blackboard.insert_bool("NearbyPlayer", true),
        }
    }

    /// The real-world side effect of the single chosen action: asks the
    /// caller to move towards a cached target or to stop. Never run
    /// during search.
    pub fn execute(&self, world: &WorldSnapshot, scratch: &Scratch) -> (r: Option<Command>)
        ensures
            r == self.execute_spec(world.run_speed, *scratch),
    {
        match self {
            ActionKind::SearchForFire(_) => match scratch.fire {
                Some(t) => Some(
                    Command::MoveTowards { x: t.x, y: t.y, z: t.z, speed: world.run_speed },
                ),
                None => None,
            },
            ActionKind::Chill(_) => Some(Command::Stop),
            ActionKind::Patrol(_) => match scratch.player {
                Some(t) => Some(
                    Command::MoveTowards { x: t.x, y: t.y, z: t.z, speed: world.run_speed },
                ),
                None => None,
            },
            ActionKind::Attack(_) => Some(Command::Stop),
            _ => None,
        }
    }
}

} // verus!
