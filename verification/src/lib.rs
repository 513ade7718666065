//! A goal-oriented action planning (GOAP) engine: a typed fact store
//! (blackboard), capability definitions (sensors, actions, goals), and a
//! bounded best-first planner that picks at most one action per pass.

pub mod actions;
pub mod animations;
pub mod blackboard;
pub mod game_types;
pub mod inventory;
pub mod goals;
pub mod planner;
pub mod registry;
mod queue;
pub mod search;
pub mod sensors;
pub mod world;

pub use animations::{AttackType, AttackTypeTransition};
pub use actions::{ActionKind, Attack, Chill, ChopLog, CollectBranches, GetAxe, GoTowardsFire, Patrol, SearchForFire};
pub use game_types::{prefab_of, Enemy, EnemyState, ModelNames, NpcState, ParticleType, PrefabType, TargetType};
pub use blackboard::{Blackboard, Value, ValueModel};
pub use goals::{AggroCharacter, CollectFirewood, GoalKind, StayWarm};
pub use inventory::InventoryComponent;
pub use registry::{GoalRegistry, GoalSystem};
pub use planner::{forced_choice, lemma_forced_choice_unique, sensed_scratch, Planner};
pub use search::{one_step_solution, path_cost, path_end, path_ok, plan_valid, put, search_goal, PlanNode, MAX_ITERATIONS};
pub use sensors::{SenseFire, SensePlayer, SensorKind};
pub use world::{Command, Scratch, TargetReading, WorldSnapshot};
