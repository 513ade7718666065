//! Miscellaneous plain game types shared by the agents the planner
//! drives: model and prefab names, enemy and NPC states, and target
//! classes.

use vstd::prelude::*;

verus! {

/// The models an agent or prop may be rendered with.
#[derive(Debug, Eq, PartialEq, Hash, Structural)]
pub enum ModelNames {
    Wizard,
    Wood,
    Fire,
    FlameMonster,
    Spell,
}

/// The particle systems that can be spawned.
#[derive(Debug, Eq, PartialEq, Hash, Structural)]
pub enum ParticleType {
    Damage,
}

/// The enemy kinds.
#[derive(Debug, Eq, PartialEq, Structural)]
pub enum Enemy {
    FlameMonster,
}

/// The classes a prefab name resolves to.
#[derive(Debug, Eq, PartialEq, Structural)]
pub enum PrefabType {
    Player,
    Enemy,
    Collectible,
    Projectile,
    Scenery,
    SpawnPoint,
    SpectatorPoint,
    ParticleSystem,
    Unknown,
}

/// The prefab class a name denotes; unrecognised names are `Unknown`.
pub open spec fn prefab_of(s: Seq<char>) -> PrefabType {
    if s == "Wizard"@ {
        PrefabType::Player
    } else if s == "Swampeter"@ || s == "Alian"@ {
        PrefabType::Enemy
    } else if s == "Dreamstone"@ {
        PrefabType::Collectible
    } else if s == "Projectile"@ {
        PrefabType::Projectile
    } else if s == "Scenery"@ {
        PrefabType::Scenery
    } else if s == "SpawnPoint"@ {
        PrefabType::SpawnPoint
    } else if s == "SpectatorPoint"@ {
        PrefabType::SpectatorPoint
    } else if s == "DamageParticle"@ {
        PrefabType::ParticleSystem
    } else {
        PrefabType::Unknown
    }
}

/// Whether two strings hold the same characters.
fn str_eq(a: &str, b: &str) -> (r: bool)
    ensures
        r == (a@ == b@),
{
    let sa: String = a.to_owned();
    let sb: String = b.to_owned();
    <String as PartialEq>::eq(&sa, &sb)
}

impl PrefabType {
    /// Resolves a prefab name to its class.
    pub fn from(s: &str) -> (r: PrefabType)
        ensures
            r == prefab_of(s@),
    {
        if str_eq(s, "Wizard") {
            PrefabType::Player
        } else if str_eq(s, "Swampeter") || str_eq(s, "Alian") {
            PrefabType::Enemy
        } else if str_eq(s, "Dreamstone") {
            PrefabType::Collectible
        } else if str_eq(s, "Projectile") {
            PrefabType::Projectile
        } else if str_eq(s, "Scenery") {
            PrefabType::Scenery
        } else if str_eq(s, "SpawnPoint") {
            PrefabType::SpawnPoint
        } else if str_eq(s, "SpectatorPoint") {
            PrefabType::SpectatorPoint
        } else if str_eq(s, "DamageParticle") {
            PrefabType::ParticleSystem
        } else {
            PrefabType::Unknown
        }
    }
}

/// What an enemy is currently doing.
#[derive(Debug, Clone, PartialEq, Eq, Structural)]
pub enum EnemyState {
    Chasing,
    Patrolling,
    Idle,
    Lunging,
    Attacking,
}

impl Default for EnemyState {
    /// An enemy starts out idle.
    fn default() -> (r: EnemyState)
        ensures
            r == EnemyState::Idle,
    {
        EnemyState::Idle
    }
}

/// What an NPC is currently doing.
#[derive(Debug, Clone, PartialEq, Eq, Structural)]
pub enum NpcState {
    Patrolling,
    Attacking,
    Walking,
    Idle,
    Talking,
}

/// The classes a raycast or interaction target falls into.
#[derive(Debug, Clone, PartialEq, Eq, Structural)]
pub enum TargetType {
    Terrain,
    Enemy,
    Resource,
    Fire,
    Collectible,
}

} // verus!
