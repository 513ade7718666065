//! Sensors: read-only perception steps that refresh the agent's scratch
//! store (and may write derived facts) before any search begins. A sensor
//! that finds no qualifying perception clears its stale cache entry.

use vstd::prelude::*;
use crate::blackboard::Blackboard;
use crate::world::{nearest, nearest_spec, Scratch, TargetReading, WorldSnapshot};

verus! {

/// Caches the nearest fire within `max_distance` into the scratch store,
/// clearing the cache when none qualifies.
#[derive(Debug, Clone, Copy, PartialEq, Eq, Structural)]
pub struct SenseFire {
    pub max_distance: u64,
}

impl SenseFire {
    pub fn new(max_distance: u64) -> (r: Self)
        ensures
            r.max_distance == max_distance,
    {
        SenseFire { max_distance }
    }
}

/// Caches the nearest player within `max_distance` into the scratch
/// store, clearing the cache when none qualifies.
#[derive(Debug, Clone, Copy, PartialEq, Eq, Structural)]
pub struct SensePlayer {
    pub max_distance: u64,
}

impl SensePlayer {
    pub fn new(max_distance: u64) -> (r: Self)
        ensures
            r.max_distance == max_distance,
    {
        SensePlayer { max_distance }
    }
}

/// The nearest reading if it lies strictly within `max_distance`.
pub open spec fn qualifying(s: Seq<TargetReading>, max_distance: u64) -> Option<TargetReading> {
    match nearest_spec(s) {
        Some(t) => if t.distance < max_distance {
            Some(t)
        } else {
            None
        },
        None => None,
    }
}

/// The registered sensors, as a closed set of variants.
#[derive(Debug, Clone, Copy, PartialEq, Eq, Structural)]
pub enum SensorKind {
    SenseFire(SenseFire),
    SensePlayer(SensePlayer),
}

impl SensorKind {
    /// The scratch store this sensor leaves behind, given the world's
    /// readings and the scratch store it found.
    pub open spec fn sense_spec(
        self,
        fires: Seq<TargetReading>,
        players: Seq<TargetReading>,
        scratch: Scratch,
    ) -> Scratch {
        match self {
            SensorKind::SenseFire(s) => Scratch {
                fire: qualifying(fires, s.max_distance),
                ..scratch
            },
            SensorKind::SensePlayer(s) => Scratch {
                player: qualifying(players, s.max_distance),
                ..scratch
            },
        }
    }

    /// The sensor's name, for diagnostics.
    pub fn name(&self) -> (r: &'static str)
        ensures
            r@ == self.name_spec(),
    {
        match self {
            SensorKind::SenseFire(_) => "SenseFire",
            SensorKind::SensePlayer(_) => "SensePlayer",
        }
    }

    pub open spec fn name_spec(self) -> Seq<char> {
        match self {
            SensorKind::SenseFire(_) => "SenseFire"@,
            SensorKind::SensePlayer(_) => "SensePlayer"@,
        }
    }

    /// Perceives the world: refreshes this sensor's cache entry in the
    /// scratch store and leaves every fact and other cache entry alone.
    /// Never touches the world itself.
    pub fn sense(
        &self,
        world: &WorldSnapshot,
        scratch: &mut Scratch,
        blackboard: &mut Blackboard,
    )
        ensures
            *final(scratch) == self.sense_spec(world.fires@, world.players@, *old(scratch)),
            final(blackboard)@ == old(blackboard)@,
    {
        match self {
            SensorKind::SenseFire(s) => {
                let found = nearest(&world.fires);
                scratch.fire = match found {
                    Some(t) => if t.distance < s.max_distance {
                        Some(t)
                    } else {
                        None
                    },
                    None => None,
                };
            },
            SensorKind::SensePlayer(s) => {
                let found = nearest(&world.players);
                scratch.player = match found {
                    Some(t) => if t.distance < s.max_distance {
                        Some(t)
                    } else {
                        None
                    },
                    None => None,
                };
            },
        }
    }
}

} // verus!
