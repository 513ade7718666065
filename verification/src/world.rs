//! Plain-value models of what the planner reads and writes of the live
//! world: sensed target readings, the agent-local scratch store, the
//! per-pass world snapshot, and the command a chosen action asks for.

use vstd::prelude::*;

verus! {

/// One sensed entity of interest: its position and its distance from the
/// agent, in fixed-point world units.
#[derive(Debug, Clone, Copy, PartialEq, Eq, Structural)]
pub struct TargetReading {
    pub x: i64,
    pub y: i64,
    pub z: i64,
    pub distance: u64,
}

/// The agent-owned scratch store: cached perception results too rich for
/// a single fact — the nearest fire and the nearest player, when one was
/// sensed within range. Refreshed by the sensors on every planning pass.
#[derive(Debug, Clone, Copy, PartialEq, Eq, Structural)]
pub struct Scratch {
    pub fire: Option<TargetReading>,
    pub player: Option<TargetReading>,
}

impl Scratch {
    /// An empty scratch store: nothing cached yet.
    pub fn new() -> (r: Scratch)
        ensures
            r.fire is None,
            r.player is None,
    {
        Scratch { fire: None, player: None }
    }
}

/// What one planning pass reads of the live world: the readings of every
/// candidate fire and player, and the agent's run speed for movement
/// commands. Fixed for the whole pass.
#[derive(Debug)]
pub struct WorldSnapshot {
    pub fires: Vec<TargetReading>,
    pub players: Vec<TargetReading>,
    pub run_speed: u32,
}

/// The real-world side effect that the single chosen action asks its
/// caller to perform.
#[derive(Debug, Clone, Copy, PartialEq, Eq, Structural)]
pub enum Command {
    /// Move the agent towards the given position at the given speed.
    MoveTowards { x: i64, y: i64, z: i64, speed: u32 },
    /// Zero the agent's velocity.
    Stop,
}

/// The reading with the least distance, earliest reading winning ties;
/// `None` exactly when there are no readings.
pub open spec fn nearest_spec(s: Seq<TargetReading>) -> Option<TargetReading>
    decreases s.len(),
{
    if s.len() == 0 {
        None
    } else {
        match nearest_spec(s.drop_last()) {
            None => Some(s.last()),
            Some(t) => if s.last().distance < t.distance {
                Some(s.last())
            } else {
                Some(t)
            },
        }
    }
}

/// Finds the nearest reading, if any.
pub fn nearest(readings: &Vec<TargetReading>) -> (r: Option<TargetReading>)
    ensures
        r == nearest_spec(readings@),
{
    let n = readings.len();
    let mut best: Option<TargetReading> = None;
    let mut i: usize = 0;
    while i < n
        invariant
            i <= n,
            n == readings@.len(),
            best == nearest_spec(readings@.subrange(0, i as int)),
        decreases n - i,
    {
        let t = readings[i];
        proof {
            assert(readings@.subrange(0, i + 1).drop_last() =~= readings@.subrange(0, i as int));
            assert(readings@.subrange(0, i + 1).last() == readings@[i as int]);
        }
        best = match best {
            None => Some(t),
            Some(b) => if t.distance < b.distance {
                Some(t)
            } else {
                Some(b)
            },
        };
        i += 1;
    }
    proof {
        assert(readings@.subrange(0, n as int) =~= readings@);
    }
    best
}

} // verus!
