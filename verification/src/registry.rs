//! The per-agent planner registry: one owned planner and scratch store
//! per (agent, goal-group) pair, created lazily on first sight of an
//! agent with the standard capability set and reused across ticks, so
//! the cached perception state inside a scratch store stays agent-local.

use vstd::prelude::*;
use crate::actions::{
    ActionKind, Attack, Chill, Patrol, SearchForFire,
};
use crate::goals::{AggroCharacter, GoalKind, StayWarm};
use crate::planner::{forced_choice, sensed_scratch, Planner};
use crate::search::path_cost;
use crate::search::{lemma_unreachable_target_no_plan, one_step_solution, plan_valid};
use crate::sensors::{SenseFire, SensePlayer, SensorKind};
use crate::world::{Command, Scratch, TargetReading, WorldSnapshot};
use crate::blackboard::{bool_fact, ValueModel};

verus! {

/// How far away a fire may be for settling down beside it, in
/// fixed-point world units (thousandths).
pub const CHILL_RANGE: u64 = 2000;

/// How close a player must be for an attack to reach, in fixed-point
/// world units.
pub const ATTACK_RANGE: u64 = 5000;

/// How far the fire sensor looks, in fixed-point world units.
pub const SENSE_FIRE_RANGE: u64 = 100000;

/// How far the player sensor looks, in fixed-point world units.
pub const SENSE_PLAYER_RANGE: u64 = 10000;

/// The standard goal set, in registration order.
pub open spec fn standard_goals() -> Seq<GoalKind> {
    seq![
        GoalKind::StayWarm((StayWarm {  })),
        GoalKind::AggroCharacter((AggroCharacter {  })),
    ]
}

/// The standard action set, in registration order.
pub open spec fn standard_actions() -> Seq<ActionKind> {
    seq![
        ActionKind::SearchForFire((SearchForFire {  })),
        ActionKind::Chill((Chill { max_distance: CHILL_RANGE })),
        ActionKind::Patrol((Patrol {  })),
        ActionKind::Attack((Attack { max_distance: ATTACK_RANGE })),
    ]
}

/// The standard sensor set, in registration order.
pub open spec fn standard_sensors() -> Seq<SensorKind> {
    seq![
        SensorKind::SenseFire((SenseFire { max_distance: SENSE_FIRE_RANGE })),
        SensorKind::SensePlayer((SensePlayer { max_distance: SENSE_PLAYER_RANGE })),
    ]
}

/// Installs the fixed goal, action, and sensor set that agents plan
/// with.
pub struct GoalRegistry {}

impl GoalRegistry {
    /// A planner loaded with the standard capability set.
    pub fn register() -> (p: Planner)
        ensures
            p.goals_spec() == standard_goals(),
            p.actions_spec() == standard_actions(),
            p.sensors_spec() == standard_sensors(),
    {
        let mut p = Planner::new();
        p.insert_goal(GoalKind::StayWarm(StayWarm::new()));
        p.insert_goal(GoalKind::AggroCharacter(AggroCharacter::new()));
        p.insert_action(ActionKind::SearchForFire(SearchForFire::new()));
        p.insert_action(ActionKind::Chill(Chill::new(CHILL_RANGE)));
        p.insert_action(ActionKind::Patrol(Patrol::new()));
        p.insert_action(ActionKind::Attack(Attack::new(ATTACK_RANGE)));
        p.insert_sensor(SensorKind::SenseFire(SenseFire::new(SENSE_FIRE_RANGE)));
        p.insert_sensor(SensorKind::SensePlayer(SensePlayer::new(SENSE_PLAYER_RANGE)));
        proof {
            assert(p.goals_spec() =~= standard_goals());
            assert(p.actions_spec() =~= standard_actions());
            assert(p.sensors_spec() =~= standard_sensors());
        }
        p
    }
}


/// Sensing is a refresh, not an accumulation: with the standard sensor
/// set, the scratch store left behind by a planning pass depends only on
/// the world's readings, never on what was cached before. Two passes
/// over an unchanged world therefore search from identical state.
pub proof fn lemma_sensing_refreshes_fully(
    fires: Seq<TargetReading>,
    players: Seq<TargetReading>,
    s1: Scratch,
    s2: Scratch,
)
    ensures
        sensed_scratch(standard_sensors(), fires, players, s1) == sensed_scratch(
            standard_sensors(),
            fires,
            players,
            s2,
        ),
{
    let ss = standard_sensors();
    let fire_sensor = SensorKind::SenseFire((SenseFire { max_distance: SENSE_FIRE_RANGE }));
    let player_sensor = SensorKind::SensePlayer(
        (SensePlayer { max_distance: SENSE_PLAYER_RANGE }),
    );
    assert(ss.drop_last() =~= seq![fire_sensor]);
    assert(ss.drop_last().drop_last() =~= Seq::<SensorKind>::empty());
    assert(ss.last() == player_sensor);
    assert(seq![fire_sensor].last() == fire_sensor);
    assert(sensed_scratch(Seq::<SensorKind>::empty(), fires, players, s1) == s1);
    assert(sensed_scratch(Seq::<SensorKind>::empty(), fires, players, s2) == s2);
    assert(sensed_scratch(seq![fire_sensor], fires, players, s1) == fire_sensor.sense_spec(
        fires,
        players,
        s1,
    ));
    assert(sensed_scratch(seq![fire_sensor], fires, players, s2) == fire_sensor.sense_spec(
        fires,
        players,
        s2,
    ));
    assert(sensed_scratch(ss, fires, players, s1) == player_sensor.sense_spec(
        fires,
        players,
        fire_sensor.sense_spec(fires, players, s1),
    ));
    assert(sensed_scratch(ss, fires, players, s2) == player_sensor.sense_spec(
        fires,
        players,
        fire_sensor.sense_spec(fires, players, s2),
    ));
}


/// The end-to-end scenario is pinned by contract: with the standard
/// capability set, a fire cached within the chill threshold and no
/// player in sight, settling down (the Chill step, at cost 3) is the
/// unique cheapest one-step plan for the warmth goal, and no action
/// path can reach the player goal at all — so a planning pass over this
/// state is bound to choose Chill.
pub proof fn lemma_standard_near_fire_forces_chill(scratch: Scratch)
    requires
        scratch.fire is Some,
        scratch.fire->0.distance < CHILL_RANGE,
        scratch.player is None,
    ensures
        forced_choice(standard_actions(), standard_goals(), scratch, 0, 1),
{
    let actions = standard_actions();
    let goals = standard_goals();
    let empty = Map::<Seq<char>, ValueModel>::empty();
    let warm = goals[0].target_spec();
    let aggro = goals[1].target_spec();
    reveal_strlit("NearbyFire");
    reveal_strlit("LocatedFire");
    reveal_strlit("NearbyPlayer");
    reveal_strlit("KnowPlayerLocation");
    assert("NearbyFire"@.len() == 10);
    assert("LocatedFire"@.len() == 11);
    assert("NearbyPlayer"@.len() == 12);
    assert("KnowPlayerLocation"@.len() == 18);

    assert(actions[1].ready_spec(scratch, empty));
    assert(actions[1].effect_spec(empty) == warm);
    assert(warm.contains_key("NearbyFire"@));
    assert(actions[0].effect_spec(empty) != warm) by {
        assert(actions[0].effect_spec(empty).contains_key("LocatedFire"@));
        assert(!warm.contains_key("LocatedFire"@));
    }
    assert forall|k: int|
        0 <= k < actions.len() && #[trigger] actions[k].ready_spec(scratch, empty)
        implies actions[k].cost_spec() >= actions[1].cost_spec() by {
        if k == 2 || k == 3 {
            assert(!actions[k].ready_spec(scratch, empty));
        }
    }
    assert(one_step_solution(actions, scratch, empty, warm, 1)) by {
        assert forall|k: int|
            0 <= k < actions.len() && k != 1 && #[trigger] actions[k].ready_spec(scratch, empty)
                && actions[k].effect_spec(empty) == warm
            implies actions[k].cost_spec() > actions[1].cost_spec() by {
            if k == 0 {
                assert(actions[0].effect_spec(empty) != warm);
            } else {
                assert(!actions[k].ready_spec(scratch, empty));
            }
        }
    }

    // no store along any action path ever records the player's location,
    // so the attack step never becomes ready and the player goal stays
    // out of reach
    let inv = (|bb: Map<Seq<char>, ValueModel>| bool_fact(bb, "KnowPlayerLocation"@) != Some(
        true,
    ));
    assert forall|bb: Map<Seq<char>, ValueModel>, k: int|
        inv(bb) && 0 <= k < actions.len() && actions[k].ready_spec(scratch, bb) implies inv(
        #[trigger] actions[k].effect_spec(bb),
    ) && actions[k].effect_spec(bb) != aggro by {
        if k == 2 || k == 3 {
            assert(!actions[k].ready_spec(scratch, bb));
        } else if k == 0 {
            assert(actions[0].effect_spec(bb).contains_key("LocatedFire"@));
            assert(!aggro.contains_key("LocatedFire"@));
        } else {
            assert(actions[1].effect_spec(bb).contains_key("NearbyFire"@));
            assert(!aggro.contains_key("NearbyFire"@));
        }
    }
    assert forall|g2: int, path: Seq<usize>|
        0 <= g2 < goals.len() && g2 != 0 && path.len() > 0 && #[trigger] plan_valid(
            actions,
            scratch,
            empty,
            path,
            goals[g2].target_spec(),
        ) implies path_cost(actions, path) > actions[1].cost_spec() by {
        assert(g2 == 1);
        assert(aggro.contains_key("NearbyPlayer"@));
        assert(empty != aggro);
        lemma_unreachable_target_no_plan(actions, scratch, empty, aggro, inv, path);
    }
    assert(warm != empty);
    assert(actions.len() <= crate::search::MAX_ITERATIONS);
}

/// One registry entry: the planner and scratch store owned by one
/// (agent, goal-group) pair.
struct RegistryEntry {
    agent: u64,
    group: u64,
    planner: Planner,
    scratch: Scratch,
}

/// Whether an entry belongs to the given (agent, goal-group) pair.
spec fn entry_matches(e: RegistryEntry, agent: u64, group: u64) -> bool {
    e.agent == agent && e.group == group
}

/// The per-agent planner registry, consulted once per tick for every
/// agent carrying a goal marker. Entries are created once and reused;
/// there is no eviction.
pub struct GoalSystem {
    planners: Vec<RegistryEntry>,
}

impl GoalSystem {
    #[verifier::type_invariant]
    spec fn wf(self) -> bool {
        forall|i: int, j: int|
            0 <= i < j < self.planners@.len() ==> !entry_matches(
                #[trigger] self.planners@[i],
                (#[trigger] self.planners@[j]).agent,
                self.planners@[j].group,
            )
    }

    /// Whether this (agent, goal-group) pair already owns a planner.
    pub closed spec fn contains_agent(&self, agent: u64, group: u64) -> bool {
        exists|i: int| 0 <= i < self.planners@.len() && entry_matches(
            #[trigger] self.planners@[i],
            agent,
            group,
        )
    }

    spec fn idx_of(&self, agent: u64, group: u64) -> int {
        choose|i: int| 0 <= i < self.planners@.len() && entry_matches(
            #[trigger] self.planners@[i],
            agent,
            group,
        )
    }

    /// The pair's cached scratch store.
    pub closed spec fn scratch_of(&self, agent: u64, group: u64) -> Scratch {
        self.planners@[self.idx_of(agent, group)].scratch
    }

    /// The pair's registered actions.
    pub closed spec fn actions_of(&self, agent: u64, group: u64) -> Seq<ActionKind> {
        self.planners@[self.idx_of(agent, group)].planner.actions_spec()
    }

    /// The pair's registered goals.
    pub closed spec fn goals_of(&self, agent: u64, group: u64) -> Seq<GoalKind> {
        self.planners@[self.idx_of(agent, group)].planner.goals_spec()
    }

    /// The pair's registered sensors.
    pub closed spec fn sensors_of(&self, agent: u64, group: u64) -> Seq<SensorKind> {
        self.planners@[self.idx_of(agent, group)].planner.sensors_spec()
    }

    /// An empty registry.
    pub fn new() -> (r: Self)
        ensures
            forall|a: u64, g: u64| !r.contains_agent(a, g),
    {
        GoalSystem { planners: Vec::new() }
    }

    /// With unique keys, any matching index is the chosen one.
    proof fn lemma_idx(&self, agent: u64, group: u64, i: int)
        requires
            self.wf(),
            0 <= i < self.planners@.len(),
            entry_matches(self.planners@[i], agent, group),
        ensures
            self.contains_agent(agent, group),
            self.idx_of(agent, group) == i,
    {
        assert(self.contains_agent(agent, group));
        let j = self.idx_of(agent, group);
        if i < j {
            assert(!entry_matches(self.planners@[i], self.planners@[j].agent,
                self.planners@[j].group));
        } else if j < i {
            assert(!entry_matches(self.planners@[j], self.planners@[i].agent,
                self.planners@[i].group));
        }
    }

    /// Looks up this pair's planner, creating it with the standard
    /// capability set on first sight, and runs one planning pass with
    /// the pair's own scratch store. Every other entry is left exactly
    /// as it was, and the pass is bound to return the forced action
    /// whenever one registered goal has a unique cheapest one-step plan
    /// that no other goal's plan can undercut.
    pub fn run(&mut self, agent: u64, group: u64, world: &WorldSnapshot) -> (r: Option<
        (usize, Option<Command>),
    >)
        ensures
            final(self).contains_agent(agent, group),
            final(self).actions_of(agent, group) == if old(self).contains_agent(agent, group) {
                old(self).actions_of(agent, group)
            } else {
                standard_actions()
            },
            final(self).goals_of(agent, group) == if old(self).contains_agent(agent, group) {
                old(self).goals_of(agent, group)
            } else {
                standard_goals()
            },
            final(self).sensors_of(agent, group) == if old(self).contains_agent(agent, group) {
                old(self).sensors_of(agent, group)
            } else {
                standard_sensors()
            },
            final(self).scratch_of(agent, group) == sensed_scratch(
                final(self).sensors_of(agent, group),
                world.fires@,
                world.players@,
                if old(self).contains_agent(agent, group) {
                    old(self).scratch_of(agent, group)
                } else {
                    (Scratch { fire: None, player: None })
                },
            ),
            forall|a: u64, g: u64|
                !(a == agent && g == group) ==> (final(self).contains_agent(a, g)
                    <==> old(self).contains_agent(a, g)) && (old(self).contains_agent(a, g)
                    ==> final(self).scratch_of(a, g) == old(self).scratch_of(a, g)
                        && final(self).actions_of(a, g) == old(self).actions_of(a, g)
                        && final(self).goals_of(a, g) == old(self).goals_of(a, g)
                        && final(self).sensors_of(a, g) == old(self).sensors_of(a, g)),
            forall|g: int, i: usize|
                #[trigger] forced_choice(
                    final(self).actions_of(agent, group),
                    final(self).goals_of(agent, group),
                    final(self).scratch_of(agent, group),
                    g,
                    i,
                ) ==> r == Some(
                    (
                        i,
                        final(self).actions_of(agent, group)[i as int].execute_spec(
                            world.run_speed,
                            final(self).scratch_of(agent, group),
                        ),
                    ),
                ),
            match r {
                Some(ac) => (ac.0 as int) < final(self).actions_of(agent, group).len()
                    && exists|gl: int, path: Seq<usize>|
                    0 <= gl < final(self).goals_of(agent, group).len() && #[trigger] plan_valid(
                        final(self).actions_of(agent, group),
                        final(self).scratch_of(agent, group),
                        Map::<Seq<char>, ValueModel>::empty(),
                        path,
                        final(self).goals_of(agent, group)[gl].target_spec(),
                    ) && path.len() > 0 && path[0] == ac.0,
                None => true,
            },
    {
        proof {
            use_type_invariant(&*self);
        }
        let ghost s0 = self.planners@;
        let n = self.planners.len();
        let mut i: usize = 0;
        let mut found: Option<usize> = None;
        while i < n && found.is_none()
            invariant
                i <= n,
                n == self.planners@.len(),
                self.planners@ == s0,
                match found {
                    Some(fi) => fi < n && entry_matches(s0[fi as int], agent, group),
                    None => forall|j: int| 0 <= j < i ==> !entry_matches(
                        #[trigger] s0[j],
                        agent,
                        group,
                    ),
                },
            decreases n - i, (if found is Some { 0int } else { 1int }),
        {
            let e = &self.planners[i];
            if e.agent == agent && e.group == group {
                found = Some(i);
            } else {
                i += 1;
            }
        }

        let mut entry = match found {
            Some(fi) => {
                proof {
                    self.lemma_idx(agent, group, fi as int);
                }
                let mut v: Vec<RegistryEntry> = Vec::new();
                core::mem::swap(&mut v, &mut self.planners);
                let e = v.remove(fi);
                proof {
                    assert(forall|x: int| 0 <= x < v@.len() ==> v@[x] == (if x < fi {
                        s0[x]
                    } else {
                        s0[x + 1]
                    }));
                }
                self.planners = v;
                e
            },
            None => {
                proof {
                    if self.contains_agent(agent, group) {
                        let w = choose|w: int|
                            0 <= w < self.planners@.len() && entry_matches(
                                #[trigger] self.planners@[w],
                                agent,
                                group,
                            );
                        assert(!entry_matches(s0[w], agent, group));
                    }
                }
                RegistryEntry {
                    agent,
                    group,
                    planner: GoalRegistry::register(),
                    scratch: Scratch::new(),
                }
            },
        };
        let ghost mid = self.planners@;
        let ghost had = found is Some;
        let r = entry.planner.plan(world, &mut entry.scratch);
        let ghost ep = entry.planner;
        let ghost esc = entry.scratch;
        entry.agent = agent;
        entry.group = group;
        let mut v: Vec<RegistryEntry> = Vec::new();
        core::mem::swap(&mut v, &mut self.planners);
        proof {
            assert(forall|j: int| 0 <= j < mid.len() ==> !entry_matches(
                #[trigger] mid[j],
                agent,
                group,
            ));
        }
        v.push(entry);
        self.planners = v;
        proof {
            let fin = self.planners@;
            let last = fin.len() - 1;
            assert(entry_matches(fin[last], agent, group));
            self.lemma_idx(agent, group, last);
            assert forall|a: u64, g: u64|
                !(a == agent && g == group) && old(self).contains_agent(a, g)
                implies final(self).contains_agent(a, g) && final(self).scratch_of(a, g)
                == old(self).scratch_of(a, g) && final(self).actions_of(a, g) == old(
                self,
            ).actions_of(a, g) && final(self).goals_of(a, g) == old(self).goals_of(a, g)
                && final(self).sensors_of(a, g) == old(self).sensors_of(a, g) by {
                let oi = old(self).idx_of(a, g);
                let ni: int = if had && oi > old(self).idx_of(agent, group) {
                    oi - 1
                } else {
                    oi
                };
                assert(fin[ni] == s0[oi]);
                old(self).lemma_idx(a, g, oi);
                self.lemma_idx(a, g, ni);
            }
            assert forall|a: u64, g: u64|
                !(a == agent && g == group) && final(self).contains_agent(a, g)
                implies old(self).contains_agent(a, g) by {
                let ni = final(self).idx_of(a, g);
                assert(ni < fin.len() - 1);
                let oi: int = if had && ni >= old(self).idx_of(agent, group) {
                    ni + 1
                } else {
                    ni
                };
                assert(s0[oi] == fin[ni]);
                old(self).lemma_idx(a, g, oi);
            }
            assert forall|g: int, i: usize|
                #[trigger] forced_choice(
                    final(self).actions_of(agent, group),
                    final(self).goals_of(agent, group),
                    final(self).scratch_of(agent, group),
                    g,
                    i,
                ) implies r == Some(
                (
                    i,
                    final(self).actions_of(agent, group)[i as int].execute_spec(
                        world.run_speed,
                        final(self).scratch_of(agent, group),
                    ),
                ),
            ) by {
                assert(final(self).actions_of(agent, group) == ep.actions_spec());
                assert(final(self).goals_of(agent, group) == ep.goals_spec());
                assert(final(self).scratch_of(agent, group) == esc);
                assert(forced_choice(ep.actions_spec(), ep.goals_spec(), esc, g, i));
            }
            if r is Some {
                let ac = r->0;
                let (gl, path) = choose|gl: int, path: Seq<usize>|
                    0 <= gl < ep.goals_spec().len() && #[trigger] plan_valid(
                        ep.actions_spec(),
                        esc,
                        Map::<Seq<char>, ValueModel>::empty(),
                        path,
                        ep.goals_spec()[gl].target_spec(),
                    ) && path.len() > 0 && path[0] == ac.0;
                assert(plan_valid(
                    final(self).actions_of(agent, group),
                    final(self).scratch_of(agent, group),
                    Map::<Seq<char>, ValueModel>::empty(),
                    path,
                    final(self).goals_of(agent, group)[gl].target_spec(),
                ));
            }
        }
        r
    }
}

} // verus!
