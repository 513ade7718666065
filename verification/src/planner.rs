//! The planner: owns the registered goal, action, and sensor sets, and
//! runs one full pass per call — sense, search each goal independently
//! from the same sensed snapshot, then execute only the first action of
//! the cheapest reconstructed path.

use vstd::prelude::*;
use crate::actions::ActionKind;
use crate::blackboard::{Blackboard, ValueModel};
use crate::goals::GoalKind;
use crate::search::{lemma_one_step_solution_unique, one_step_solution, path_cost, path_end, path_ok, plan_valid, search_goal, MAX_ITERATIONS};
use crate::sensors::SensorKind;
use crate::world::{Command, Scratch, TargetReading, WorldSnapshot};

verus! {

/// The scratch store left behind by running the sensors in registration
/// order, each refreshing its own cache entry.
pub open spec fn sensed_scratch(
    sensors: Seq<SensorKind>,
    fires: Seq<TargetReading>,
    players: Seq<TargetReading>,
    s0: Scratch,
) -> Scratch
    decreases sensors.len(),
{
    if sensors.len() == 0 {
        s0
    } else {
        sensors.last().sense_spec(fires, players, sensed_scratch(
            sensors.drop_last(),
            fires,
            players,
            s0,
        ))
    }
}

/// The planning pass is bound to pick action `i` for goal `g`: that
/// goal's target is non-trivial and has exactly one cheapest ready
/// single step, `i`; the action set fits the search budget; and every
/// non-empty valid plan for any other registered goal costs strictly
/// more, so no other goal can outbid it.
pub open spec fn forced_choice(
    actions: Seq<ActionKind>,
    goals: Seq<GoalKind>,
    scratch: Scratch,
    g: int,
    i: usize,
) -> bool {
    &&& 0 <= g < goals.len()
    &&& goals[g].target_spec() != Map::<Seq<char>, ValueModel>::empty()
    &&& actions.len() <= MAX_ITERATIONS
    &&& one_step_solution(
        actions,
        scratch,
        Map::<Seq<char>, ValueModel>::empty(),
        goals[g].target_spec(),
        i,
    )
    &&& forall|g2: int, path: Seq<usize>|
        0 <= g2 < goals.len() && g2 != g && path.len() > 0 && #[trigger] plan_valid(
            actions,
            scratch,
            Map::<Seq<char>, ValueModel>::empty(),
            path,
            goals[g2].target_spec(),
        ) ==> path_cost(actions, path) > actions[i as int].cost_spec()
}


/// A single ready step is a valid one-step plan to its own effect.
proof fn lemma_single_step_plan(
    actions: Seq<ActionKind>,
    scratch: Scratch,
    bb: Map<Seq<char>, ValueModel>,
    i: usize,
)
    requires
        (i as int) < actions.len(),
        actions[i as int].ready_spec(scratch, bb),
    ensures
        plan_valid(actions, scratch, bb, seq![i], actions[i as int].effect_spec(bb)),
        path_cost(actions, seq![i]) == actions[i as int].cost_spec(),
{
    let p = seq![i];
    assert(p.len() == 1);
    assert(p[0] == i);
    let next = actions[i as int].effect_spec(bb);
    assert(p.drop_first() =~= Seq::<usize>::empty());
    assert(path_ok(actions, scratch, next, p.drop_first()));
    assert(path_end(actions, next, p.drop_first()) == next);
    assert(path_cost(actions, p.drop_first()) == 0);
}

/// A forced choice is unique even across goals, so two planning passes
/// over unchanged state pick the same action wherever the contract pins
/// the pass at all.
pub proof fn lemma_forced_choice_unique(
    actions: Seq<ActionKind>,
    goals: Seq<GoalKind>,
    scratch: Scratch,
    g1: int,
    i1: usize,
    g2: int,
    i2: usize,
)
    requires
        forced_choice(actions, goals, scratch, g1, i1),
        forced_choice(actions, goals, scratch, g2, i2),
    ensures
        i1 == i2,
{
    let empty = Map::<Seq<char>, ValueModel>::empty();
    if g1 == g2 {
        lemma_one_step_solution_unique(
            actions,
            scratch,
            empty,
            goals[g1].target_spec(),
            i1,
            i2,
        );
    } else {
        // each goal's own one-step plan undercuts the other's rival
        // condition, which is impossible both ways at once
        lemma_single_step_plan(actions, scratch, empty, i2);
        assert(plan_valid(actions, scratch, empty, seq![i2], goals[g2].target_spec()));
        assert(actions[i2 as int].cost_spec() > actions[i1 as int].cost_spec());
        lemma_single_step_plan(actions, scratch, empty, i1);
        assert(plan_valid(actions, scratch, empty, seq![i1], goals[g1].target_spec()));
        assert(actions[i1 as int].cost_spec() > actions[i2 as int].cost_spec());
    }
}

/// A planner instance: one fixed, ordered collection of capabilities,
/// owned by a single agent. Registration order is insertion order and is
/// the order actions are offered at each expansion step.
#[derive(Debug)]
pub struct Planner {
    actions: Vec<ActionKind>,
    goals: Vec<GoalKind>,
    sensors: Vec<SensorKind>,
}

impl Planner {
    /// The registered actions, in registration order.
    pub closed spec fn actions_spec(&self) -> Seq<ActionKind> {
        self.actions@
    }

    /// The registered goals, in registration order.
    pub closed spec fn goals_spec(&self) -> Seq<GoalKind> {
        self.goals@
    }

    /// The registered sensors, in registration order.
    pub closed spec fn sensors_spec(&self) -> Seq<SensorKind> {
        self.sensors@
    }

    /// A planner with no capabilities registered yet.
    pub fn new() -> (r: Self)
        ensures
            r.actions_spec() == Seq::<ActionKind>::empty(),
            r.goals_spec() == Seq::<GoalKind>::empty(),
            r.sensors_spec() == Seq::<SensorKind>::empty(),
    {
        Planner { actions: Vec::new(), goals: Vec::new(), sensors: Vec::new() }
    }

    /// Registers an action; it will be offered after all earlier ones.
    pub fn insert_action(&mut self, action: ActionKind)
        ensures
            final(self).actions_spec() == old(self).actions_spec().push(action),
            final(self).goals_spec() == old(self).goals_spec(),
            final(self).sensors_spec() == old(self).sensors_spec(),
    {
        self.actions.push(action);
    }

    /// Registers a goal; goals are attempted in registration order.
    pub fn insert_goal(&mut self, goal: GoalKind)
        ensures
            final(self).goals_spec() == old(self).goals_spec().push(goal),
            final(self).actions_spec() == old(self).actions_spec(),
            final(self).sensors_spec() == old(self).sensors_spec(),
    {
        self.goals.push(goal);
    }

    /// Registers a sensor; sensors run in registration order.
    pub fn insert_sensor(&mut self, sensor: SensorKind)
        ensures
            final(self).sensors_spec() == old(self).sensors_spec().push(sensor),
            final(self).actions_spec() == old(self).actions_spec(),
            final(self).goals_spec() == old(self).goals_spec(),
    {
        self.sensors.push(sensor);
    }

    /// One full planning pass: runs every sensor once, searches each goal
    /// independently from the same sensed snapshot, keeps the cheapest
    /// non-empty reconstructed path (earlier goals win ties), and asks
    /// for the execution of only that path's first action. Returns the
    /// chosen action's index and the command its execution produced, or
    /// `None` when no goal yielded a non-empty plan — the agent then
    /// holds its prior state. Whenever one registered goal has a unique
    /// cheapest one-step plan that no other goal's plan can undercut,
    /// the pass is bound to execute exactly that step.
    pub fn plan(&self, world: &WorldSnapshot, scratch: &mut Scratch) -> (r: Option<
        (usize, Option<Command>),
    >)
        ensures
            *final(scratch) == sensed_scratch(
                self.sensors_spec(),
                world.fires@,
                world.players@,
                *old(scratch),
            ),
            match r {
                Some(ac) => (ac.0 as int) < self.actions_spec().len() && ac.1
                    == self.actions_spec()[ac.0 as int].execute_spec(
                    world.run_speed,
                    *final(scratch),
                ) && exists|g: int, path: Seq<usize>|
                    0 <= g < self.goals_spec().len() && #[trigger] plan_valid(
                        self.actions_spec(),
                        *final(scratch),
                        Map::<Seq<char>, ValueModel>::empty(),
                        path,
                        self.goals_spec()[g].target_spec(),
                    ) && path.len() > 0 && path[0] == ac.0,
                None => true,
            },
            forall|g: int, i: usize|
                #[trigger] forced_choice(
                    self.actions_spec(),
                    self.goals_spec(),
                    *final(scratch),
                    g,
                    i,
                ) ==> r == Some(
                    (
                        i,
                        self.actions_spec()[i as int].execute_spec(
                            world.run_speed,
                            *final(scratch),
                        ),
                    ),
                ),
    {
        let mut blackboard = Blackboard::new();

        let ns = self.sensors.len();
        let mut si: usize = 0;
        while si < ns
            invariant
                si <= ns,
                ns == self.sensors@.len(),
                *scratch == sensed_scratch(
                    self.sensors@.subrange(0, si as int),
                    world.fires@,
                    world.players@,
                    *old(scratch),
                ),
                blackboard@ == Map::<Seq<char>, ValueModel>::empty(),
            decreases ns - si,
        {
            proof {
                assert(self.sensors@.subrange(0, si + 1).drop_last() =~= self.sensors@.subrange(
                    0,
                    si as int,
                ));
                assert(self.sensors@.subrange(0, si + 1).last() == self.sensors@[si as int]);
            }
            let sensor = &self.sensors[si];
            sensor.sense(world, scratch, &mut blackboard);
            si += 1;
        }
        proof {
            assert(self.sensors@.subrange(0, ns as int) =~= self.sensors@);
        }

        let ghost sensed = *scratch;
        let ghost empty_map = Map::<Seq<char>, ValueModel>::empty();

        let mut best: Option<(usize, u64)> = None;
        let gn = self.goals.len();
        let mut gi: usize = 0;
        while gi < gn
            invariant
                gi <= gn,
                gn == self.goals@.len(),
                *scratch == sensed,
                blackboard@ == empty_map,
                empty_map == Map::<Seq<char>, ValueModel>::empty(),
                match best {
                    Some(bc) => (bc.0 as int) < self.actions@.len() && exists|
                        g: int,
                        path: Seq<usize>,
                    |
                        0 <= g < gi && #[trigger] plan_valid(
                            self.actions@,
                            sensed,
                            empty_map,
                            path,
                            self.goals@[g].target_spec(),
                        ) && path.len() > 0 && path[0] == bc.0 && path_cost(self.actions@, path)
                            == bc.1,
                    None => true,
                },
                forall|g: int, i: usize|
                    #[trigger] forced_choice(self.actions@, self.goals@, sensed, g, i) ==> {
                        if gi <= g {
                            match best {
                                Some(bc) => bc.1 > self.actions@[i as int].cost_spec(),
                                None => true,
                            }
                        } else {
                            best == Some((i, self.actions@[i as int].cost_spec()))
                        }
                    },
            decreases gn - gi,
        {
            let goal_board = self.goals[gi].get_goal();
            let found = search_goal(&self.actions, scratch, &blackboard, &goal_board);
            let ghost best0 = best;
            match found {
                Some((path, cost)) => {
                    if path.len() > 0 {
                        let a0 = path[0];
                        proof {
                            assert(plan_valid(
                                self.actions@,
                                sensed,
                                empty_map,
                                path@,
                                self.goals@[gi as int].target_spec(),
                            ));
                        }
                        best = match best {
                            Some((ba, bc)) => if cost < bc {
                                Some((a0, cost))
                            } else {
                                Some((ba, bc))
                            },
                            None => Some((a0, cost)),
                        };
                    }
                },
                None => {},
            }
            proof {
                assert forall|g: int, i: usize|
                    #[trigger] forced_choice(self.actions@, self.goals@, sensed, g, i) implies {
                    if gi + 1 <= g {
                        match best {
                            Some(bc) => bc.1 > self.actions@[i as int].cost_spec(),
                            None => true,
                        }
                    } else {
                        best == Some((i, self.actions@[i as int].cost_spec()))
                    }
                } by {
                    let ci = self.actions@[i as int].cost_spec();
                    if gi as int == g {
                        // this goal's search was bound to return exactly [i]
                        assert(one_step_solution(
                            self.actions@,
                            sensed,
                            empty_map,
                            self.goals@[g].target_spec(),
                            i,
                        ));
                        match found {
                            Some(pc) => {
                                assert(pc.0@ == seq![i] && pc.1 == ci);
                                match best0 {
                                    Some(bc) => {
                                        assert(bc.1 > ci);
                                        assert(best == Some((i, ci)));
                                    },
                                    None => {
                                        assert(best == Some((i, ci)));
                                    },
                                }
                            },
                            None => {
                                assert(false);
                            },
                        }
                    } else {
                        // another goal's search: any non-empty result it
                        // produced is a valid plan for that goal, and so
                        // costs more than the forced step
                        match found {
                            Some(pc) => {
                                if pc.0@.len() > 0 {
                                    assert(plan_valid(
                                        self.actions@,
                                        sensed,
                                        empty_map,
                                        pc.0@,
                                        self.goals@[gi as int].target_spec(),
                                    ));
                                    assert(path_cost(self.actions@, pc.0@) > ci);
                                }
                            },
                            None => {},
                        }
                    }
                }
            }
            gi += 1;
        }

        match best {
            Some((a, _)) => {
                proof {
                    let bc = best->0;
                    let (g, path) = choose|g: int, path: Seq<usize>|
                        0 <= g < gi && #[trigger] plan_valid(
                            self.actions@,
                            sensed,
                            empty_map,
                            path,
                            self.goals@[g].target_spec(),
                        ) && path.len() > 0 && path[0] == a && path_cost(self.actions@, path)
                            == bc.1;
                    assert(plan_valid(
                        self.actions_spec(),
                        *scratch,
                        Map::<Seq<char>, ValueModel>::empty(),
                        path,
                        self.goals_spec()[g].target_spec(),
                    ));
                }
                let cmd = self.actions[a].execute(world, scratch);
                Some((a, cmd))
            },
            None => {
                proof {
                    assert forall|g: int, i: usize|
                        !(#[trigger] forced_choice(
                            self.actions_spec(),
                            self.goals_spec(),
                            *scratch,
                            g,
                            i,
                        )) by {
                        if forced_choice(self.actions@, self.goals@, sensed, g, i) {
                            assert(best == Some((i, self.actions@[i as int].cost_spec())));
                        }
                    }
                }
                None
            },
        }
    }
}

} // verus!
