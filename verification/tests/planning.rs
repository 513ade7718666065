use goap::{
    ActionKind, AggroCharacter, Attack, Blackboard, Chill, ChopLog, CollectBranches, Command,
    GetAxe, GoTowardsFire, GoalKind, GoalRegistry, GoalSystem, Patrol, Planner, Scratch, SearchForFire,
    SenseFire, SensePlayer, SensorKind, StayWarm, TargetReading, WorldSnapshot,
};
use goap::search_goal;

fn reading(x: i64, distance: u64) -> TargetReading {
    TargetReading { x, y: 0, z: 0, distance }
}

fn empty_world() -> WorldSnapshot {
    WorldSnapshot { fires: Vec::new(), players: Vec::new(), run_speed: 4 }
}

#[test]
fn already_satisfied_goal_returns_empty_path() {
    let actions = vec![
        ActionKind::Chill(Chill::new(2000)),
        ActionKind::GetAxe(GetAxe::new()),
    ];
    let scratch = Scratch::new();
    let mut init = Blackboard::new();
    init.insert_bool("NearbyFire", true);
    let target = init.clone();
    let r = search_goal(&actions, &scratch, &init, &target);
    let (path, cost) = r.expect("an already satisfied goal still matches");
    assert!(path.is_empty());
    assert_eq!(cost, 0);
}

#[test]
fn one_step_goal_returns_that_action() {
    let actions = vec![
        ActionKind::Patrol(Patrol::new()),
        ActionKind::Chill(Chill::new(2000)),
    ];
    let mut scratch = Scratch::new();
    scratch.fire = Some(reading(10, 500));
    let init = Blackboard::new();
    let mut target = Blackboard::new();
    target.insert_bool("NearbyFire", true);
    let r = search_goal(&actions, &scratch, &init, &target);
    let (path, cost) = r.expect("the goal is one ready step away");
    assert_eq!(path, vec![1]);
    assert_eq!(cost, 3);
}

#[test]
fn unreachable_goal_is_abandoned() {
    let actions = vec![ActionKind::Chill(Chill::new(2000))];
    let scratch = Scratch::new();
    let init = Blackboard::new();
    let mut target = Blackboard::new();
    target.insert_bool("NearbyFire", true);
    // Chill is not ready: no fire is cached and none is located.
    assert!(search_goal(&actions, &scratch, &init, &target).is_none());
}

#[test]
fn cyclic_state_growth_hits_the_iteration_cap_and_stays_idle() {
    // CollectBranches is ready forever and keeps changing the firewood
    // count, so the open set never dries up; the hypothetical stores all
    // carry the BranchesInViscinity fact, so none ever equals the
    // one-fact target. The search must stop at its expansion ceiling and
    // report no plan, leaving the agent idle.
    let actions = vec![ActionKind::CollectBranches(CollectBranches::new())];
    let scratch = Scratch::new();
    let mut init = Blackboard::new();
    init.insert_number("BranchesInViscinity", 5);
    let mut target = Blackboard::new();
    target.insert_number("FirewoodOwnership", 8);
    assert!(search_goal(&actions, &scratch, &init, &target).is_none());
}

#[test]
fn axe_chain_needs_the_axe_first() {
    // GetAxe is offered only while the axe is not yet held; its one step
    // reaches a target that records both the axe's location and holding
    // it.
    let actions = vec![
        ActionKind::ChopLog(ChopLog::new()),
        ActionKind::GetAxe(GetAxe::new()),
    ];
    let scratch = Scratch::new();
    let mut init = Blackboard::new();
    init.insert_bool("AxeLocation", true);
    let mut target = Blackboard::new();
    target.insert_bool("AxeLocation", true);
    target.insert_bool("AxeState", true);
    let r = search_goal(&actions, &scratch, &init, &target);
    let (path, cost) = r.expect("picking up the axe reaches the target");
    assert_eq!(path, vec![1]);
    assert_eq!(cost, 2);
}

#[test]
fn sensors_cache_the_nearest_qualifying_reading() {
    let sensor = SensorKind::SenseFire(SenseFire::new(1000));
    let world = WorldSnapshot {
        fires: vec![reading(1, 700), reading(2, 300), reading(3, 300), reading(4, 900)],
        players: Vec::new(),
        run_speed: 4,
    };
    let mut scratch = Scratch::new();
    let mut bb = Blackboard::new();
    sensor.sense(&world, &mut scratch, &mut bb);
    // nearest wins; among equals the earliest reading wins
    assert_eq!(scratch.fire, Some(reading(2, 300)));
    assert_eq!(scratch.player, None);
}

#[test]
fn sensors_clear_stale_caches() {
    let sensor = SensorKind::SenseFire(SenseFire::new(1000));
    let mut scratch = Scratch::new();
    scratch.fire = Some(reading(9, 100));
    let mut bb = Blackboard::new();
    // the only fire is out of range now: the stale cache entry must go
    let world = WorldSnapshot {
        fires: vec![reading(1, 5000)],
        players: Vec::new(),
        run_speed: 4,
    };
    sensor.sense(&world, &mut scratch, &mut bb);
    assert_eq!(scratch.fire, None);
}

#[test]
fn plan_without_perception_does_nothing() {
    let mut planner = Planner::new();
    planner.insert_goal(GoalKind::StayWarm(StayWarm::new()));
    planner.insert_action(ActionKind::SearchForFire(SearchForFire::new()));
    planner.insert_action(ActionKind::Chill(Chill::new(2000)));
    planner.insert_sensor(SensorKind::SenseFire(SenseFire::new(100000)));
    let mut scratch = Scratch::new();
    let world = empty_world();
    assert_eq!(planner.plan(&world, &mut scratch), None);
}

#[test]
fn plan_with_a_near_fire_chills() {
    // The end-to-end scenario: a fire sensed within the chill threshold
    // yields the path [Chill] at cost 3, and Chill's execution asks the
    // caller to stop the agent.
    let mut planner = Planner::new();
    planner.insert_goal(GoalKind::StayWarm(StayWarm::new()));
    planner.insert_action(ActionKind::SearchForFire(SearchForFire::new()));
    planner.insert_action(ActionKind::Chill(Chill::new(2000)));
    planner.insert_sensor(SensorKind::SenseFire(SenseFire::new(100000)));
    let mut scratch = Scratch::new();
    let world = WorldSnapshot {
        fires: vec![reading(7, 1500)],
        players: Vec::new(),
        run_speed: 4,
    };
    let r = planner.plan(&world, &mut scratch);
    assert_eq!(r, Some((1, Some(Command::Stop))));
}

#[test]
fn plan_with_a_far_fire_walks_towards_it() {
    // A fire sensed beyond the chill threshold leaves only
    // SearchForFire's step towards a located fire; the goal itself stays
    // out of reach this pass, so nothing runs for it.
    let mut planner = Planner::new();
    planner.insert_goal(GoalKind::StayWarm(StayWarm::new()));
    planner.insert_action(ActionKind::SearchForFire(SearchForFire::new()));
    planner.insert_action(ActionKind::Chill(Chill::new(2000)));
    planner.insert_sensor(SensorKind::SenseFire(SenseFire::new(100000)));
    let mut scratch = Scratch::new();
    let world = WorldSnapshot {
        fires: vec![reading(7, 50000)],
        players: Vec::new(),
        run_speed: 4,
    };
    // With exact goal matching, LocatedFire+NearbyFire never equals the
    // one-fact StayWarm target, so no plan is found.
    assert_eq!(planner.plan(&world, &mut scratch), None);
    // The perception was still cached for this pass.
    assert_eq!(scratch.fire, Some(reading(7, 50000)));
}

#[test]
fn cheaper_goal_wins_across_goals() {
    // Two goals, each one step away: chilling costs 3, attacking costs
    // 1. The pass must pick the cheaper path's first action.
    let planner = GoalRegistry::register();
    let mut scratch = Scratch::new();
    let world = WorldSnapshot {
        fires: vec![reading(7, 1500)],
        players: vec![reading(2, 800)],
        run_speed: 4,
    };
    let r = planner.plan(&world, &mut scratch);
    // standard registration order: SearchForFire, Chill, Patrol, Attack
    assert_eq!(r, Some((3, Some(Command::Stop))));
}

#[test]
fn replanning_is_deterministic() {
    let planner = GoalRegistry::register();
    let mut scratch = Scratch::new();
    let world = WorldSnapshot {
        fires: vec![reading(7, 1500)],
        players: Vec::new(),
        run_speed: 4,
    };
    let first = planner.plan(&world, &mut scratch);
    let second = planner.plan(&world, &mut scratch);
    assert_eq!(first, second);
    assert_eq!(first, Some((1, Some(Command::Stop))));
}

#[test]
fn registry_creates_lazily_and_keeps_agents_separate() {
    let mut registry = GoalSystem::new();
    let near_fire = WorldSnapshot {
        fires: vec![reading(7, 1500)],
        players: Vec::new(),
        run_speed: 4,
    };
    let nothing = empty_world();

    let r1 = registry.run(1, 10, &near_fire);
    assert_eq!(r1, Some((1, Some(Command::Stop))));

    // another agent sees an empty world through its own planner
    let r2 = registry.run(2, 10, &nothing);
    assert_eq!(r2, None);

    // the first agent's entry is reused and still plans the same
    let r3 = registry.run(1, 10, &near_fire);
    assert_eq!(r3, r1);
}

#[test]
fn patrol_moves_towards_the_sensed_player() {
    let mut planner = Planner::new();
    planner.insert_goal(GoalKind::AggroCharacter(AggroCharacter::new()));
    planner.insert_action(ActionKind::Patrol(Patrol::new()));
    planner.insert_action(ActionKind::Attack(Attack::new(500)));
    planner.insert_sensor(SensorKind::SensePlayer(SensePlayer::new(10000)));
    let mut scratch = Scratch::new();
    // the player is sensed but out of attack range; only Patrol's step
    // is offered, and KnowPlayerLocation+NearbyPlayer never equals the
    // one-fact target, so no plan is found this pass
    let world = WorldSnapshot {
        fires: Vec::new(),
        players: vec![reading(3, 700)],
        run_speed: 9,
    };
    assert_eq!(planner.plan(&world, &mut scratch), None);

    // within attack range the one-step path [Attack] is found
    let world_close = WorldSnapshot {
        fires: Vec::new(),
        players: vec![reading(3, 300)],
        run_speed: 9,
    };
    let r = planner.plan(&world_close, &mut scratch);
    assert_eq!(r, Some((1, Some(Command::Stop))));
}

#[test]
fn search_for_fire_execution_moves_towards_the_cache() {
    let action = ActionKind::SearchForFire(SearchForFire::new());
    let mut scratch = Scratch::new();
    scratch.fire = Some(TargetReading { x: 11, y: -2, z: 5, distance: 4000 });
    let world = WorldSnapshot { fires: Vec::new(), players: Vec::new(), run_speed: 6 };
    let cmd = action.execute(&world, &scratch);
    assert_eq!(cmd, Some(Command::MoveTowards { x: 11, y: -2, z: 5, speed: 6 }));

    let bare = Scratch::new();
    assert_eq!(action.execute(&world, &bare), None);
}

#[test]
fn effects_and_costs_match_their_declarations() {
    let mut bb = Blackboard::new();
    let chill = ActionKind::Chill(Chill::new(2000));
    assert_eq!(chill.cost(&bb), 3);
    chill.apply_effect(&mut bb);
    assert_eq!(bb.get_bool("NearbyFire"), Some(true));

    let mut bb2 = Blackboard::new();
    bb2.insert_number("FirewoodOwnership", 2);
    let gather = ActionKind::CollectBranches(CollectBranches::new());
    assert_eq!(gather.cost(&bb2), 8);
    gather.apply_effect(&mut bb2);
    assert_eq!(bb2.get_number("FirewoodOwnership"), Some(3));
}

#[test]
fn goal_targets_are_rebuilt_fresh() {
    let g = GoalKind::StayWarm(StayWarm::new());
    let t1 = g.get_goal();
    let t2 = g.get_goal();
    assert!(t1.equals(&t2));
    assert_eq!(t1.get_bool("NearbyFire"), Some(true));

    let c = GoalKind::CollectFirewood(goap::CollectFirewood::new());
    assert_eq!(c.get_goal().get_number("FirewoodOwnership"), Some(8));

    let a = GoalKind::AggroCharacter(AggroCharacter::new());
    assert_eq!(a.get_goal().get_bool("NearbyPlayer"), Some(true));
    assert_eq!(g.name(), "StayWarm");
    assert_eq!(a.name(), "AggroCharacter");
}

#[test]
fn locating_a_fire_enables_heading_towards_it() {
    // SearchForFire records the located fire as a fact; GoTowardsFire is
    // ready exactly once that fact is set, and predicts heading there.
    let actions = vec![
        ActionKind::SearchForFire(SearchForFire::new()),
        ActionKind::GoTowardsFire(GoTowardsFire::new()),
    ];
    let mut scratch = Scratch::new();
    scratch.fire = Some(reading(5, 40000));
    let init = Blackboard::new();
    let mut target = Blackboard::new();
    target.insert_bool("LocatedFire", true);
    target.insert_bool("HeadingTowardsFire", true);
    let r = search_goal(&actions, &scratch, &init, &target);
    let (path, cost) = r.expect("locating then heading reaches the target");
    assert_eq!(path, vec![0, 1]);
    assert_eq!(cost, 5);

    // without the located-fire fact, heading towards it is not offered
    let mut lone_target = Blackboard::new();
    lone_target.insert_bool("HeadingTowardsFire", true);
    let lone = vec![ActionKind::GoTowardsFire(GoTowardsFire::new())];
    assert!(search_goal(&lone, &scratch, &init, &lone_target).is_none());
}
