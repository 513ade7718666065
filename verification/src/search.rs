//! The bounded best-first search over hypothetical fact stores: an
//! append-only arena of visited nodes linked by parent indices, an open
//! set ordered by least accumulated cost, a closed set for duplicate
//! pruning, and a hard expansion ceiling per goal.

use vstd::prelude::*;
use vstd::multiset::Multiset;
use priority_queue::DoublePriorityQueue;
use crate::actions::ActionKind;
use crate::blackboard::{Blackboard, ValueModel};
use crate::queue::{queue_entries, queue_new, queue_pop_min, queue_push};
use crate::world::Scratch;

verus! {

/// The hard ceiling on expansions per goal search; past it the goal is
/// silently abandoned for this pass.
pub const MAX_ITERATIONS: usize = 50;

/// One visited search state: a fact-store snapshot, its accumulated cost,
/// the action that produced it, and a back-link to its parent — both by
/// arena index, never by reference, so parent chains cannot form cycles.
/// The root node has no action and no parent.
pub struct PlanNode {
    pub blackboard: Blackboard,
    pub cost: u64,
    pub action: Option<usize>,
    pub parent: Option<usize>,
    pub depth: Ghost<nat>,
}

/// Appends an item and returns its index: the arena only ever holds
/// indices that this returned, so every back-link is in bounds by
/// construction.
pub fn put<T>(v: &mut Vec<T>, item: T) -> (idx: usize)
    ensures
        final(v)@ == old(v)@.push(item),
        idx == old(v)@.len(),
{
    let idx = v.len();
    v.push(item);
    idx
}

/// Every step of `path` names a registered action that is ready in the
/// state it is taken from, starting at `bb` (the scratch store is fixed
/// for the whole search).
pub open spec fn path_ok(
    actions: Seq<ActionKind>,
    scratch: Scratch,
    bb: Map<Seq<char>, ValueModel>,
    path: Seq<usize>,
) -> bool
    decreases path.len(),
{
    path.len() == 0 || {
        let a = path[0] as int;
        &&& 0 <= a < actions.len()
        &&& actions[a].ready_spec(scratch, bb)
        &&& path_ok(actions, scratch, actions[a].effect_spec(bb), path.drop_first())
    }
}

/// The fact store reached by applying the path's predicted effects in
/// order, starting at `bb`.
pub open spec fn path_end(
    actions: Seq<ActionKind>,
    bb: Map<Seq<char>, ValueModel>,
    path: Seq<usize>,
) -> Map<Seq<char>, ValueModel>
    decreases path.len(),
{
    if path.len() == 0 {
        bb
    } else {
        path_end(actions, actions[path[0] as int].effect_spec(bb), path.drop_first())
    }
}

/// The sum of the declared costs along the path.
pub open spec fn path_cost(actions: Seq<ActionKind>, path: Seq<usize>) -> int
    decreases path.len(),
{
    if path.len() == 0 {
        0
    } else {
        actions[path[0] as int].cost_spec() + path_cost(actions, path.drop_first())
    }
}

/// A path of length `n` from `bb` that ends in `target`: a valid plan.
pub open spec fn plan_valid(
    actions: Seq<ActionKind>,
    scratch: Scratch,
    bb: Map<Seq<char>, ValueModel>,
    path: Seq<usize>,
    target: Map<Seq<char>, ValueModel>,
) -> bool {
    path_ok(actions, scratch, bb, path) && path_end(actions, bb, path) == target
}

/// Well-formedness of one arena node: the root stands alone at index
/// zero; every other node was produced by a ready, registered action from
/// its parent, holds that action's predicted state, and accumulates its
/// parent's cost plus the action's.
pub open spec fn node_ok(
    actions: Seq<ActionKind>,
    scratch: Scratch,
    arena: Seq<PlanNode>,
    k: int,
) -> bool {
    let n = arena[k];
    &&& (k == 0 ==> n.action is None && n.parent is None && n.cost == 0 && n.depth@ == 0)
    &&& (k != 0 ==> n.action is Some && n.parent is Some && {
        let p = n.parent->0 as int;
        let a = n.action->0 as int;
        &&& 0 <= p < k
        &&& 0 <= a < actions.len()
        &&& actions[a].ready_spec(scratch, arena[p].blackboard@)
        &&& n.blackboard@ == actions[a].effect_spec(arena[p].blackboard@)
        &&& n.cost == arena[p].cost + actions[a].cost_spec()
        &&& n.depth@ == arena[p].depth@ + 1
    })
}

/// Well-formedness of the whole arena: rooted at the initial fact store,
/// every node reachable from the root by valid steps.
pub open spec fn arena_ok(
    actions: Seq<ActionKind>,
    scratch: Scratch,
    init: Map<Seq<char>, ValueModel>,
    arena: Seq<PlanNode>,
) -> bool {
    &&& arena.len() >= 1
    &&& arena[0].blackboard@ == init
    &&& forall|k: int| 0 <= k < arena.len() ==> #[trigger] node_ok(actions, scratch, arena, k)
}

/// Whether some already-expanded store equals `b`.
fn contains_board(v: &Vec<Blackboard>, b: &Blackboard) -> (r: bool)
    ensures
        r == exists|i: int| 0 <= i < v@.len() && v@[i]@ == b@,
{
    let n = v.len();
    let mut i: usize = 0;
    while i < n
        invariant
            i <= n,
            n == v@.len(),
            forall|j: int| 0 <= j < i ==> v@[j]@ != b@,
        decreases n - i,
    {
        if v[i].equals(b) {
            return true;
        }
        i += 1;
    }
    false
}

/// Walks the parent links from `start` back to the root, collecting each
/// node's producing action, and returns the root-to-node action path with
/// the node's accumulated cost. The path is a valid plan ending in the
/// node's fact store, its summed cost is the node's cost, and its length
/// is the node's depth.
fn reconstruct(
    actions: &Vec<ActionKind>,
    Ghost(scratch): Ghost<Scratch>,
    Ghost(init): Ghost<Map<Seq<char>, ValueModel>>,
    arena: &Vec<PlanNode>,
    start: usize,
) -> (r: (Vec<usize>, u64))
    requires
        arena_ok(actions@, scratch, init, arena@),
        start < arena@.len(),
    ensures
        path_ok(actions@, scratch, init, r.0@),
        path_end(actions@, init, r.0@) == arena@[start as int].blackboard@,
        r.1 == arena@[start as int].cost,
        r.1 as int == path_cost(actions@, r.0@),
        r.0@.len() == arena@[start as int].depth@,
        r.0@.len() > 0 ==> r.0@.last() == arena@[start as int].action->0,
{
    let total = arena[start].cost;
    let mut collected: Vec<usize> = Vec::new();
    let mut curr: usize = start;
    loop
        invariant
            arena_ok(actions@, scratch, init, arena@),
            curr < arena@.len(),
            path_ok(actions@, scratch, arena@[curr as int].blackboard@, collected@.reverse()),
            path_end(actions@, arena@[curr as int].blackboard@, collected@.reverse())
                == arena@[start as int].blackboard@,
            arena@[curr as int].cost + path_cost(actions@, collected@.reverse())
                == arena@[start as int].cost,
            arena@[curr as int].depth@ + collected@.len() == arena@[start as int].depth@,
            collected@.len() > 0 ==> collected@[0] == arena@[start as int].action->0,
            curr == start || collected@.len() > 0,
        ensures
            curr == 0,
        decreases curr,
    {
        proof {
            assert(node_ok(actions@, scratch, arena@, curr as int));
        }
        if curr == 0 {
            break;
        }
        let node = &arena[curr];
        let a = match node.action {
            Some(a) => a,
            None => {
                proof {
                    assert(false);
                }
                0
            },
        };
        let p = match node.parent {
            Some(p) => p,
            None => {
                proof {
                    assert(false);
                }
                0
            },
        };
        proof {
            let rev = collected@.reverse();
            let rev2 = collected@.push(a).reverse();
            assert(rev2 =~= seq![a] + rev);
            assert(rev2.drop_first() =~= rev);
            assert(node_ok(actions@, scratch, arena@, curr as int));
        }
        collected.push(a);
        curr = p;
    }
    proof {
        assert(arena@[0].blackboard@ == init);
    }
    // The collected actions run from the node back to the root; reverse
    // them into root-to-node order.
    let ghost orig = collected@;
    let mut path: Vec<usize> = Vec::new();
    loop
        invariant
            path@.len() + collected@.len() == orig.len(),
            collected@ == orig.subrange(0, collected@.len() as int),
            forall|j: int| 0 <= j < path@.len() ==> path@[j] == orig[orig.len() - 1 - j],
        ensures
            collected@.len() == 0,
        decreases collected@.len(),
    {
        match collected.pop() {
            Some(x) => {
                path.push(x);
            },
            None => {
                break;
            },
        }
    }
    proof {
        assert(node_ok(actions@, scratch, arena@, 0));
        assert(arena@[0].cost == 0);
        assert(arena@[0].depth@ == 0);
        assert(path@ =~= orig.reverse());
    }
    (path, total)
}


/// Exactly one registered action is a cheapest single ready step to the
/// target: it is ready in the sensed state, its predicted effect equals
/// the target, no ready action costs less, and any other ready action
/// whose single step also reaches the target costs strictly more. This
/// covers a goal one ready step away and the choice among alternative
/// one-step plans of different costs, also when further, costlier or
/// target-missing actions are ready beside them.
pub open spec fn one_step_solution(
    actions: Seq<ActionKind>,
    scratch: Scratch,
    init: Map<Seq<char>, ValueModel>,
    target: Map<Seq<char>, ValueModel>,
    i: usize,
) -> bool {
    &&& (i as int) < actions.len()
    &&& actions[i as int].ready_spec(scratch, init)
    &&& actions[i as int].effect_spec(init) == target
    &&& forall|k: int|
        0 <= k < actions.len() && #[trigger] actions[k].ready_spec(scratch, init)
            ==> actions[k].cost_spec() >= actions[i as int].cost_spec()
    &&& forall|k: int|
        0 <= k < actions.len() && k != i && #[trigger] actions[k].ready_spec(scratch, init)
            && actions[k].effect_spec(init) == target ==> actions[k].cost_spec()
            > actions[i as int].cost_spec()
}

/// A cheapest single ready step to the target is unique, so the pass's
/// choice is a function of the sensed world wherever its contract pins
/// it: two searches over unchanged state must pick the same action.
pub proof fn lemma_one_step_solution_unique(
    actions: Seq<ActionKind>,
    scratch: Scratch,
    init: Map<Seq<char>, ValueModel>,
    target: Map<Seq<char>, ValueModel>,
    i: usize,
    j: usize,
)
    requires
        one_step_solution(actions, scratch, init, target, i),
        one_step_solution(actions, scratch, init, target, j),
    ensures
        i == j,
{
    if i != j {
        assert(actions[j as int].ready_spec(scratch, init));
        assert(actions[i as int].ready_spec(scratch, init));
        assert(actions[j as int].cost_spec() > actions[i as int].cost_spec());
        assert(actions[i as int].cost_spec() > actions[j as int].cost_spec());
    }
}

/// Every action's declared cost is at least one, so successor nodes are
/// always strictly costlier than their parents.
proof fn lemma_cost_at_least_one(a: ActionKind)
    ensures
        a.cost_spec() >= 1,
{
}

/// The predicate picking open-set entries at the given priority.
spec fn at_priority(p: u64) -> spec_fn((usize, u64)) -> bool {
    |e: (usize, u64)| e.1 == p
}

/// How many open-set entries carry the given priority.
spec fn entries_at(ms: Multiset<(usize, u64)>, p: u64) -> nat {
    ms.filter(at_priority(p)).len()
}

/// An empty queue has no entries at any priority.
proof fn lemma_entries_at_empty(p: u64)
    ensures
        entries_at(Multiset::<(usize, u64)>::empty(), p) == 0,
{
    assert(Multiset::<(usize, u64)>::empty().filter(at_priority(p))
        =~= Multiset::<(usize, u64)>::empty());
}

/// Inserting an entry raises the count at its own priority by one and
/// leaves every other priority's count alone.
proof fn lemma_entries_at_insert(ms: Multiset<(usize, u64)>, p: u64, e: (usize, u64))
    ensures
        entries_at(ms.insert(e), p) == entries_at(ms, p) + (if e.1 == p {
            1int
        } else {
            0
        }),
{
    let f = at_priority(p);
    if e.1 == p {
        assert(ms.insert(e).filter(f) =~= ms.filter(f).insert(e));
        vstd::multiset::lemma_insert_len(ms.filter(f), e);
    } else {
        assert(ms.insert(e).filter(f) =~= ms.filter(f));
    }
}

/// Removing a present entry lowers the count at its own priority by one
/// and leaves every other priority's count alone.
proof fn lemma_entries_at_remove(ms: Multiset<(usize, u64)>, p: u64, e: (usize, u64))
    requires
        ms.count(e) > 0,
    ensures
        entries_at(ms.remove(e), p) == entries_at(ms, p) - (if e.1 == p {
            1int
        } else {
            0
        }),
{
    let f = at_priority(p);
    if e.1 == p {
        assert(ms.filter(f).count(e) == ms.count(e));
        assert(Multiset::singleton(e).subset_of(ms.filter(f)));
        assert(ms.remove(e).filter(f) =~= ms.filter(f).sub(Multiset::singleton(e)));
    } else {
        assert(ms.remove(e).filter(f) =~= ms.filter(f));
    }
}

/// A present entry makes the count at its priority positive.
proof fn lemma_entries_at_member(ms: Multiset<(usize, u64)>, p: u64, e: (usize, u64))
    requires
        ms.count(e) > 0,
        e.1 == p,
    ensures
        entries_at(ms, p) >= 1,
{
    let f = at_priority(p);
    assert(ms.filter(f).count(e) == ms.count(e));
}

/// One bounded best-first search for one goal. Seeds the open set with a
/// root node holding the sensed fact store at cost zero; repeatedly pops
/// the least-cost node, returning its reconstructed action path when its
/// fact store equals the target; otherwise expands it through every ready
/// action whose successor state is not already closed. Gives up silently
/// once the expansion ceiling is passed or the open set runs dry.
///
/// Any returned path is a valid plan: every step is a registered action,
/// ready in the state it is taken from, and the predicted effects lead
/// from the sensed store to the target, at the returned summed cost. A
/// goal already satisfied by the sensed store yields the empty path at
/// cost zero without expanding at all; and whenever exactly one cheapest
/// ready step reaches the target, the search is bound to return exactly
/// that one-step plan.
pub fn search_goal(
    actions: &Vec<ActionKind>,
    scratch: &Scratch,
    init: &Blackboard,
    target: &Blackboard,
) -> (r: Option<(Vec<usize>, u64)>)
    ensures
        match r {
            Some(pc) => plan_valid(actions@, *scratch, init@, pc.0@, target@)
                && pc.1 as int == path_cost(actions@, pc.0@),
            None => true,
        },
        init@ == target@ ==> match r {
            Some(pc) => pc.0@.len() == 0 && pc.1 == 0,
            None => false,
        },
        forall|i: usize|
            init@ != target@ && actions@.len() <= MAX_ITERATIONS
                && #[trigger] one_step_solution(actions@, *scratch, init@, target@, i)
                ==> match r {
                Some(pc) => pc.0@ == seq![i] && pc.1 == actions@[i as int].cost_spec(),
                None => false,
            },
{
    let ghost hyp = init@ != target@ && actions@.len() <= MAX_ITERATIONS && exists|i: usize|
        one_step_solution(actions@, *scratch, init@, target@, i);
    let ghost fi: usize = if hyp {
        choose|i: usize| one_step_solution(actions@, *scratch, init@, target@, i)
    } else {
        0usize
    };
    let ghost ci: u64 = actions@[fi as int].cost_spec();

    let mut arena: Vec<PlanNode> = Vec::new();
    let root = PlanNode {
        blackboard: init.clone(),
        cost: 0,
        action: None,
        parent: None,
        depth: Ghost(0),
    };
    let root_index = put(&mut arena, root);
    let mut open = queue_new();
    queue_push(&mut open, root_index, 0);
    let mut closed: Vec<Blackboard> = Vec::new();
    let mut iterations: usize = 0;

    loop
        invariant
            arena_ok(actions@, *scratch, init@, arena@),
            forall|e: (usize, u64)| queue_entries(open).count(e) > 0 ==> e.0
                < arena@.len() && e.1 == arena@[e.0 as int].cost,
            iterations <= MAX_ITERATIONS + 1,
            forall|k: int| 0 <= k < arena@.len() ==> #[trigger] arena@[k].depth@ <= iterations,
            forall|k: int| 0 <= k < arena@.len() ==> #[trigger] arena@[k].cost as int <= 8
                * arena@[k].depth@,
            init@ == target@ ==> iterations == 0 && arena@.len() == 1 && queue_entries(open)
                =~= Multiset::<(usize, u64)>::empty().insert((0usize, 0u64)),
            hyp == (init@ != target@ && actions@.len() <= MAX_ITERATIONS && exists|i: usize|
                one_step_solution(actions@, *scratch, init@, target@, i)),
            hyp ==> one_step_solution(actions@, *scratch, init@, target@, fi) && ci
                == actions@[fi as int].cost_spec(),
            hyp && iterations == 0 ==> arena@.len() == 1 && closed@.len() == 0 && queue_entries(
                open,
            ) =~= Multiset::<(usize, u64)>::empty().insert((0usize, 0u64)),
            hyp && iterations >= 1 ==> {
                &&& exists|k: usize|
                    0 < k < arena@.len() && (#[trigger] queue_entries(open).count((k, ci)))
                        > 0 && arena@[k as int].action == Some(fi) && arena@[k as int].parent
                        == Some(0usize)
                &&& forall|e: (usize, u64)| #[trigger] queue_entries(open).count(e) > 0
                    ==> e.1 >= ci
                &&& forall|e: (usize, u64)| queue_entries(open).count(e) > 0 && e.1 == ci
                    ==> arena@[e.0 as int].parent == Some(0usize)
                &&& iterations + entries_at(queue_entries(open), ci) <= 1 + actions@.len()
            },
        decreases MAX_ITERATIONS + 2 - iterations,
    {
        if iterations > MAX_ITERATIONS {
            proof {
                if hyp {
                    if iterations >= 1 {
                        let k = choose|k: usize|
                            0 < k < arena@.len() && (#[trigger] queue_entries(open).count(
                                (k, ci),
                            )) > 0 && arena@[k as int].action == Some(fi) && arena@[k as int].parent == Some(0usize);
                        lemma_entries_at_member(queue_entries(open), ci, (k, ci));
                    }
                    assert(false);
                }
            }
            return None;
        }
        let ghost pre_entries = queue_entries(open);
        let popped = queue_pop_min(&mut open);
        match popped {
            None => {
                proof {
                    if hyp {
                        if iterations == 0 {
                            assert(pre_entries.count((0usize, 0u64)) > 0);
                        } else {
                            let k = choose|k: usize|
                                0 < k < arena@.len() && (#[trigger] pre_entries.count((k, ci)))
                                    > 0 && arena@[k as int].action == Some(fi) && arena@[k as int].parent == Some(0usize);
                        }
                        assert(false);
                    }
                }
                return None;
            },
            Some((current, cost)) => {
                proof {
                    if hyp && iterations >= 1 {
                        let k = choose|k: usize|
                            0 < k < arena@.len() && (#[trigger] pre_entries.count((k, ci)))
                                > 0 && arena@[k as int].action == Some(fi) && arena@[k as int].parent == Some(0usize);
                        assert(cost <= ci);
                        assert(cost >= ci);
                        assert(arena@[current as int].parent == Some(0usize));
                        assert(node_ok(actions@, *scratch, arena@, current as int));
                        assert(node_ok(actions@, *scratch, arena@, 0));
                    }
                }
                if target.equals(&arena[current].blackboard) {
                    let (path, c) = reconstruct(
                        actions,
                        Ghost(*scratch),
                        Ghost(init@),
                        &arena,
                        current,
                    );
                    proof {
                        if init@ == target@ {
                            assert(pre_entries.count((current, cost)) > 0);
                            assert((current, cost) == (0usize, 0u64));
                            assert(node_ok(actions@, *scratch, arena@, 0));
                        }
                        if hyp {
                            if iterations == 0 {
                                assert(pre_entries.count((current, cost)) > 0);
                                assert((current, cost) == (0usize, 0u64));
                                assert(arena@[0].blackboard@ == init@);
                                assert(false);
                            }
                            let a = arena@[current as int].action->0;
                            assert(actions@[a as int].ready_spec(*scratch, init@));
                            assert(arena@[current as int].blackboard@ == actions@[a as int].effect_spec(init@));
                            assert(cost == actions@[a as int].cost_spec());
                            if a != fi {
                                assert(actions@[a as int].cost_spec() > ci);
                                assert(false);
                            }
                            assert(path@.len() == 1);
                            assert(path@ =~= seq![fi]);
                        }
                        assert forall|i: usize|
                            init@ != target@ && actions@.len() <= MAX_ITERATIONS
                                && #[trigger] one_step_solution(
                                actions@,
                                *scratch,
                                init@,
                                target@,
                                i,
                            ) implies path@ == seq![i] && c == actions@[i as int].cost_spec() by {
                            lemma_one_step_solution_unique(
                                actions@,
                                *scratch,
                                init@,
                                target@,
                                i,
                                fi,
                            );
                        }
                    }
                    return Some((path, c));
                }
                proof {
                    if hyp {
                        if iterations == 0 {
                            assert(pre_entries.count((current, cost)) > 0);
                            assert((current, cost) == (0usize, 0u64));
                        } else {
                            let k = choose|k: usize|
                                0 < k < arena@.len() && (#[trigger] pre_entries.count((k, ci)))
                                    > 0 && arena@[k as int].action == Some(fi) && arena@[k as int].parent == Some(0usize);
                            assert(node_ok(actions@, *scratch, arena@, k as int));
                            assert(arena@[k as int].blackboard@ == target@);
                            assert(current != k);
                            assert(queue_entries(open).count((k, ci)) > 0);
                            lemma_entries_at_remove(pre_entries, ci, (current, cost));
                        }
                    }
                }
                proof {
                    if hyp && iterations == 0 {
                        assert(queue_entries(open) =~= Multiset::<(usize, u64)>::empty());
                        lemma_entries_at_empty(ci);
                    }
                }
                let in_closed = contains_board(&closed, &arena[current].blackboard);
                if !in_closed {
                    let snapshot = arena[current].blackboard.clone();
                    closed.push(snapshot);
                    let n_actions = actions.len();
                    let ghost current_depth = arena@[current as int].depth@;
                    let mut ai: usize = 0;
                    while ai < n_actions
                        invariant
                            n_actions == actions@.len(),
                            ai <= n_actions,
                            arena_ok(actions@, *scratch, init@, arena@),
                            current < arena@.len(),
                            arena@[current as int].cost == cost,
                            arena@[current as int].depth@ == current_depth,
                            current_depth <= iterations,
                            iterations <= MAX_ITERATIONS,
                            cost as int <= 8 * current_depth,
                            forall|e: (usize, u64)| queue_entries(open).count(e) > 0 ==> e.0
                                < arena@.len() && e.1 == arena@[e.0 as int].cost,
                            forall|k: int| 0 <= k < arena@.len()
                                ==> #[trigger] arena@[k].depth@ <= iterations + 1,
                            forall|k: int| 0 <= k < arena@.len()
                                ==> #[trigger] arena@[k].cost as int <= 8 * arena@[k].depth@,
                            init@ != target@,
                            hyp == (init@ != target@ && actions@.len() <= MAX_ITERATIONS
                                && exists|i: usize|
                                one_step_solution(actions@, *scratch, init@, target@, i)),
                            hyp ==> one_step_solution(actions@, *scratch, init@, target@, fi)
                                && ci == actions@[fi as int].cost_spec(),
                            hyp ==> arena@[current as int].blackboard@ != target@,
                            hyp && iterations == 0 ==> current == 0 && cost == 0
                                && closed@.len() == 1 && closed@[0]@ == init@,
                            hyp && iterations == 0 ==> forall|e: (usize, u64)|
                                #[trigger] queue_entries(open).count(e) > 0 ==> e.1 >= ci
                                    && arena@[e.0 as int].parent == Some(0usize),
                            hyp && iterations == 0 ==> entries_at(queue_entries(open), ci)
                                <= ai,
                            hyp && iterations == 0 && ai > fi ==> exists|k: usize|
                                0 < k < arena@.len() && (#[trigger] queue_entries(open).count(
                                (k, ci),
                            )) > 0 && arena@[k as int].action == Some(fi) && arena@[k as int].parent == Some(0usize),
                            hyp && iterations >= 1 ==> cost == ci && arena@[current as int].parent == Some(0usize),
                            hyp && iterations >= 1 ==> exists|k: usize|
                                0 < k < arena@.len() && (#[trigger] queue_entries(open).count(
                                (k, ci),
                            )) > 0 && arena@[k as int].action == Some(fi) && arena@[k as int].parent == Some(0usize),
                            hyp && iterations >= 1 ==> forall|e: (usize, u64)|
                                #[trigger] queue_entries(open).count(e) > 0 ==> e.1 >= ci,
                            hyp && iterations >= 1 ==> forall|e: (usize, u64)|
                                queue_entries(open).count(e) > 0 && e.1 == ci ==> arena@[e.0 as int].parent == Some(0usize),
                            hyp && iterations >= 1 ==> iterations + entries_at(
                                queue_entries(open),
                                ci,
                            ) <= actions@.len(),
                        decreases n_actions - ai,
                    {
                        let action = &actions[ai];
                        if action.check_readyness(scratch, &arena[current].blackboard) {
                            let mut next_bb = arena[current].blackboard.clone();
                            let step_cost = action.cost(&next_bb);
                            action.apply_effect(&mut next_bb);
                            let next_in_closed = contains_board(&closed, &next_bb);
                            if !next_in_closed {
                                let next_cost = cost + step_cost;
                                let node = PlanNode {
                                    blackboard: next_bb,
                                    cost: next_cost,
                                    action: Some(ai),
                                    parent: Some(current),
                                    depth: Ghost(current_depth + 1),
                                };
                                let ghost arena0 = arena@;
                                let idx = put(&mut arena, node);
                                proof {
                                    assert forall|k: int| 0 <= k < arena@.len() implies node_ok(
                                        actions@,
                                        *scratch,
                                        arena@,
                                        k,
                                    ) by {
                                        if k < arena0.len() {
                                            assert(node_ok(actions@, *scratch, arena0, k));
                                            assert(arena@[k] == arena0[k]);
                                            if k != 0 {
                                                let p = arena@[k].parent->0 as int;
                                                assert(arena@[p] == arena0[p]);
                                            }
                                        }
                                    }
                                    if hyp {
                                        lemma_entries_at_insert(
                                            queue_entries(open),
                                            ci,
                                            (idx, next_cost),
                                        );
                                        if iterations >= 1 {
                                            lemma_cost_at_least_one(actions@[ai as int]);
                                            assert(next_cost > ci);
                                        }
                                    }
                                }
                                let ghost pre_push = queue_entries(open);
                                queue_push(&mut open, idx, next_cost);
                                proof {
                                    if hyp {
                                        if iterations == 0 && ai == fi {
                                            assert(next_cost == ci);
                                            assert(queue_entries(open).count((idx, ci)) > 0);
                                        }
                                        if (iterations == 0 && ai > fi) || iterations >= 1 {
                                            let k0 = choose|k: usize|
                                                0 < k < arena0.len() && (#[trigger] pre_push.count(
                                                (k, ci),
                                            )) > 0 && arena0[k as int].action == Some(fi)
                                                && arena0[k as int].parent == Some(0usize);
                                            assert(queue_entries(open).count((k0, ci)) > 0);
                                            assert(arena@[k0 as int] == arena0[k0 as int]);
                                        }
                                    }
                                }
                            } else {
                                proof {
                                    if hyp && iterations == 0 && ai == fi {
                                        assert(next_bb@ == target@);
                                        assert(closed@[0]@ == init@);
                                        assert(false);
                                    }
                                }
                            }
                        }
                        ai += 1;
                    }
                }
                iterations += 1;
            },
        }
    }
}

/// When no reachable state can equal the target, no plan is valid, so
/// the search — which always terminates, by its expansion ceiling — can
/// only come back empty-handed and the agent stays idle for the pass.
/// `inv` is any property of fact stores that holds initially and is kept
/// by every ready action's effect (for a two-cycle of mutually reversing
/// actions, the states it can ever produce); if no state satisfying it
/// equals the target, no action path ends there.
pub proof fn lemma_unreachable_target_no_plan(
    actions: Seq<ActionKind>,
    scratch: Scratch,
    init: Map<Seq<char>, ValueModel>,
    target: Map<Seq<char>, ValueModel>,
    inv: spec_fn(Map<Seq<char>, ValueModel>) -> bool,
    path: Seq<usize>,
)
    requires
        inv(init),
        init != target,
        forall|bb: Map<Seq<char>, ValueModel>, k: int|
            inv(bb) && 0 <= k < actions.len() && actions[k].ready_spec(scratch, bb) ==> inv(
                #[trigger] actions[k].effect_spec(bb),
            ) && actions[k].effect_spec(bb) != target,
    ensures
        !plan_valid(actions, scratch, init, path, target),
    decreases path.len(),
{
    if path.len() > 0 && plan_valid(actions, scratch, init, path, target) {
        let next = actions[path[0] as int].effect_spec(init);
        if next == target {
            assert(path_ok(actions, scratch, init, path));
        } else {
            lemma_unreachable_target_no_plan(
                actions,
                scratch,
                next,
                target,
                inv,
                path.drop_first(),
            );
        }
        assert(false);
    }
}

} // verus!
