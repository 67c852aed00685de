//! What holds of every tick, proved from the model.

use vstd::prelude::*;
use crate::key::dedup_key;
use crate::model::{
    after, all_memoryless, all_well_formed, composite_outcome, consulted_in_order, fits, flight_after, forced,
    flight_through, lotto_target, memoryless, mirrored, outcome, settled, shape, shapes, single_valued, well_formed,
    well_formed_below, Call, Fault, Names, Trace, Tree,
};
use crate::tracker::Flight;
use crate::status::NodeResult;

verus! {

/// A tick never changes the shape of a tree: whatever the trace, the tree
/// it leaves has the nodes, the order and the calls of the tree it found.
pub proof fn tick_keeps_shape(tree: Tree, trace: Trace)
    ensures
        shape(after(tree, trace)) == shape(tree),
    decreases trace,
{
    reveal_with_fuel(after, 2);
    reveal_with_fuel(settled, 2);
    reveal_with_fuel(shape, 2);
    reveal_with_fuel(shapes, 2);
    match (tree, trace) {
        (Tree::Root(child), Trace::Root(t)) => {
            tick_keeps_shape(*child, *t);
        },
        (Tree::Sequence(children), Trace::Composite(ts)) => {
            lemma_settled_keeps_shapes(children, ts);
        },
        (Tree::Selector(children), Trace::Composite(ts)) => {
            lemma_settled_keeps_shapes(children, ts);
        },
        (Tree::Lotto(children, chosen), Trace::Lotto(drawn, Some(t))) => {
            match lotto_target(children, chosen, drawn) {
                Some(k) => {
                    if k < children.len() {
                        tick_keeps_shape(children[k as int], *t);
                        let left = children.update(k as int, after(children[k as int], *t));
                        assert(shapes(left) =~= shapes(children));
                    }
                },
                None => {},
            }
        },
        (Tree::While(guard, child), Trace::While(_, Some(t))) => {
            tick_keeps_shape(*child, *t);
        },
        _ => {},
    }
}

/// The children of a composite keep their shapes through a tick.
proof fn lemma_settled_keeps_shapes(children: Seq<Tree>, ts: Seq<Trace>)
    ensures
        shapes(settled(children, ts)) == shapes(children),
    decreases ts,
{
    reveal_with_fuel(settled, 2);
    reveal_with_fuel(shapes, 2);
    assert forall|j: int| 0 <= j < children.len() implies shape(#[trigger] settled(children, ts)[j]) == shape(
        children[j],
    ) by {
        if j < ts.len() {
            tick_keeps_shape(children[j], ts[j]);
        }
    }
    assert(shapes(settled(children, ts)) =~= shapes(children));
}

/// A tick leaves a well-formed tree well formed.
pub proof fn tick_keeps_well_formed(tree: Tree, trace: Trace)
    requires
        well_formed(tree),
    ensures
        well_formed(after(tree, trace)),
{
    reveal_with_fuel(after, 2);
    match (tree, trace) {
        (Tree::Root(child), Trace::Root(t)) => {
            lemma_stays_well_formed_below(*child, *t);
        },
        _ => {},
    }
}

/// A tick leaves what can stand below the entry of a tree able to stand there.
proof fn lemma_stays_well_formed_below(tree: Tree, trace: Trace)
    requires
        well_formed_below(tree),
    ensures
        well_formed_below(after(tree, trace)),
    decreases trace,
{
    reveal_with_fuel(after, 2);
    reveal_with_fuel(settled, 2);
    reveal_with_fuel(well_formed_below, 2);
    reveal_with_fuel(all_well_formed, 2);
    match (tree, trace) {
        (Tree::Sequence(children), Trace::Composite(ts)) => {
            lemma_settled_stay_well_formed(children, ts);
        },
        (Tree::Selector(children), Trace::Composite(ts)) => {
            lemma_settled_stay_well_formed(children, ts);
        },
        (Tree::Lotto(children, chosen), Trace::Lotto(drawn, Some(t))) => {
            match lotto_target(children, chosen, drawn) {
                Some(k) => {
                    if k < children.len() {
                        lemma_stays_well_formed_below(children[k as int], *t);
                        let left = children.update(k as int, after(children[k as int], *t));
                        assert forall|j: int| 0 <= j < left.len() implies well_formed_below(#[trigger] left[j]) by {
                            if j != k {
                                assert(left[j] == children[j]);
                            }
                        }
                    }
                },
                None => {},
            }
        },
        (Tree::While(guard, child), Trace::While(_, Some(t))) => {
            lemma_stays_well_formed_below(*child, *t);
        },
        _ => {},
    }
}

/// The children of a composite stay able to stand below the entry of a
/// tree through a tick.
proof fn lemma_settled_stay_well_formed(children: Seq<Tree>, ts: Seq<Trace>)
    requires
        all_well_formed(children),
    ensures
        all_well_formed(settled(children, ts)),
    decreases ts,
{
    reveal_with_fuel(settled, 2);
    reveal_with_fuel(all_well_formed, 2);
    assert forall|j: int| 0 <= j < children.len() implies well_formed_below(#[trigger] settled(children, ts)[j]) by {
        if j < ts.len() {
            lemma_stays_well_formed_below(children[j], ts[j]);
        } else {
            assert(settled(children, ts)[j] == children[j]);
        }
    }
}

/// A sequence stops at the first child that does not succeed: that child is
/// the last one consulted, its outcome is the outcome of the sequence, and
/// the children after it are left as they were.
pub proof fn sequence_stops_at(children: Seq<Tree>, names: Names, flight: Flight, ts: Seq<Trace>, k: int)
    requires
        fits(Tree::Sequence(children), names, flight, Trace::Composite(ts)),
        0 <= k < ts.len(),
        outcome(children[k], ts[k]) != Ok::<NodeResult, Fault>(NodeResult::Success),
    ensures
        k == ts.len() - 1,
        outcome(Tree::Sequence(children), Trace::Composite(ts)) == outcome(children[k], ts[k]),
        ({
            &&& after(Tree::Sequence(children), Trace::Composite(ts)) matches Tree::Sequence(left)
            &&& left.len() == children.len()
            &&& forall|j: int| k < j < children.len() ==> left[j] == children[j]
        }),
{
    reveal_with_fuel(outcome, 2);
    reveal_with_fuel(composite_outcome, 2);
    reveal_with_fuel(after, 2);
    reveal_with_fuel(settled, 2);
}

/// A sequence whose consulted children all succeed has consulted every
/// child and succeeds.
pub proof fn sequence_succeeds(children: Seq<Tree>, names: Names, flight: Flight, ts: Seq<Trace>)
    requires
        fits(Tree::Sequence(children), names, flight, Trace::Composite(ts)),
        forall|j: int| 0 <= j < ts.len() ==> outcome(children[j], ts[j]) == Ok::<NodeResult, Fault>(NodeResult::Success),
    ensures
        ts.len() == children.len(),
        outcome(Tree::Sequence(children), Trace::Composite(ts)) == Ok::<NodeResult, Fault>(NodeResult::Success),
{
    reveal_with_fuel(outcome, 2);
    reveal_with_fuel(composite_outcome, 2);
}

/// A selector stops at the first child that does not fail: that child is
/// the last one consulted, its outcome is the outcome of the selector, and
/// the children after it are left as they were.
pub proof fn selector_stops_at(children: Seq<Tree>, names: Names, flight: Flight, ts: Seq<Trace>, k: int)
    requires
        fits(Tree::Selector(children), names, flight, Trace::Composite(ts)),
        0 <= k < ts.len(),
        outcome(children[k], ts[k]) != Ok::<NodeResult, Fault>(NodeResult::Failure),
    ensures
        k == ts.len() - 1,
        outcome(Tree::Selector(children), Trace::Composite(ts)) == outcome(children[k], ts[k]),
        ({
            &&& after(Tree::Selector(children), Trace::Composite(ts)) matches Tree::Selector(left)
            &&& left.len() == children.len()
            &&& forall|j: int| k < j < children.len() ==> left[j] == children[j]
        }),
{
    reveal_with_fuel(outcome, 2);
    reveal_with_fuel(composite_outcome, 2);
    reveal_with_fuel(after, 2);
    reveal_with_fuel(settled, 2);
}

/// A selector whose consulted children all fail has consulted every child
/// and fails.
pub proof fn selector_fails(children: Seq<Tree>, names: Names, flight: Flight, ts: Seq<Trace>)
    requires
        fits(Tree::Selector(children), names, flight, Trace::Composite(ts)),
        forall|j: int| 0 <= j < ts.len() ==> outcome(children[j], ts[j]) == Ok::<NodeResult, Fault>(NodeResult::Failure),
    ensures
        ts.len() == children.len(),
        outcome(Tree::Selector(children), Trace::Composite(ts)) == Ok::<NodeResult, Fault>(NodeResult::Failure),
{
    reveal_with_fuel(outcome, 2);
    reveal_with_fuel(composite_outcome, 2);
}

/// `Running` propagates: where a consulted child of a sequence or of a
/// selector is running, the parent is running, and no sibling after that
/// child was consulted.
pub proof fn running_propagates(
    selector: bool,
    children: Seq<Tree>,
    names: Names,
    flight: Flight,
    ts: Seq<Trace>,
    k: int,
)
    requires
        fits(
            if selector {
                Tree::Selector(children)
            } else {
                Tree::Sequence(children)
            },
            names,
            flight,
            Trace::Composite(ts),
        ),
        0 <= k < ts.len(),
        outcome(children[k], ts[k]) == Ok::<NodeResult, Fault>(NodeResult::Running),
    ensures
        k == ts.len() - 1,
        outcome(
            if selector {
                Tree::Selector(children)
            } else {
                Tree::Sequence(children)
            },
            Trace::Composite(ts),
        ) == Ok::<NodeResult, Fault>(NodeResult::Running),
{
    if selector {
        selector_stops_at(children, names, flight, ts, k);
    } else {
        sequence_stops_at(children, names, flight, ts, k);
    }
}

/// A configuration error is surfaced at once: where a consulted child of a
/// sequence or of a selector ends in an error, that error is the outcome of
/// the parent, and no sibling after that child was consulted.
pub proof fn error_aborts_composite(
    selector: bool,
    children: Seq<Tree>,
    names: Names,
    flight: Flight,
    ts: Seq<Trace>,
    k: int,
    fault: Fault,
)
    requires
        fits(
            if selector {
                Tree::Selector(children)
            } else {
                Tree::Sequence(children)
            },
            names,
            flight,
            Trace::Composite(ts),
        ),
        0 <= k < ts.len(),
        outcome(children[k], ts[k]) == Err::<NodeResult, Fault>(fault),
    ensures
        k == ts.len() - 1,
        outcome(
            if selector {
                Tree::Selector(children)
            } else {
                Tree::Sequence(children)
            },
            Trace::Composite(ts),
        ) == Err::<NodeResult, Fault>(fault),
{
    if selector {
        selector_stops_at(children, names, flight, ts, k);
    } else {
        sequence_stops_at(children, names, flight, ts, k);
    }
}

/// A root hands the tick to its child and the child's outcome on, unchanged.
pub proof fn root_hands_on(child: Tree, names: Names, flight: Flight, trace: Trace)
    requires
        fits(Tree::Root(Box::new(child)), names, flight, trace),
    ensures
        ({
            &&& trace matches Trace::Root(sub)
            &&& fits(child, names, flight, *sub)
            &&& outcome(Tree::Root(Box::new(child)), trace) == outcome(child, *sub)
            &&& after(Tree::Root(Box::new(child)), trace) == Tree::Root(Box::new(after(child, *sub)))
            &&& flight_after(Tree::Root(Box::new(child)), names, flight, trace) == flight_after(
                child,
                names,
                flight,
                *sub,
            )
        }),
{
}

/// The answer of a registered condition is its handler's: the leaf gives
/// `Success` for a yes and `Failure` for a no that the handler may give on
/// the arguments of the leaf, and nothing else.
pub proof fn condition_answer_is_the_handlers(call: Call, names: Names, flight: Flight, trace: Trace)
    requires
        names.conditions.contains(call.name),
        fits(Tree::Condition(call), names, flight, trace),
    ensures
        exists|flag: bool|
            #[trigger] names.may_answer(call.name, call.args, flag) && outcome(Tree::Condition(call), trace) == Ok::<
                NodeResult,
                Fault,
            >(NodeResult::of_flag(flag)),
{
    match trace {
        Trace::Condition(Ok(flag)) => {
            assert(names.may_answer(call.name, call.args, flag));
        },
        _ => {},
    }
}

/// The status of a registered synchronous action is its handler's: the
/// leaf gives a status that the handler may report on the arguments of the
/// leaf, unchanged, and nothing else.
pub proof fn action_status_is_the_handlers(call: Call, names: Names, flight: Flight, trace: Trace)
    requires
        names.actions.contains(call.name),
        !names.deferred.contains(call.name),
        fits(Tree::Action(call), names, flight, trace),
    ensures
        exists|status: NodeResult|
            #[trigger] names.may_report(call.name, call.args, status) && outcome(Tree::Action(call), trace) == Ok::<
                NodeResult,
                Fault,
            >(status),
{
    match trace {
        Trace::Action(Ok(status), _, _) => {
            assert(names.may_report(call.name, call.args, status));
        },
        _ => {},
    }
}

/// A tree keeps no memory of its own between ticks: where it holds no
/// lotto node and no asynchronous action, a tick leaves the tree and the
/// effects in flight exactly as it found them.
pub proof fn memoryless_tick_leaves_no_mark(tree: Tree, names: Names, flight: Flight, trace: Trace)
    requires
        memoryless(tree, names),
    ensures
        after(tree, trace) == tree,
        flight_after(tree, names, flight, trace) == flight,
    decreases trace,
{
    reveal_with_fuel(after, 2);
    reveal_with_fuel(settled, 2);
    reveal_with_fuel(flight_after, 2);
    reveal_with_fuel(memoryless, 2);
    reveal_with_fuel(all_memoryless, 2);
    match (tree, trace) {
        (Tree::Root(child), Trace::Root(t)) => {
            memoryless_tick_leaves_no_mark(*child, names, flight, *t);
        },
        (Tree::Sequence(children), Trace::Composite(ts)) => {
            lemma_memoryless_children(children, names, flight, ts, ts.len());
            assert(settled(children, ts) =~= children);
        },
        (Tree::Selector(children), Trace::Composite(ts)) => {
            lemma_memoryless_children(children, names, flight, ts, ts.len());
            assert(settled(children, ts) =~= children);
        },
        (Tree::While(_, child), Trace::While(_, Some(t))) => {
            memoryless_tick_leaves_no_mark(*child, names, flight, *t);
        },
        _ => {},
    }
}

/// The children of a composite that draws nothing and waits for nothing
/// are left as they were, and so are the effects in flight.
proof fn lemma_memoryless_children(children: Seq<Tree>, names: Names, flight: Flight, ts: Seq<Trace>, count: nat)
    requires
        all_memoryless(children, names),
        count <= ts.len(),
    ensures
        flight_through(children, names, flight, ts, count) == flight,
        forall|j: int| 0 <= j < children.len() ==> #[trigger] settled(children, ts)[j] == children[j],
    decreases ts, count,
{
    reveal_with_fuel(settled, 2);
    reveal_with_fuel(flight_through, 2);
    reveal_with_fuel(all_memoryless, 2);
    if 0 < count && count <= children.len() {
        lemma_memoryless_children(children, names, flight, ts, (count - 1) as nat);
        memoryless_tick_leaves_no_mark(children[count - 1], names, flight, ts[count - 1]);
    }
    assert forall|j: int| 0 <= j < children.len() implies #[trigger] settled(children, ts)[j] == children[j] by {
        if j < ts.len() {
            memoryless_tick_leaves_no_mark(children[j], names, flight, ts[j]);
        }
    }
}

/// Ticks repeat: over a tree that holds no lotto node and no asynchronous
/// action, with handlers that give one answer only on given arguments, any
/// two ticks end in the same outcome, whatever was in flight.
pub proof fn memoryless_tick_is_determined(
    tree: Tree,
    names: Names,
    flight: Flight,
    trace: Trace,
    later: Flight,
    again: Trace,
)
    requires
        single_valued(names),
        memoryless(tree, names),
        fits(tree, names, flight, trace),
        fits(tree, names, later, again),
    ensures
        outcome(tree, trace) == outcome(tree, again),
    decreases tree,
{
    reveal_with_fuel(outcome, 2);
    reveal_with_fuel(composite_outcome, 2);
    reveal_with_fuel(fits, 2);
    reveal_with_fuel(memoryless, 2);
    match (tree, trace, again) {
        (Tree::Root(child), Trace::Root(t), Trace::Root(u)) => {
            memoryless_tick_is_determined(*child, names, flight, *t, later, *u);
        },
        (Tree::Sequence(children), Trace::Composite(ts), Trace::Composite(us)) => {
            lemma_same_children_consulted(NodeResult::Success, children, names, flight, ts, later, us);
        },
        (Tree::Selector(children), Trace::Composite(ts), Trace::Composite(us)) => {
            lemma_same_children_consulted(NodeResult::Failure, children, names, flight, ts, later, us);
        },
        (Tree::While(guard, child), Trace::While(answer, sub), Trace::While(other, more)) => {
            if names.conditions.contains(guard.name) {
                match (sub, more) {
                    (Some(t), Some(u)) => {
                        memoryless_tick_is_determined(*child, names, flight, *t, later, *u);
                    },
                    _ => {},
                }
            }
        },
        _ => {},
    }
}

/// Two ticks of a composite that draws nothing and waits for nothing
/// consult the same children and end in the same outcome.
proof fn lemma_same_children_consulted(
    proceed: NodeResult,
    children: Seq<Tree>,
    names: Names,
    flight: Flight,
    ts: Seq<Trace>,
    later: Flight,
    us: Seq<Trace>,
)
    requires
        single_valued(names),
        all_memoryless(children, names),
        consulted_in_order(proceed, children, ts),
        consulted_in_order(proceed, children, us),
        forall|j: int|
            0 <= j < ts.len() ==> fits(
                children[j],
                names,
                flight_through(children, names, flight, ts, j as nat),
                #[trigger] ts[j],
            ),
        forall|j: int|
            0 <= j < us.len() ==> fits(
                children[j],
                names,
                flight_through(children, names, later, us, j as nat),
                #[trigger] us[j],
            ),
    ensures
        ts.len() == us.len(),
        composite_outcome(proceed, children, ts) == composite_outcome(proceed, children, us),
    decreases children,
{
    assert forall|j: int| 0 <= j < ts.len() && j < us.len() implies outcome(children[j], ts[j]) == outcome(
        children[j],
        us[j],
    ) by {
        assert(fits(children[j], names, flight_through(children, names, flight, ts, j as nat), ts[j]));
        assert(fits(children[j], names, flight_through(children, names, later, us, j as nat), us[j]));
        assert(memoryless(children[j], names));
        memoryless_tick_is_determined(
            children[j],
            names,
            flight_through(children, names, flight, ts, j as nat),
            ts[j],
            flight_through(children, names, later, us, j as nat),
            us[j],
        );
    }
    if ts.len() < us.len() {
        if ts.len() > 0 {
            let last = ts.len() - 1;
            assert(outcome(children[last], ts[last]) == outcome(children[last], us[last]));
        }
    } else if us.len() < ts.len() {
        if us.len() > 0 {
            let last = us.len() - 1;
            assert(outcome(children[last], ts[last]) == outcome(children[last], us[last]));
        }
    }
}

/// A condition whose handler can only say `flag` on the arguments of its
/// leaf makes every tick of the leaf end in the status of `flag`.
pub proof fn constant_condition_is_forced(call: Call, names: Names, flag: bool)
    requires
        names.conditions.contains(call.name),
        forall|answer: bool| #[trigger] names.may_answer(call.name, call.args, answer) ==> answer == flag,
    ensures
        forced(Tree::Condition(call), names, Ok(NodeResult::of_flag(flag))),
{
    assert forall|flight: Flight, trace: Trace| #[trigger]
        fits(Tree::Condition(call), names, flight, trace) implies outcome(Tree::Condition(call), trace) == Ok::<
        NodeResult,
        Fault,
    >(NodeResult::of_flag(flag)) by {
        match trace {
            Trace::Condition(Ok(answer)) => {
                assert(names.may_answer(call.name, call.args, answer));
            },
            _ => {},
        }
    }
}

/// A synchronous action whose handler can only report `status` on the
/// arguments of its leaf makes every tick of the leaf end in `status`.
pub proof fn constant_action_is_forced(call: Call, names: Names, status: NodeResult)
    requires
        names.actions.contains(call.name),
        !names.deferred.contains(call.name),
        forall|reported: NodeResult| #[trigger] names.may_report(call.name, call.args, reported) ==> reported == status,
    ensures
        forced(Tree::Action(call), names, Ok(status)),
{
    assert forall|flight: Flight, trace: Trace| #[trigger]
        fits(Tree::Action(call), names, flight, trace) implies outcome(Tree::Action(call), trace) == Ok::<
        NodeResult,
        Fault,
    >(status) by {
        match trace {
            Trace::Action(Ok(reported), _, _) => {
                assert(names.may_report(call.name, call.args, reported));
            },
            _ => {},
        }
    }
}

/// A sequence or a selector over children that each can end in one outcome
/// only stops at the first child whose outcome does not let it go on: that
/// child and those before it are consulted, no other, and the outcome of
/// that child is the outcome of the parent.
pub proof fn composite_stops_at_first_decider(
    selector: bool,
    children: Seq<Tree>,
    outcomes: Seq<Result<NodeResult, Fault>>,
    k: int,
    names: Names,
    flight: Flight,
    ts: Seq<Trace>,
)
    requires
        outcomes.len() == children.len(),
        forall|j: int| 0 <= j < children.len() ==> forced(#[trigger] children[j], names, outcomes[j]),
        0 <= k < children.len(),
        forall|j: int|
            0 <= j < k ==> #[trigger] outcomes[j] == Ok::<NodeResult, Fault>(
                if selector {
                    NodeResult::Failure
                } else {
                    NodeResult::Success
                },
            ),
        outcomes[k] != Ok::<NodeResult, Fault>(
            if selector {
                NodeResult::Failure
            } else {
                NodeResult::Success
            },
        ),
        fits(
            if selector {
                Tree::Selector(children)
            } else {
                Tree::Sequence(children)
            },
            names,
            flight,
            Trace::Composite(ts),
        ),
    ensures
        ts.len() == k + 1,
        outcome(
            if selector {
                Tree::Selector(children)
            } else {
                Tree::Sequence(children)
            },
            Trace::Composite(ts),
        ) == outcomes[k],
{
    reveal_with_fuel(outcome, 2);
    reveal_with_fuel(composite_outcome, 2);
    assert forall|j: int| 0 <= j < ts.len() implies outcome(children[j], ts[j]) == outcomes[j] by {
        assert(fits(children[j], names, flight_through(children, names, flight, ts, j as nat), ts[j]));
        assert(forced(children[j], names, outcomes[j]));
    }
    if ts.len() > k + 1 {
        assert(outcome(children[k], ts[k]) == outcomes[k]);
    } else if ts.len() < k + 1 {
        let last = ts.len() - 1;
        assert(outcome(children[last], ts[last]) == outcomes[last]);
    } else {
        assert(outcome(children[k], ts[k]) == outcomes[k]);
    }
}

/// A sequence or a selector over children that each can only end in the
/// status on which it goes on consults them all and ends in that status.
pub proof fn composite_runs_through(
    selector: bool,
    children: Seq<Tree>,
    names: Names,
    flight: Flight,
    ts: Seq<Trace>,
)
    requires
        forall|j: int|
            0 <= j < children.len() ==> forced(
                #[trigger] children[j],
                names,
                Ok(
                    if selector {
                        NodeResult::Failure
                    } else {
                        NodeResult::Success
                    },
                ),
            ),
        fits(
            if selector {
                Tree::Selector(children)
            } else {
                Tree::Sequence(children)
            },
            names,
            flight,
            Trace::Composite(ts),
        ),
    ensures
        ts.len() == children.len(),
        outcome(
            if selector {
                Tree::Selector(children)
            } else {
                Tree::Sequence(children)
            },
            Trace::Composite(ts),
        ) == Ok::<NodeResult, Fault>(
            if selector {
                NodeResult::Failure
            } else {
                NodeResult::Success
            },
        ),
{
    reveal_with_fuel(outcome, 2);
    reveal_with_fuel(composite_outcome, 2);
    assert forall|j: int| 0 <= j < ts.len() implies outcome(children[j], ts[j]) == Ok::<NodeResult, Fault>(
        if selector {
            NodeResult::Failure
        } else {
            NodeResult::Success
        },
    ) by {
        assert(fits(children[j], names, flight_through(children, names, flight, ts, j as nat), ts[j]));
    }
    if 0 < ts.len() < children.len() {
        let last = ts.len() - 1;
        assert(outcome(children[last], ts[last]) == Ok::<NodeResult, Fault>(
            if selector {
                NodeResult::Failure
            } else {
                NodeResult::Success
            },
        ));
    }
}

/// Selector and sequence mirror each other: where each child of a selector
/// ends in the mirror image of what the child at its place in a sequence
/// ends in, the two ticks consult the same number of children, and the
/// selector ends in the mirror image of what the sequence ends in.
pub proof fn selector_mirrors_sequence(
    choices: Seq<Tree>,
    steps: Seq<Tree>,
    names: Names,
    flight: Flight,
    ts: Seq<Trace>,
    later: Flight,
    us: Seq<Trace>,
)
    requires
        choices.len() == steps.len(),
        fits(Tree::Selector(choices), names, flight, Trace::Composite(ts)),
        fits(Tree::Sequence(steps), names, later, Trace::Composite(us)),
        forall|j: int|
            0 <= j < ts.len() && j < us.len() ==> outcome(choices[j], ts[j]) == mirrored(outcome(steps[j], us[j])),
    ensures
        ts.len() == us.len(),
        outcome(Tree::Selector(choices), Trace::Composite(ts)) == mirrored(
            outcome(Tree::Sequence(steps), Trace::Composite(us)),
        ),
{
    reveal_with_fuel(outcome, 2);
    reveal_with_fuel(composite_outcome, 2);
    if ts.len() < us.len() {
        if ts.len() > 0 {
            let last = ts.len() - 1;
            assert(outcome(choices[last], ts[last]) == mirrored(outcome(steps[last], us[last])));
        }
    } else if us.len() < ts.len() {
        if us.len() > 0 {
            let last = us.len() - 1;
            assert(outcome(choices[last], ts[last]) == mirrored(outcome(steps[last], us[last])));
        }
    } else if ts.len() > 0 {
        let last = ts.len() - 1;
        assert(outcome(choices[last], ts[last]) == mirrored(outcome(steps[last], us[last])));
    }
}

/// Nesting does not matter to a sequence: where the children end in the
/// same outcomes whenever they are ticked, a sequence of a first child and
/// the sequence of the others ends as the flat sequence of all of them does.
pub proof fn nested_sequence_ticks_like_flat(
    first: Tree,
    others: Seq<Tree>,
    names: Names,
    flight: Flight,
    nested: Trace,
    later: Flight,
    flat: Trace,
)
    requires
        single_valued(names),
        memoryless(first, names),
        all_memoryless(others, names),
        others.len() > 0,
        fits(Tree::Sequence(seq![first, Tree::Sequence(others)]), names, flight, nested),
        fits(Tree::Sequence(seq![first] + others), names, later, flat),
    ensures
        outcome(Tree::Sequence(seq![first, Tree::Sequence(others)]), nested) == outcome(
            Tree::Sequence(seq![first] + others),
            flat,
        ),
{
    reveal_with_fuel(outcome, 3);
    reveal_with_fuel(composite_outcome, 3);
    reveal_with_fuel(fits, 2);
    reveal_with_fuel(all_memoryless, 2);
    let outer = seq![first, Tree::Sequence(others)];
    let all = seq![first] + others;
    match (nested, flat) {
        (Trace::Composite(ts), Trace::Composite(us)) => {
            assert(outer[0] == first);
            assert(all[0] == first);
            assert(fits(first, names, flight_through(outer, names, flight, ts, 0), ts[0]));
            assert(fits(first, names, flight_through(all, names, later, us, 0), us[0]));
            memoryless_tick_is_determined(
                first,
                names,
                flight_through(outer, names, flight, ts, 0),
                ts[0],
                flight_through(all, names, later, us, 0),
                us[0],
            );
            if ts.len() == 2 {
                assert(outer[1] == Tree::Sequence(others));
                let inner_flight = flight_through(outer, names, flight, ts, 1);
                assert(fits(Tree::Sequence(others), names, inner_flight, ts[1]));
                match ts[1] {
                    Trace::Composite(vs) => {
                        let rest = us.subrange(1, us.len() as int);
                        let rest_flight = flight_through(all, names, later, us, 1);
                        assert forall|j: int| 0 <= j < rest.len() implies fits(
                            others[j],
                            names,
                            flight_through(all, names, later, us, (j + 1) as nat),
                            #[trigger] rest[j],
                        ) by {
                            assert(rest[j] == us[j + 1]);
                            assert(all[j + 1] == others[j]);
                        }
                        assert forall|j: int| 0 <= j < vs.len() && j < rest.len() implies outcome(others[j], vs[j])
                            == outcome(others[j], rest[j]) by {
                            assert(fits(others[j], names, flight_through(others, names, inner_flight, vs, j as nat), vs[j]));
                            memoryless_tick_is_determined(
                                others[j],
                                names,
                                flight_through(others, names, inner_flight, vs, j as nat),
                                vs[j],
                                flight_through(all, names, later, us, (j + 1) as nat),
                                rest[j],
                            );
                        }
                        assert forall|j: int| 0 <= j < rest.len() implies outcome(others[j], rest[j]) == outcome(
                            all[j + 1],
                            us[j + 1],
                        ) by {
                            assert(rest[j] == us[j + 1]);
                            assert(all[j + 1] == others[j]);
                        }
                        if vs.len() < rest.len() {
                            let last = vs.len() - 1;
                            assert(outcome(others[last], vs[last]) == outcome(others[last], rest[last]));
                            assert(outcome(all[last + 1], us[last + 1]) == Ok::<NodeResult, Fault>(NodeResult::Success));
                        } else if rest.len() < vs.len() {
                            if rest.len() > 0 {
                                let last = rest.len() - 1;
                                assert(outcome(others[last], vs[last]) == outcome(others[last], rest[last]));
                            }
                        } else {
                            let last = vs.len() - 1;
                            assert(outcome(others[last], vs[last]) == outcome(others[last], rest[last]));
                        }
                    },
                    _ => {},
                }
            }
        },
        _ => {},
    }
}

/// A condition leaf answers `Success` or `Failure`, never `Running`, leaves
/// tree and effects as they were, and ends in an error exactly when nobody
/// registered its name.
pub proof fn condition_observes(call: Call, names: Names, flight: Flight, trace: Trace)
    requires
        fits(Tree::Condition(call), names, flight, trace),
    ensures
        outcome(Tree::Condition(call), trace) != Ok::<NodeResult, Fault>(NodeResult::Running),
        outcome(Tree::Condition(call), trace) is Err <==> !names.conditions.contains(call.name),
        outcome(Tree::Condition(call), trace) is Err ==> outcome(Tree::Condition(call), trace) == Err::<
            NodeResult,
            Fault,
        >(Fault::ConditionNotFound(call.name)),
        after(Tree::Condition(call), trace) == Tree::Condition(call),
        flight_after(Tree::Condition(call), names, flight, trace) == flight,
{
}

/// An action leaf ends in an error exactly when nobody registered its name,
/// and a synchronous action leaves the effects as they were.
pub proof fn action_resolves_by_name(call: Call, names: Names, flight: Flight, trace: Trace)
    requires
        names.deferred.subset_of(names.actions),
        fits(Tree::Action(call), names, flight, trace),
    ensures
        outcome(Tree::Action(call), trace) is Err <==> !names.actions.contains(call.name),
        outcome(Tree::Action(call), trace) is Err ==> outcome(Tree::Action(call), trace) == Err::<NodeResult, Fault>(
            Fault::ActionNotFound(call.name),
        ),
        !names.deferred.contains(call.name) ==> flight_after(Tree::Action(call), names, flight, trace) == flight,
        after(Tree::Action(call), trace) == Tree::Action(call),
{
}

/// A guard that does not hold fails the node without a tick of the child:
/// the trace holds nothing of the child, the tree stays as it was, and no
/// effect is started, polled or dropped.
pub proof fn false_guard_skips_child(guard: Call, child: Tree, names: Names, flight: Flight, trace: Trace)
    requires
        fits(Tree::While(guard, Box::new(child)), names, flight, trace),
        trace matches Trace::While(Ok(false), _),
    ensures
        trace == Trace::While(Ok(false), None),
        outcome(Tree::While(guard, Box::new(child)), trace) == Ok::<NodeResult, Fault>(NodeResult::Failure),
        after(Tree::While(guard, Box::new(child)), trace) == Tree::While(guard, Box::new(child)),
        flight_after(Tree::While(guard, Box::new(child)), names, flight, trace) == flight,
{
}

/// A guard that holds hands the tick to the child: outcome, tree and
/// effects are those of the child's own tick.
pub proof fn true_guard_enters_child(guard: Call, child: Tree, names: Names, flight: Flight, trace: Trace)
    requires
        fits(Tree::While(guard, Box::new(child)), names, flight, trace),
        trace matches Trace::While(Ok(true), _),
    ensures
        ({
            &&& trace matches Trace::While(_, Some(sub))
            &&& fits(child, names, flight, *sub)
            &&& outcome(Tree::While(guard, Box::new(child)), trace) == outcome(child, *sub)
            &&& after(Tree::While(guard, Box::new(child)), trace) == Tree::While(guard, Box::new(after(child, *sub)))
            &&& flight_after(Tree::While(guard, Box::new(child)), names, flight, trace) == flight_after(
                child,
                names,
                flight,
                *sub,
            )
        }),
{
}

/// A lotto node that is committed to no child draws once, from the
/// registered source, and ticks the child at the remainder of the number
/// drawn by the number of its children.
pub proof fn free_lotto_draws_from_the_source(children: Seq<Tree>, names: Names, flight: Flight, trace: Trace)
    requires
        children.len() > 0,
        fits(Tree::Lotto(children, None), names, flight, trace),
    ensures
        ({
            &&& trace matches Trace::Lotto(Some(index), Some(sub))
            &&& exists|number: u128| #[trigger] names.may_draw(number) && index == number as int % children.len() as int
            &&& index < children.len()
            &&& fits(children[index as int], names, flight, *sub)
            &&& outcome(Tree::Lotto(children, None), trace) == outcome(children[index as int], *sub)
        }),
{
}

/// A lotto node that is committed to a child draws nothing and ticks that
/// child.
pub proof fn committed_lotto_does_not_draw(
    children: Seq<Tree>,
    k: nat,
    names: Names,
    flight: Flight,
    trace: Trace,
)
    requires
        k < children.len(),
        fits(Tree::Lotto(children, Some(k)), names, flight, trace),
    ensures
        ({
            &&& trace matches Trace::Lotto(None, Some(sub))
            &&& fits(children[k as int], names, flight, *sub)
            &&& outcome(Tree::Lotto(children, Some(k)), trace) == outcome(children[k as int], *sub)
        }),
{
}

/// A lotto node stays with the child it ticked exactly as long as that
/// child is running: after the tick it is committed to that child where the
/// outcome is `Running`, and to none otherwise.
pub proof fn lotto_commits_while_running(
    children: Seq<Tree>,
    chosen: Option<nat>,
    names: Names,
    flight: Flight,
    trace: Trace,
)
    requires
        children.len() > 0,
        fits(Tree::Lotto(children, chosen), names, flight, trace),
    ensures
        ({
            &&& trace matches Trace::Lotto(drawn, Some(sub))
            &&& lotto_target(children, chosen, drawn) matches Some(k)
            &&& k < children.len()
            &&& outcome(Tree::Lotto(children, chosen), trace) == outcome(children[k as int], *sub)
            &&& after(Tree::Lotto(children, chosen), trace) == Tree::Lotto(
                children.update(k as int, after(children[k as int], *sub)),
                if outcome(children[k as int], *sub) == Ok::<NodeResult, Fault>(NodeResult::Running) {
                    Some(k)
                } else {
                    None
                },
            )
        }),
{
}

/// A lotto node does not draw again while its child is running: where one
/// tick ends with `Running`, the next tick draws nothing and ticks the
/// child that the first one ticked.
pub proof fn lotto_reticks_running_child(
    children: Seq<Tree>,
    chosen: Option<nat>,
    names: Names,
    flight: Flight,
    first: Trace,
    later: Flight,
    second: Trace,
)
    requires
        fits(Tree::Lotto(children, chosen), names, flight, first),
        outcome(Tree::Lotto(children, chosen), first) == Ok::<NodeResult, Fault>(NodeResult::Running),
        fits(after(Tree::Lotto(children, chosen), first), names, later, second),
    ensures
        ({
            &&& first matches Trace::Lotto(drawn, Some(sub))
            &&& lotto_target(children, chosen, drawn) matches Some(k)
            &&& k < children.len()
            &&& after(Tree::Lotto(children, chosen), first) matches Tree::Lotto(left, Some(kept))
            &&& kept == k
            &&& left.len() == children.len()
            &&& left[k as int] == after(children[k as int], *sub)
            &&& second matches Trace::Lotto(None, Some(again))
            &&& fits(left[k as int], names, later, *again)
        }),
{
    if children.len() > 0 {
        lotto_commits_while_running(children, chosen, names, flight, first);
    }
}

/// The first tick of an asynchronous action starts its effect: with no
/// effect in flight under the action's dedup key, the tick reports
/// `Running`, one effect more has been started, and the key is in flight.
pub proof fn async_action_starts_once(call: Call, names: Names, flight: Flight, trace: Trace)
    requires
        names.deferred.contains(call.name),
        !flight.in_flight().contains(dedup_key(call.name, call.args)),
        fits(Tree::Action(call), names, flight, trace),
    ensures
        outcome(Tree::Action(call), trace) == Ok::<NodeResult, Fault>(NodeResult::Running),
        ({
            &&& trace matches Trace::Action(_, _, fresh)
            &&& flight_after(Tree::Action(call), names, flight, trace) == (Flight {
                handles: flight.handles.insert(dedup_key(call.name, call.args), fresh),
                launches: flight.launches + 1,
            })
        }),
        flight_after(Tree::Action(call), names, flight, trace).in_flight() == flight.in_flight().insert(
            dedup_key(call.name, call.args),
        ),
{
}

/// A tick of an asynchronous action whose effect is in flight and has not
/// completed reports `Running` and changes nothing: no effect is started.
pub proof fn pending_effect_is_not_restarted(call: Call, names: Names, flight: Flight, trace: Trace)
    requires
        names.deferred.contains(call.name),
        flight.in_flight().contains(dedup_key(call.name, call.args)),
        fits(Tree::Action(call), names, flight, trace),
        trace matches Trace::Action(_, None, _),
    ensures
        outcome(Tree::Action(call), trace) == Ok::<NodeResult, Fault>(NodeResult::Running),
        flight_after(Tree::Action(call), names, flight, trace) == flight,
{
}

/// The tick that finds an effect completed reports the status of its
/// completion flag, `Success` for `true` and `Failure` for `false`, starts
/// nothing, and takes the key out of flight, so that the next tick of the
/// action starts afresh.
pub proof fn completed_effect_resolves(call: Call, names: Names, flight: Flight, trace: Trace, flag: bool)
    requires
        names.deferred.contains(call.name),
        flight.in_flight().contains(dedup_key(call.name, call.args)),
        fits(Tree::Action(call), names, flight, trace),
        trace matches Trace::Action(_, Some(polled), _) && polled == flag,
    ensures
        outcome(Tree::Action(call), trace) == Ok::<NodeResult, Fault>(NodeResult::of_flag(flag)),
        flight_after(Tree::Action(call), names, flight, trace) == (Flight {
            handles: flight.handles.remove(dedup_key(call.name, call.args)),
            launches: flight.launches,
        }),
        !flight_after(Tree::Action(call), names, flight, trace).in_flight().contains(
            dedup_key(call.name, call.args),
        ),
{
}

/// A tick of an action touches the effect under its own dedup key and no
/// other: every other key is in flight after the tick exactly if it was
/// before, and keeps the receiving end it had.  Starting an effect under
/// new arguments replaces nothing that is in flight.
pub proof fn other_effects_keep_their_handles(
    call: Call,
    names: Names,
    flight: Flight,
    trace: Trace,
    other: Seq<char>,
)
    requires
        fits(Tree::Action(call), names, flight, trace),
        other != dedup_key(call.name, call.args),
    ensures
        flight_after(Tree::Action(call), names, flight, trace).handles.contains_key(other)
            == flight.handles.contains_key(other),
        flight.handles.contains_key(other) ==> flight_after(Tree::Action(call), names, flight, trace).handles[other]
            == flight.handles[other],
{
}

/// A poll that finds no completion flag leaves every effect in flight with
/// the receiving end it had, the polled one included.
pub proof fn unanswered_poll_keeps_every_handle(call: Call, names: Names, flight: Flight, trace: Trace)
    requires
        names.deferred.contains(call.name),
        flight.in_flight().contains(dedup_key(call.name, call.args)),
        fits(Tree::Action(call), names, flight, trace),
        trace matches Trace::Action(_, None, _),
    ensures
        flight_after(Tree::Action(call), names, flight, trace).handles == flight.handles,
{
}

/// Whether `traces` record consecutive ticks of the action leaf `call`,
/// each started with the effects the one before left: `flights` holds the
/// effects before the first tick and after each one.
pub open spec fn consecutive_ticks(call: Call, names: Names, flights: Seq<Flight>, traces: Seq<Trace>) -> bool {
    &&& flights.len() == traces.len() + 1
    &&& forall|i: int|
        0 <= i < traces.len() ==> {
            &&& fits(Tree::Action(call), names, flights[i], #[trigger] traces[i])
            &&& flights[i + 1] == flight_after(Tree::Action(call), names, flights[i], traces[i])
        }
}

/// Bridging is idempotent: any number of consecutive ticks of an
/// asynchronous action, from the one that finds no effect in flight under
/// its dedup key and for as long as no poll finds the effect completed, all
/// report `Running` and start exactly one effect between them.
pub proof fn dedup_is_idempotent(call: Call, names: Names, flights: Seq<Flight>, traces: Seq<Trace>)
    requires
        names.deferred.contains(call.name),
        traces.len() >= 1,
        consecutive_ticks(call, names, flights, traces),
        !flights[0].in_flight().contains(dedup_key(call.name, call.args)),
        forall|i: int| 1 <= i < traces.len() ==> (#[trigger] traces[i]) matches Trace::Action(_, None, _),
    ensures
        forall|i: int|
            0 <= i < traces.len() ==> outcome(Tree::Action(call), #[trigger] traces[i]) == Ok::<NodeResult, Fault>(
                NodeResult::Running,
            ),
        flights.last().launches == flights[0].launches + 1,
        flights.last().in_flight() == flights[0].in_flight().insert(dedup_key(call.name, call.args)),
        flights.last() == flights[1],
    decreases traces.len(),
{
    let key = dedup_key(call.name, call.args);
    if traces.len() == 1 {
        async_action_starts_once(call, names, flights[0], traces[0]);
    } else {
        let fewer = traces.drop_last();
        let before = flights.drop_last();
        assert(consecutive_ticks(call, names, before, fewer)) by {
            assert forall|i: int| 0 <= i < fewer.len() implies {
                &&& fits(Tree::Action(call), names, before[i], #[trigger] fewer[i])
                &&& before[i + 1] == flight_after(Tree::Action(call), names, before[i], fewer[i])
            } by {
                assert(fewer[i] == traces[i]);
            }
        }
        assert forall|i: int| 1 <= i < fewer.len() implies (#[trigger] fewer[i]) matches Trace::Action(_, None, _) by {
            assert(fewer[i] == traces[i]);
        }
        dedup_is_idempotent(call, names, before, fewer);
        let last = traces.len() - 1;
        assert(before.last() == flights[last]);
        assert(flights[last].in_flight().contains(key));
        pending_effect_is_not_restarted(call, names, flights[last], traces[last]);
        assert forall|i: int| 0 <= i < traces.len() implies outcome(Tree::Action(call), #[trigger] traces[i]) == Ok::<
            NodeResult,
            Fault,
        >(NodeResult::Running) by {
            if i < last {
                assert(fewer[i] == traces[i]);
            }
        }
    }
}

} // verus!
