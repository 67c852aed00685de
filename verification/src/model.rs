//! The mathematical model of a tree, of one tick over it, and of what a tick
//! leaves behind.
//!
//! A tick is described by a [`Trace`]: the children that were consulted, and
//! what every handler, every poll and every draw gave.  Three functions read
//! a trace against a tree: [`fits`] says whether the tick followed the rule
//! of every node kind, [`outcome`] what it yielded, [`after`] what tree it
//! left.  [`flight_after`] says which effects it left in flight.

use vstd::prelude::*;
use crate::key::dedup_key;
use crate::status::NodeResult;
use crate::tracker::{bridged, Flight};

verus! {

/// An argument of a condition or an action, carried through unread.
#[verifier::external_type_specification]
#[verifier::external_body]
pub struct ExValue(serde_json::Value);

/// A named handler together with the arguments it is invoked with.
pub struct Call {
    pub name: Seq<char>,
    pub args: Seq<serde_json::Value>,
}

/// A configuration error that aborts a tick.
pub enum Fault {
    /// A condition leaf or a guard names a condition nobody registered.
    ConditionNotFound(Seq<char>),
    /// An action leaf names an action nobody registered.
    ActionNotFound(Seq<char>),
}

/// The names a registry resolves, and what the handlers behind them may give.
pub struct Names {
    /// The registered conditions.
    pub conditions: Set<Seq<char>>,
    /// The registered actions, synchronous and asynchronous.
    pub actions: Set<Seq<char>>,
    /// The registered actions that are asynchronous.
    pub deferred: Set<Seq<char>>,
    /// Whether the condition of a name may give an answer on given arguments.
    pub answers: spec_fn(Seq<char>, Seq<serde_json::Value>, bool) -> bool,
    /// Whether the synchronous action of a name may report a status on
    /// given arguments.
    pub reports: spec_fn(Seq<char>, Seq<serde_json::Value>, NodeResult) -> bool,
    /// Whether the spawner of the asynchronous action of a name may have
    /// been started on given arguments, with a given sender to report
    /// through.
    pub starts: spec_fn(Seq<char>, Seq<serde_json::Value>, async_channel::Sender<bool>) -> bool,
    /// Whether the source of draws may give a number.
    pub draws: spec_fn(u128) -> bool,
}

impl Names {
    /// Whether the condition `name` may give `answer` on `args`.
    pub open spec fn may_answer(self, name: Seq<char>, args: Seq<serde_json::Value>, answer: bool) -> bool {
        (self.answers)(name, args, answer)
    }

    /// Whether the synchronous action `name` may report `status` on `args`.
    pub open spec fn may_report(self, name: Seq<char>, args: Seq<serde_json::Value>, status: NodeResult) -> bool {
        (self.reports)(name, args, status)
    }

    /// Whether the spawner of the asynchronous action `name` may have been
    /// started on `args`, with `done` to report through.
    pub open spec fn may_start(
        self,
        name: Seq<char>,
        args: Seq<serde_json::Value>,
        done: async_channel::Sender<bool>,
    ) -> bool {
        (self.starts)(name, args, done)
    }

    /// Whether the source of draws may give `number`.
    pub open spec fn may_draw(self, number: u128) -> bool {
        (self.draws)(number)
    }
}

/// Whether `now` resolves the names that `before` resolves, with handlers
/// that may give what those of `before` may give, and has the source of
/// draws that `before` has.
pub open spec fn same_handlers(before: Names, now: Names) -> bool {
    &&& now.conditions == before.conditions
    &&& now.actions == before.actions
    &&& now.deferred == before.deferred
    &&& forall|other: Seq<char>, args: Seq<serde_json::Value>, answer: bool|
        (#[trigger] now.may_answer(other, args, answer)) == before.may_answer(other, args, answer)
    &&& forall|other: Seq<char>, args: Seq<serde_json::Value>, status: NodeResult|
        (#[trigger] now.may_report(other, args, status)) == before.may_report(other, args, status)
    &&& forall|other: Seq<char>, args: Seq<serde_json::Value>, done: async_channel::Sender<bool>|
        (#[trigger] now.may_start(other, args, done)) == before.may_start(other, args, done)
}

/// Whether `now` is `before` with, in place of the source of draws that
/// `before` had, one that may give what `may` says.
pub open spec fn with_draw(before: Names, now: Names, may: spec_fn(u128) -> bool) -> bool {
    &&& same_handlers(before, now)
    &&& forall|number: u128| (#[trigger] now.may_draw(number)) == may(number)
}

/// Whether `now` resolves what `before` resolves and, in place of what
/// `before` had there, the condition `name`, whose handler may give what
/// `may` says.
pub open spec fn with_condition(
    before: Names,
    now: Names,
    name: Seq<char>,
    may: spec_fn(Seq<serde_json::Value>, bool) -> bool,
) -> bool {
    &&& now.conditions == before.conditions.insert(name)
    &&& now.actions == before.actions
    &&& now.deferred == before.deferred
    &&& forall|other: Seq<char>, args: Seq<serde_json::Value>, answer: bool|
        (#[trigger] now.may_answer(other, args, answer)) == if other == name {
            may(args, answer)
        } else {
            before.may_answer(other, args, answer)
        }
    &&& forall|other: Seq<char>, args: Seq<serde_json::Value>, status: NodeResult|
        (#[trigger] now.may_report(other, args, status)) == before.may_report(other, args, status)
    &&& forall|other: Seq<char>, args: Seq<serde_json::Value>, done: async_channel::Sender<bool>|
        (#[trigger] now.may_start(other, args, done)) == before.may_start(other, args, done)
    &&& forall|number: u128| (#[trigger] now.may_draw(number)) == before.may_draw(number)
}

/// Whether `now` resolves what `before` resolves and, in place of what
/// `before` had there, the synchronous action `name`, whose handler may
/// report what `may` says.
pub open spec fn with_action(
    before: Names,
    now: Names,
    name: Seq<char>,
    may: spec_fn(Seq<serde_json::Value>, NodeResult) -> bool,
) -> bool {
    &&& now.conditions == before.conditions
    &&& now.actions == before.actions.insert(name)
    &&& now.deferred == before.deferred.remove(name)
    &&& forall|other: Seq<char>, args: Seq<serde_json::Value>, answer: bool|
        (#[trigger] now.may_answer(other, args, answer)) == before.may_answer(other, args, answer)
    &&& forall|other: Seq<char>, args: Seq<serde_json::Value>, status: NodeResult|
        (#[trigger] now.may_report(other, args, status)) == if other == name {
            may(args, status)
        } else {
            before.may_report(other, args, status)
        }
    &&& forall|other: Seq<char>, args: Seq<serde_json::Value>, done: async_channel::Sender<bool>|
        (#[trigger] now.may_start(other, args, done)) == (other != name && before.may_start(other, args, done))
    &&& forall|number: u128| (#[trigger] now.may_draw(number)) == before.may_draw(number)
}

/// Whether `now` resolves what `before` resolves and, in place of what
/// `before` had there, the asynchronous action `name`, whose spawner may be
/// started as `may` says.
pub open spec fn with_async_action(
    before: Names,
    now: Names,
    name: Seq<char>,
    may: spec_fn(Seq<serde_json::Value>, async_channel::Sender<bool>) -> bool,
) -> bool {
    &&& now.conditions == before.conditions
    &&& now.actions == before.actions.insert(name)
    &&& now.deferred == before.deferred.insert(name)
    &&& forall|other: Seq<char>, args: Seq<serde_json::Value>, answer: bool|
        (#[trigger] now.may_answer(other, args, answer)) == before.may_answer(other, args, answer)
    &&& forall|other: Seq<char>, args: Seq<serde_json::Value>, status: NodeResult|
        (#[trigger] now.may_report(other, args, status)) == (other != name && before.may_report(other, args, status))
    &&& forall|other: Seq<char>, args: Seq<serde_json::Value>, done: async_channel::Sender<bool>|
        (#[trigger] now.may_start(other, args, done)) == if other == name {
            may(args, done)
        } else {
            before.may_start(other, args, done)
        }
    &&& forall|number: u128| (#[trigger] now.may_draw(number)) == before.may_draw(number)
}

/// The shape of a tree and the choice each `Lotto` node is committed to.
pub enum Tree {
    Root(Box<Tree>),
    Sequence(Seq<Tree>),
    Selector(Seq<Tree>),
    Lotto(Seq<Tree>, Option<nat>),
    While(Call, Box<Tree>),
    Condition(Call),
    Action(Call),
}

/// What one tick yields: a status, or the configuration error that aborted it.
pub type Outcome = Result<NodeResult, Fault>;

/// What happened during one tick below one node.
pub enum Trace {
    /// A condition leaf: the answer of its handler.
    Condition(Result<bool, Fault>),
    /// An action leaf: what running the action gave; for an asynchronous
    /// action found in flight, what polling its effect gave; and for one
    /// that was started, the receiving end of its new channel.
    Action(Outcome, Option<bool>, async_channel::Receiver<bool>),
    /// A root: the trace of its child.
    Root(Box<Trace>),
    /// A sequence or selector: the traces of the children consulted, in order.
    Composite(Seq<Trace>),
    /// A lotto: the index drawn at this tick, if one was drawn, and the trace
    /// of the child that was ticked, if there was one.
    Lotto(Option<nat>, Option<Box<Trace>>),
    /// A guarded subtree: the guard's answer and, where the child was ticked, its trace.
    While(Result<bool, Fault>, Option<Box<Trace>>),
}

/// The outcome a condition's answer stands for.
pub open spec fn answer_outcome(answer: Result<bool, Fault>) -> Outcome {
    match answer {
        Ok(flag) => Ok(NodeResult::of_flag(flag)),
        Err(fault) => Err(fault),
    }
}

/// The child a lotto node ticks: the one it is committed to, else the one drawn.
pub open spec fn lotto_target(children: Seq<Tree>, chosen: Option<nat>, drawn: Option<nat>) -> Option<nat> {
    match chosen {
        Some(k) if k < children.len() => Some(k),
        _ => drawn,
    }
}

/// Whether a registry that resolves `names` answers `call` as a condition
/// with `answer`.  An unregistered name is an error; a registered condition
/// gives an answer that its handler may give on the arguments of the call.
pub open spec fn condition_answer(names: Names, call: Call, answer: Result<bool, Fault>) -> bool {
    if names.conditions.contains(call.name) {
        answer matches Ok(flag) && names.may_answer(call.name, call.args, flag)
    } else {
        answer == Err::<bool, Fault>(Fault::ConditionNotFound(call.name))
    }
}

/// Whether a registry that resolves `names`, with the effects of `flight`
/// behind it, answers `call` as an action with `result`, given that a poll,
/// where one is made, gives `polled`.  An unregistered name is an error; an
/// asynchronous action gives the status of its bridging step, and where
/// that step starts the effect, its spawner was started on the arguments of
/// the call; a synchronous one gives a status that its handler may report
/// on the arguments of the call.
pub open spec fn action_answer(
    names: Names,
    flight: Flight,
    call: Call,
    result: Outcome,
    polled: Option<bool>,
    fresh: async_channel::Receiver<bool>,
) -> bool {
    if names.deferred.contains(call.name) {
        &&& result == Ok::<NodeResult, Fault>(
            bridged(flight, dedup_key(call.name, call.args), polled, fresh).status,
        )
        &&& !flight.in_flight().contains(dedup_key(call.name, call.args)) ==> exists|
            done: async_channel::Sender<bool>,
        | names.may_start(call.name, call.args, done)
    } else if names.actions.contains(call.name) {
        result matches Ok(status) && names.may_report(call.name, call.args, status)
    } else {
        result == Err::<NodeResult, Fault>(Fault::ActionNotFound(call.name))
    }
}

/// The effects kept track of after `call` has been run as an action.  Only
/// an asynchronous action changes them, by its bridging step.
pub open spec fn flight_acted(
    names: Names,
    flight: Flight,
    call: Call,
    polled: Option<bool>,
    fresh: async_channel::Receiver<bool>,
) -> Flight {
    if names.deferred.contains(call.name) {
        bridged(flight, dedup_key(call.name, call.args), polled, fresh).flight
    } else {
        flight
    }
}

/// The outcome of the tick that `trace` records over `tree`.
pub open spec fn outcome(tree: Tree, trace: Trace) -> Outcome
    decreases trace,
{
    match (tree, trace) {
        (Tree::Root(child), Trace::Root(t)) => outcome(*child, *t),
        (Tree::Sequence(children), Trace::Composite(ts)) => composite_outcome(NodeResult::Success, children, ts),
        (Tree::Selector(children), Trace::Composite(ts)) => composite_outcome(NodeResult::Failure, children, ts),
        (Tree::Lotto(children, chosen), Trace::Lotto(drawn, Some(t))) => {
            match lotto_target(children, chosen, drawn) {
                Some(k) if k < children.len() => outcome(children[k as int], *t),
                _ => Ok(NodeResult::Failure),
            }
        },
        (Tree::While(_, child), Trace::While(Ok(true), Some(t))) => outcome(*child, *t),
        (Tree::While(_, _), Trace::While(Err(fault), _)) => Err(fault),
        (Tree::Condition(_), Trace::Condition(answer)) => answer_outcome(answer),
        (Tree::Action(_), Trace::Action(result, _, _)) => result,
        _ => Ok(NodeResult::Failure),
    }
}

/// The tree that the tick recorded by `trace` leaves behind: of the same
/// shape, with the commitment of every lotto node on the way brought up to date.
pub open spec fn after(tree: Tree, trace: Trace) -> Tree
    decreases trace,
{
    match (tree, trace) {
        (Tree::Root(child), Trace::Root(t)) => Tree::Root(Box::new(after(*child, *t))),
        (Tree::Sequence(children), Trace::Composite(ts)) => Tree::Sequence(settled(children, ts)),
        (Tree::Selector(children), Trace::Composite(ts)) => Tree::Selector(settled(children, ts)),
        (Tree::Lotto(children, chosen), Trace::Lotto(drawn, Some(t))) => {
            match lotto_target(children, chosen, drawn) {
                Some(k) if k < children.len() => Tree::Lotto(
                    children.update(k as int, after(children[k as int], *t)),
                    if outcome(children[k as int], *t) == Ok::<NodeResult, Fault>(NodeResult::Running) {
                        Some(k)
                    } else {
                        None
                    },
                ),
                _ => tree,
            }
        },
        (Tree::While(guard, child), Trace::While(_, Some(t))) => Tree::While(
            guard,
            Box::new(after(*child, *t)),
        ),
        _ => tree,
    }
}

/// The effects kept track of after the tick recorded by `trace`, which
/// started with those of `flight`.
pub open spec fn flight_after(tree: Tree, names: Names, flight: Flight, trace: Trace) -> Flight
    decreases trace, 0nat,
{
    match (tree, trace) {
        (Tree::Root(child), Trace::Root(t)) => flight_after(*child, names, flight, *t),
        (Tree::Sequence(children), Trace::Composite(ts)) => flight_through(children, names, flight, ts, ts.len()),
        (Tree::Selector(children), Trace::Composite(ts)) => flight_through(children, names, flight, ts, ts.len()),
        (Tree::Lotto(children, chosen), Trace::Lotto(drawn, Some(t))) => {
            match lotto_target(children, chosen, drawn) {
                Some(k) if k < children.len() => flight_after(children[k as int], names, flight, *t),
                _ => flight,
            }
        },
        (Tree::While(_, child), Trace::While(Ok(true), Some(t))) => flight_after(*child, names, flight, *t),
        (Tree::Action(call), Trace::Action(Ok(_), polled, fresh)) => flight_acted(
            names,
            flight,
            call,
            polled,
            fresh,
        ),
        _ => flight,
    }
}

/// The effects kept track of once the first `count` children of a
/// composite have been ticked as `ts` records, one after the other.
pub open spec fn flight_through(children: Seq<Tree>, names: Names, flight: Flight, ts: Seq<Trace>, count: nat) -> Flight
    decreases ts, count,
{
    if 0 < count <= ts.len() && count <= children.len() {
        flight_after(
            children[count - 1],
            names,
            flight_through(children, names, flight, ts, (count - 1) as nat),
            ts[count - 1],
        )
    } else {
        flight
    }
}

/// Whether the children of a composite were consulted as its rule demands:
/// in order from the first, each but the last with the status on which the
/// composite goes on, and the last one either with another outcome or being
/// the last child.
pub open spec fn consulted_in_order(proceed: NodeResult, children: Seq<Tree>, ts: Seq<Trace>) -> bool {
    &&& ts.len() <= children.len()
    &&& children.len() > 0 ==> ts.len() > 0
    &&& forall|j: int|
        0 <= j < ts.len() - 1 ==> #[trigger] outcome(children[j], ts[j]) == Ok::<NodeResult, Fault>(proceed)
    &&& 0 < ts.len() < children.len() ==> outcome(children[ts.len() - 1], ts[ts.len() - 1]) != Ok::<
        NodeResult,
        Fault,
    >(proceed)
}

/// The outcome of a composite whose children were consulted as `ts` records:
/// that of the last child consulted, and the status on which the composite
/// goes on where it has no child.
pub open spec fn composite_outcome(proceed: NodeResult, children: Seq<Tree>, ts: Seq<Trace>) -> Outcome
    decreases ts,
{
    if 0 < ts.len() <= children.len() {
        outcome(children[ts.len() - 1], ts[ts.len() - 1])
    } else {
        Ok(proceed)
    }
}

/// The children of a composite after the tick that `ts` records: those
/// consulted as their own ticks left them, the others untouched.
pub open spec fn settled(children: Seq<Tree>, ts: Seq<Trace>) -> Seq<Tree>
    decreases ts,
{
    Seq::new(
        children.len(),
        |j: int|
            if 0 <= j < ts.len() {
                after(children[j], ts[j])
            } else {
                children[j]
            },
    )
}

/// Whether `trace` records a tick over `tree` that follows the rule of every
/// node kind, against a registry that resolves `names` and starts the tick
/// with the effects of `flight` behind it.
pub open spec fn fits(tree: Tree, names: Names, flight: Flight, trace: Trace) -> bool
    decreases trace,
{
    match (tree, trace) {
        (Tree::Root(child), Trace::Root(t)) => fits(*child, names, flight, *t),
        (Tree::Sequence(children), Trace::Composite(ts)) => {
            &&& consulted_in_order(NodeResult::Success, children, ts)
            &&& forall|j: int|
                0 <= j < ts.len() ==> fits(
                    children[j],
                    names,
                    flight_through(children, names, flight, ts, j as nat),
                    #[trigger] ts[j],
                )
        },
        (Tree::Selector(children), Trace::Composite(ts)) => {
            &&& consulted_in_order(NodeResult::Failure, children, ts)
            &&& forall|j: int|
                0 <= j < ts.len() ==> fits(
                    children[j],
                    names,
                    flight_through(children, names, flight, ts, j as nat),
                    #[trigger] ts[j],
                )
        },
        (Tree::Lotto(children, chosen), Trace::Lotto(drawn, child)) => {
            if children.len() == 0 {
                drawn is None && child is None
            } else {
                &&& drawn is Some <==> lotto_target(children, chosen, None) is None
                &&& drawn matches Some(index) ==> exists|number: u128|
                    #[trigger] names.may_draw(number) && index == number as int % children.len() as int
                &&& lotto_target(children, chosen, drawn) matches Some(k)
                &&& k < children.len()
                &&& child matches Some(t)
                &&& fits(children[k as int], names, flight, *t)
            }
        },
        (Tree::While(guard, child), Trace::While(answer, sub)) => {
            &&& condition_answer(names, guard, answer)
            &&& match sub {
                Some(t) => answer == Ok::<bool, Fault>(true) && fits(*child, names, flight, *t),
                None => answer != Ok::<bool, Fault>(true),
            }
        },
        (Tree::Condition(call), Trace::Condition(answer)) => condition_answer(names, call, answer),
        (Tree::Action(call), Trace::Action(result, polled, fresh)) => action_answer(
            names,
            flight,
            call,
            result,
            polled,
            fresh,
        ),
        _ => false,
    }
}

/// Whether every tick over `tree` ends in `result`, whatever is in flight
/// and whatever the handlers choose among what they may give.
pub open spec fn forced(tree: Tree, names: Names, result: Outcome) -> bool {
    forall|flight: Flight, trace: Trace| #[trigger] fits(tree, names, flight, trace) ==> outcome(tree, trace) == result
}

/// An outcome with `Success` and `Failure` exchanged; `Running` and errors
/// stay as they are.
pub open spec fn mirrored(result: Outcome) -> Outcome {
    match result {
        Ok(NodeResult::Success) => Ok(NodeResult::Failure),
        Ok(NodeResult::Failure) => Ok(NodeResult::Success),
        other => other,
    }
}

/// Whether every handler behind `names` gives one answer only on given
/// arguments: what a condition says and what a synchronous action reports
/// depends on the arguments alone.
pub open spec fn single_valued(names: Names) -> bool {
    &&& forall|name: Seq<char>, args: Seq<serde_json::Value>, one: bool, other: bool|
        #[trigger] names.may_answer(name, args, one) && #[trigger] names.may_answer(name, args, other) ==> one
            == other
    &&& forall|name: Seq<char>, args: Seq<serde_json::Value>, one: NodeResult, other: NodeResult|
        #[trigger] names.may_report(name, args, one) && #[trigger] names.may_report(name, args, other) ==> one
            == other
}

/// Whether a tick over `tree` draws nothing and waits for nothing: the
/// tree holds no lotto node and no action that `names` has as asynchronous.
pub open spec fn memoryless(tree: Tree, names: Names) -> bool
    decreases tree,
{
    match tree {
        Tree::Root(child) => memoryless(*child, names),
        Tree::Sequence(children) => all_memoryless(children, names),
        Tree::Selector(children) => all_memoryless(children, names),
        Tree::Lotto(_, _) => false,
        Tree::While(_, child) => memoryless(*child, names),
        Tree::Condition(_) => true,
        Tree::Action(call) => !names.deferred.contains(call.name),
    }
}

/// Whether a tick over each of `trees` draws nothing and waits for nothing.
pub open spec fn all_memoryless(trees: Seq<Tree>, names: Names) -> bool
    decreases trees,
{
    forall|j: int| 0 <= j < trees.len() ==> memoryless(#[trigger] trees[j], names)
}

/// Whether `tree` can stand below the entry of a tree: it holds no root,
/// and none of its sequences, selectors and lottos is without children.
pub open spec fn well_formed_below(tree: Tree) -> bool
    decreases tree,
{
    match tree {
        Tree::Root(_) => false,
        Tree::Sequence(children) => all_well_formed(children),
        Tree::Selector(children) => all_well_formed(children),
        Tree::Lotto(children, _) => all_well_formed(children),
        Tree::While(_, child) => well_formed_below(*child),
        Tree::Condition(_) => true,
        Tree::Action(_) => true,
    }
}

/// Whether `trees` can be the children of a composite: there is at least
/// one, and each can stand below the entry of a tree.
pub open spec fn all_well_formed(trees: Seq<Tree>) -> bool
    decreases trees,
{
    trees.len() > 0 && forall|j: int| 0 <= j < trees.len() ==> well_formed_below(#[trigger] trees[j])
}

/// Whether `tree` is a whole tree as it should be: entered at its one
/// root, the only node without a parent, with no childless composite below.
pub open spec fn well_formed(tree: Tree) -> bool {
    tree matches Tree::Root(child) && well_formed_below(*child)
}

/// The shape of a tree: its nodes, their order and their calls, with the
/// commitment of every lotto node left out.
pub open spec fn shape(tree: Tree) -> Tree
    decreases tree,
{
    match tree {
        Tree::Root(child) => Tree::Root(Box::new(shape(*child))),
        Tree::Sequence(children) => Tree::Sequence(shapes(children)),
        Tree::Selector(children) => Tree::Selector(shapes(children)),
        Tree::Lotto(children, _) => Tree::Lotto(shapes(children), None),
        Tree::While(guard, child) => Tree::While(guard, Box::new(shape(*child))),
        Tree::Condition(call) => Tree::Condition(call),
        Tree::Action(call) => Tree::Action(call),
    }
}

/// The shapes of a list of trees, in order.
pub open spec fn shapes(trees: Seq<Tree>) -> Seq<Tree>
    decreases trees,
{
    Seq::new(
        trees.len(),
        |j: int|
            if 0 <= j < trees.len() {
                shape(trees[j])
            } else {
                trees[j]
            },
    )
}

/// Whether one tick over `tree`, recorded by `trace` and started with the
/// effects of `flight` behind it, follows the rules, yields `result`, and
/// leaves the tree `left` and the effects `landed` behind.
pub open spec fn ticked(
    tree: Tree,
    names: Names,
    flight: Flight,
    trace: Trace,
    result: Outcome,
    left: Tree,
    landed: Flight,
) -> bool {
    &&& fits(tree, names, flight, trace)
    &&& outcome(tree, trace) == result
    &&& after(tree, trace) == left
    &&& flight_after(tree, names, flight, trace) == landed
}

/// What the first children of a composite leave in flight does not depend
/// on the traces of the children that come after them.
pub proof fn lemma_flight_through_prefix(
    children: Seq<Tree>,
    names: Names,
    flight: Flight,
    ts: Seq<Trace>,
    more: Seq<Trace>,
    count: nat,
)
    requires
        count <= ts.len(),
    ensures
        flight_through(children, names, flight, ts + more, count) == flight_through(children, names, flight, ts, count),
    decreases count,
{
    if 0 < count && count <= children.len() {
        lemma_flight_through_prefix(children, names, flight, ts, more, (count - 1) as nat);
        assert((ts + more)[count - 1] == ts[count - 1]);
    }
}

} // verus!
