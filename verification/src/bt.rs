//! The tree engine: the node graph and the evaluation of one tick over it.

use vstd::prelude::*;
use vstd::string::StringExecFns;
use crate::model::{
    action_answer, after, all_well_formed, composite_outcome, consulted_in_order, fits, flight_acted, flight_after,
    flight_through, lemma_flight_through_prefix, outcome, settled, ticked, well_formed, well_formed_below, Call, Fault,
    Trace, Tree,
};
use crate::registry::{lifted, Registry, TickError};
use crate::status::NodeResult;

verus! {

/// The index that `seed` selects among `count` candidates: the remainder of
/// `seed` by `count`.  There is none among no candidates.
pub fn pick(seed: u128, count: usize) -> (index: Option<usize>)
    ensures
        count == 0 ==> index is None,
        count > 0 ==> index == Some((seed as int % count as int) as usize),
        index matches Some(k) ==> k < count,
{
    if count == 0 {
        None
    } else {
        let remainder: u128 = seed % (count as u128);
        Some(remainder as usize)
    }
}

enum NodeType {
    Root(Box<Node>),
    Sequence(Vec<Node>),
    Selector(Vec<Node>),
    Lotto(Vec<Node>, Option<usize>),
    While(String, Vec<serde_json::Value>, Box<Node>),
    Condition(String, Vec<serde_json::Value>),
    Action(String, Vec<serde_json::Value>),
}

/// One node of a behavior tree, with the subtree below it.
pub struct Node {
    node_type: NodeType,
}

/// The models of a list of nodes, in order.
pub open spec fn views(nodes: Seq<Node>) -> Seq<Tree> {
    Seq::new(nodes.len(), |i: int| nodes[i]@)
}

/// The commitment of a lotto node as the model holds it.
pub open spec fn chosen_view(chosen: Option<usize>) -> Option<nat> {
    match chosen {
        Some(k) => Some(k as nat),
        None => None,
    }
}

impl Node {
    /// The node as the model sees it: its kind, its children, the call of
    /// each leaf and guard, and the commitment of each lotto node.
    pub closed spec fn view(&self) -> Tree
        decreases self,
    {
        match self.node_type {
            NodeType::Root(child) => Tree::Root(Box::new(child@)),
            NodeType::Sequence(children) => Tree::Sequence(
                Seq::new(
                    children.len() as nat,
                    |i: int|
                        if 0 <= i < children.len() {
                            children[i]@
                        } else {
                            arbitrary()
                        },
                ),
            ),
            NodeType::Selector(children) => Tree::Selector(
                Seq::new(
                    children.len() as nat,
                    |i: int|
                        if 0 <= i < children.len() {
                            children[i]@
                        } else {
                            arbitrary()
                        },
                ),
            ),
            NodeType::Lotto(children, chosen) => Tree::Lotto(
                Seq::new(
                    children.len() as nat,
                    |i: int|
                        if 0 <= i < children.len() {
                            children[i]@
                        } else {
                            arbitrary()
                        },
                ),
                chosen_view(chosen),
            ),
            NodeType::While(name, args, child) => Tree::While(Call { name: name@, args: args@ }, Box::new(child@)),
            NodeType::Condition(name, args) => Tree::Condition(Call { name: name@, args: args@ }),
            NodeType::Action(name, args) => Tree::Action(Call { name: name@, args: args@ }),
        }
    }

    fn new(node_type: NodeType) -> (node: Self)
        ensures
            node.node_type == node_type,
    {
        Node { node_type }
    }

    /// The single entry point of a tree: hands the status of `child` on unchanged.
    pub fn root(child: Node) -> (node: Self)
        ensures
            node@ == Tree::Root(Box::new(child@)),
    {
        Self::new(NodeType::Root(Box::new(child)))
    }

    /// A node that succeeds when all of `children` succeed, in order.
    pub fn sequence(children: Vec<Node>) -> (node: Self)
        ensures
            node@ == Tree::Sequence(views(children@)),
    {
        let node = Self::new(NodeType::Sequence(children));
        assert(node@->Sequence_0 =~= views(children@));
        node
    }

    /// A node that succeeds with the first of `children` that does not fail.
    pub fn selector(children: Vec<Node>) -> (node: Self)
        ensures
            node@ == Tree::Selector(views(children@)),
    {
        let node = Self::new(NodeType::Selector(children));
        assert(node@->Selector_0 =~= views(children@));
        node
    }

    /// A node that draws one of `children` at random and stays with it until
    /// it resolves.  A new node is committed to no child.
    pub fn lotto(children: Vec<Node>) -> (node: Self)
        ensures
            node@ == Tree::Lotto(views(children@), None),
    {
        let node = Self::new(NodeType::Lotto(children, None));
        assert(node@->Lotto_0 =~= views(children@));
        node
    }

    /// A node that ticks `child` while the condition `name` holds of `args`,
    /// and fails without touching `child` when it does not.
    pub fn while_(name: &str, args: Vec<serde_json::Value>, child: Node) -> (node: Self)
        ensures
            node@ == Tree::While(Call { name: name@, args: args@ }, Box::new(child@)),
    {
        Self::new(NodeType::While(String::from_str(name), args, Box::new(child)))
    }

    /// A guard over `children`: while the condition `name` holds of `args`,
    /// a single child is ticked as it stands, and several children, or none,
    /// as the sequence of them.
    pub fn guard(name: &str, args: Vec<serde_json::Value>, children: Vec<Node>) -> (node: Self)
        ensures
            node@ == Tree::While(
                Call { name: name@, args: args@ },
                Box::new(
                    if children.len() == 1 {
                        children[0]@
                    } else {
                        Tree::Sequence(views(children@))
                    },
                ),
            ),
    {
        let mut children = children;
        let child = if children.len() == 1 {
            match children.pop() {
                Some(only) => only,
                None => Self::sequence(Vec::new()),
            }
        } else {
            Self::sequence(children)
        };
        Self::while_(name, args, child)
    }

    /// A leaf that evaluates the condition `name` on `args`.
    pub fn condition(name: &str, args: Vec<serde_json::Value>) -> (node: Self)
        ensures
            node@ == Tree::Condition(Call { name: name@, args: args@ }),
    {
        Self::new(NodeType::Condition(String::from_str(name), args))
    }

    /// A leaf that runs the action `name` on `args`.
    pub fn action(name: &str, args: Vec<serde_json::Value>) -> (node: Self)
        ensures
            node@ == Tree::Action(Call { name: name@, args: args@ }),
    {
        Self::new(NodeType::Action(String::from_str(name), args))
    }
}

impl Node {
    /// Tells whether all of `children` can stand below the entry of a tree,
    /// and there is at least one.
    fn all_well_formed(children: &Vec<Node>) -> (ok: bool)
        ensures
            ok == all_well_formed(views(children@)),
        decreases children,
    {
        if children.len() == 0 {
            return false;
        }
        let mut i: usize = 0;
        while i < children.len()
            invariant
                i <= children.len(),
                forall|j: int| 0 <= j < i ==> well_formed_below(#[trigger] views(children@)[j]),
            decreases children.len() - i,
        {
            if !children[i].is_well_formed_below() {
                assert(!well_formed_below(views(children@)[i as int]));
                return false;
            }
            i = i + 1;
        }
        true
    }

    /// Tells whether the node can stand below the entry of a tree.
    fn is_well_formed_below(&self) -> (ok: bool)
        ensures
            ok == well_formed_below(self@),
        decreases self,
    {
        match &self.node_type {
            NodeType::Root(_) => false,
            NodeType::Sequence(children) => {
                assert(self@->Sequence_0 =~= views(children@));
                Self::all_well_formed(children)
            },
            NodeType::Selector(children) => {
                assert(self@->Selector_0 =~= views(children@));
                Self::all_well_formed(children)
            },
            NodeType::Lotto(children, _) => {
                assert(self@->Lotto_0 =~= views(children@));
                Self::all_well_formed(children)
            },
            NodeType::While(_, _, child) => child.is_well_formed_below(),
            NodeType::Condition(_, _) => true,
            NodeType::Action(_, _) => true,
        }
    }

    /// Tells whether the node is the root of a whole tree as it should be:
    /// a root, with no other root and no childless sequence, selector or
    /// lotto below it.
    pub fn is_well_formed(&self) -> (ok: bool)
        ensures
            ok == well_formed(self@),
    {
        match &self.node_type {
            NodeType::Root(child) => child.is_well_formed_below(),
            _ => false,
        }
    }

    /// Ticks `children` in order for as long as each gives the status
    /// `proceed`, and stops after the first that gives anything else.
    fn tick_in_order(children: &mut Vec<Node>, context: &mut Registry, proceed: NodeResult) -> (r: (
        Result<NodeResult, TickError>,
        Ghost<Seq<Trace>>,
    ))
        ensures
            final(children).len() == old(children).len(),
            consulted_in_order(proceed, views(old(children)@), r.1@),
            forall|j: int|
                0 <= j < r.1@.len() ==> fits(
                    views(old(children)@)[j],
                    old(context).names(),
                    flight_through(views(old(children)@), old(context).names(), old(context).flight(), r.1@, j as nat),
                    #[trigger] r.1@[j],
                ),
            lifted(r.0) == composite_outcome(proceed, views(old(children)@), r.1@),
            views(final(children)@) == settled(views(old(children)@), r.1@),
            final(context).names() == old(context).names(),
            final(context).flight() == flight_through(
                views(old(children)@),
                old(context).names(),
                old(context).flight(),
                r.1@,
                r.1@.len(),
            ),
        decreases *old(children),
    {
        let ghost before = *children;
        let ghost kids = views(before@);
        let ghost names = context.names();
        let ghost start = context.flight();
        let ghost mut traces = Seq::<Trace>::empty();
        let mut i: usize = 0;
        while i < children.len()
            invariant
                before == *old(children),
                kids == views(before@),
                children.len() == before.len(),
                i <= children.len(),
                traces.len() == i,
                forall|j: int| i <= j < children.len() ==> children[j] == before[j],
                forall|j: int|
                    0 <= j < i ==> {
                        &&& fits(kids[j], names, flight_through(kids, names, start, traces, j as nat), #[trigger] traces[j])
                        &&& outcome(kids[j], traces[j]) == Ok::<NodeResult, Fault>(proceed)
                        &&& children[j]@ == after(kids[j], traces[j])
                    },
                context.names() == names,
                names == old(context).names(),
                start == old(context).flight(),
                context.flight() == flight_through(kids, names, start, traces, i as nat),
            decreases children.len() - i,
        {
            assert(decreases_to!(before => before[i as int]));
            let child = &mut children[i];
            let (result, Ghost(trace)) = child.tick_traced(context);
            proof {
                let grown = traces.push(trace);
                assert(grown =~= traces + seq![trace]);
                assert forall|count: nat| count <= i implies #[trigger] flight_through(
                    kids,
                    names,
                    start,
                    grown,
                    count,
                ) == flight_through(kids, names, start, traces, count) by {
                    lemma_flight_through_prefix(kids, names, start, traces, seq![trace], count);
                }
                assert(flight_through(kids, names, start, grown, (i + 1) as nat) == flight_after(
                    kids[i as int],
                    names,
                    flight_through(kids, names, start, grown, i as nat),
                    grown[i as int],
                ));
                traces = grown;
            }
            let go_on = match result {
                Ok(status) => status == proceed,
                Err(_) => false,
            };
            i = i + 1;
            if !go_on {
                proof {
                    assert(views(children@) =~= settled(kids, traces));
                }
                return (result, Ghost(traces));
            }
        }
        proof {
            assert(views(children@) =~= settled(kids, traces));
        }
        (Ok(proceed), Ghost(traces))
    }

    /// Evaluates the node for one tick and records what happened on the way.
    fn tick_traced(&mut self, context: &mut Registry) -> (r: (Result<NodeResult, TickError>, Ghost<Trace>))
        ensures
            fits(old(self)@, old(context).names(), old(context).flight(), r.1@),
            lifted(r.0) == outcome(old(self)@, r.1@),
            final(self)@ == after(old(self)@, r.1@),
            final(context).names() == old(context).names(),
            final(context).flight() == flight_after(old(self)@, old(context).names(), old(context).flight(), r.1@),
        decreases *old(self),
    {
        let ghost me = *self;
        let ghost names = context.names();
        let ghost start = context.flight();
        let r = match &mut self.node_type {
            NodeType::Root(child) => {
                let (result, Ghost(trace)) = child.tick_traced(context);
                (result, Ghost(Trace::Root(Box::new(trace))))
            },
            NodeType::Sequence(children) => {
                let ghost before = *children;
                assert(me.node_type->Sequence_0 == before);
                assert(decreases_to!(me.node_type => me.node_type->Sequence_0));
                let (result, Ghost(traces)) = Self::tick_in_order(children, context, NodeResult::Success);
                proof {
                    assert(me@->Sequence_0 =~= views(before@));
                }
                (result, Ghost(Trace::Composite(traces)))
            },
            NodeType::Selector(children) => {
                let ghost before = *children;
                assert(me.node_type->Selector_0 == before);
                assert(decreases_to!(me.node_type => me.node_type->Selector_0));
                let (result, Ghost(traces)) = Self::tick_in_order(children, context, NodeResult::Failure);
                proof {
                    assert(me@->Selector_0 =~= views(before@));
                }
                (result, Ghost(Trace::Composite(traces)))
            },
            NodeType::Lotto(children, chosen) => {
                let ghost before = *children;
                let count = children.len();
                let committed = match *chosen {
                    Some(k) => if k < count {
                        Some(k)
                    } else {
                        None
                    },
                    None => None,
                };
                let ghost mut number: u128 = 0;
                let target = match committed {
                    Some(k) => Some(k),
                    None => if count == 0 {
                        None
                    } else {
                        let drawn = context.draw();
                        proof {
                            number = drawn;
                        }
                        pick(drawn, count)
                    },
                };
                match target {
                    Some(index) => {
                        assert(me.node_type->Lotto_0 == before);
                        assert(decreases_to!(me.node_type => me.node_type->Lotto_0));
                        assert(decreases_to!(before => before[index as int]));
                        let child = &mut children[index];
                        let (result, Ghost(trace)) = child.tick_traced(context);
                        *chosen = match result {
                            Ok(NodeResult::Running) => Some(index),
                            _ => None,
                        };
                        let ghost drawn: Option<nat> = if committed is Some {
                            None
                        } else {
                            Some(index as nat)
                        };
                        proof {
                            assert(me@->Lotto_0 =~= views(before@));
                            assert(views(children@) =~= views(before@).update(
                                index as int,
                                after(before[index as int]@, trace),
                            ));
                        }
                        (result, Ghost(Trace::Lotto(drawn, Some(Box::new(trace)))))
                    },
                    None => {
                        proof {
                            assert(me@->Lotto_0 =~= views(before@));
                        }
                        (Ok(NodeResult::Failure), Ghost(Trace::Lotto(None, None)))
                    },
                }
            },
            NodeType::While(name, args, child) => {
                let answer = context.evaluate_condition(name.as_str(), args.as_slice());
                match answer {
                    Ok(true) => {
                        let (result, Ghost(trace)) = child.tick_traced(context);
                        (result, Ghost(Trace::While(Ok(true), Some(Box::new(trace)))))
                    },
                    Ok(false) => (Ok(NodeResult::Failure), Ghost(Trace::While(Ok(false), None))),
                    Err(error) => {
                        let ghost fault = error@;
                        (Err(error), Ghost(Trace::While(Err(fault), None)))
                    },
                }
            },
            NodeType::Condition(name, args) => {
                let answer = context.evaluate_condition(name.as_str(), args.as_slice());
                let ghost trace = Trace::Condition(lifted(answer));
                let result = match answer {
                    Ok(flag) => Ok(NodeResult::from_flag(flag)),
                    Err(error) => Err(error),
                };
                (result, Ghost(trace))
            },
            NodeType::Action(name, args) => {
                let ghost call = Call { name: name@, args: args@ };
                let result = context.execute_action(name.as_str(), args.as_slice());
                let ghost (polled, fresh) = choose|polled: Option<bool>, fresh: async_channel::Receiver<bool>|
                    {
                        &&& #[trigger] action_answer(names, start, call, lifted(result), polled, fresh)
                        &&& context.flight() == if result is Ok {
                            flight_acted(names, start, call, polled, fresh)
                        } else {
                            start
                        }
                    };
                (result, Ghost(Trace::Action(lifted(result), polled, fresh)))
            },
        };
        let ghost now = *self;
        proof {
            match now.node_type {
                NodeType::Sequence(children) => {
                    assert(now@->Sequence_0 =~= views(children@));
                },
                NodeType::Selector(children) => {
                    assert(now@->Selector_0 =~= views(children@));
                },
                NodeType::Lotto(children, _) => {
                    assert(now@->Lotto_0 =~= views(children@));
                },
                _ => {},
            }
        }
        r
    }
}

impl Node {
    /// Evaluates the node for one tick against `context`.
    ///
    /// The children of a sequence or selector are consulted from the first,
    /// and no further than the first whose status decides the node; a guard
    /// that does not hold keeps its child from being ticked; a lotto node
    /// stays with a child that is still running.  A leaf or guard whose name
    /// `context` does not resolve aborts the tick with an error.  Some trace
    /// records the tick: it says which children were consulted and what each
    /// handler, poll and draw gave, and the status returned, the tree left
    /// behind and the effects left in flight are those the model reads from
    /// it.  The registrations in `context` stay as they are.
    pub fn tick(&mut self, context: &mut Registry) -> (result: Result<NodeResult, TickError>)
        ensures
            exists|trace: Trace|
                ticked(
                    old(self)@,
                    old(context).names(),
                    old(context).flight(),
                    trace,
                    lifted(result),
                    final(self)@,
                    final(context).flight(),
                ),
            final(context).names() == old(context).names(),
    {
        let (result, Ghost(trace)) = self.tick_traced(context);
        assert(ticked(
            old(self)@,
            old(context).names(),
            old(context).flight(),
            trace,
            lifted(result),
            self@,
            context.flight(),
        ));
        result
    }
}

/// A behavior tree: one node graph for one agent, ticked by an outside driver.
pub struct BehaviorTree {
    root: Node,
}

impl BehaviorTree {
    /// The tree as the model sees it.
    pub closed spec fn view(&self) -> Tree {
        self.root@
    }

    /// A tree that is entered at `root`.
    pub fn new(root: Node) -> (tree: Self)
        ensures
            tree@ == root@,
    {
        BehaviorTree { root }
    }

    /// Tells whether the tree is entered at its one root and holds no
    /// childless sequence, selector or lotto.
    pub fn is_well_formed(&self) -> (ok: bool)
        ensures
            ok == well_formed(self@),
    {
        self.root.is_well_formed()
    }

    /// Evaluates the tree for one tick, from its entry, against `context`.
    pub fn tick(&mut self, context: &mut Registry) -> (result: Result<NodeResult, TickError>)
        ensures
            exists|trace: Trace|
                ticked(
                    old(self)@,
                    old(context).names(),
                    old(context).flight(),
                    trace,
                    lifted(result),
                    final(self)@,
                    final(context).flight(),
                ),
            final(context).names() == old(context).names(),
    {
        self.root.tick(context)
    }
}

} // verus!
