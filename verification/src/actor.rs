//! The actor: one tree together with the registry it is ticked against.

use vstd::prelude::*;
use crate::bt::BehaviorTree;
use crate::handlers::{may_return, may_start};
use crate::model::{ticked, with_action, with_async_action, with_condition, with_draw, Names, Trace, Tree};
use crate::registry::{lifted, Registry, TickError};
use crate::status::NodeResult;
use crate::table::lists;
use crate::tracker::Flight;

verus! {

/// An agent's decision engine: its tree, its handlers, and its effects in flight.
pub struct Actor {
    context: Registry,
    tree: BehaviorTree,
}

impl Actor {
    /// The tree, as the model sees it.
    pub closed spec fn tree(&self) -> Tree {
        self.tree@
    }

    /// The names the actor's registry resolves.
    pub closed spec fn names(&self) -> Names {
        self.context.names()
    }

    /// The effects the actor keeps track of.
    pub closed spec fn flight(&self) -> Flight {
        self.context.flight()
    }

    /// Every action registered as asynchronous is a registered action.
    pub proof fn lemma_deferred_are_actions(&self)
        ensures
            self.names().deferred.subset_of(self.names().actions),
    {
        self.context.lemma_deferred_are_actions();
    }

    /// An actor for `tree`, with nothing registered and nothing in flight.
    pub fn new(tree: BehaviorTree) -> (actor: Self)
        ensures
            actor.tree() == tree@,
            actor.names().conditions == Set::<Seq<char>>::empty(),
            actor.names().actions == Set::<Seq<char>>::empty(),
            actor.names().deferred == Set::<Seq<char>>::empty(),
            forall|number: u128| #[trigger] actor.names().may_draw(number) == (number == 0),
            actor.flight() == (Flight {
                handles: Map::<Seq<char>, async_channel::Receiver<bool>>::empty(),
                launches: 0,
            }),
    {
        Actor { context: Registry::new(), tree }
    }

    /// Registers `func` as the condition `name`.
    pub fn register_condition<F>(&mut self, name: &str, func: F) where
        F: Fn(&[serde_json::Value]) -> bool + 'static,

        requires
            forall|args: &[serde_json::Value]| call_requires(func, (args,)),
        ensures
            final(self).tree() == old(self).tree(),
            with_condition(
                old(self).names(),
                final(self).names(),
                name@,
                |args: Seq<serde_json::Value>, answer: bool| may_return(func, args, answer),
            ),
            final(self).flight() == old(self).flight(),
    {
        self.context.register_condition(name, func);
    }

    /// Registers `func` as the synchronous action `name`.
    pub fn register_action<F>(&mut self, name: &str, func: F) where
        F: Fn(&[serde_json::Value]) -> NodeResult + 'static,

        requires
            forall|args: &[serde_json::Value]| call_requires(func, (args,)),
        ensures
            final(self).tree() == old(self).tree(),
            with_action(
                old(self).names(),
                final(self).names(),
                name@,
                |args: Seq<serde_json::Value>, status: NodeResult| may_return(func, args, status),
            ),
            final(self).flight() == old(self).flight(),
    {
        self.context.register_action(name, func);
    }

    /// Registers `spawn` as the asynchronous action `name`.  The actor
    /// bridges it: while an effect started for some arguments is in flight,
    /// ticking the action with the same arguments polls that effect and
    /// starts no other.
    pub fn register_async_action<F>(&mut self, name: &str, spawn: F) where
        F: Fn(&[serde_json::Value], async_channel::Sender<bool>) + 'static,

        requires
            forall|args: &[serde_json::Value], done: async_channel::Sender<bool>|
                call_requires(spawn, (args, done)),
        ensures
            final(self).tree() == old(self).tree(),
            with_async_action(
                old(self).names(),
                final(self).names(),
                name@,
                |args: Seq<serde_json::Value>, done: async_channel::Sender<bool>| may_start(spawn, args, done),
            ),
            final(self).flight() == old(self).flight(),
    {
        self.context.register_async_action(name, spawn);
    }

    /// Registers `func` as the source of draws for the lotto nodes of the
    /// tree, in place of the one before.
    pub fn register_draw<F>(&mut self, func: F) where F: Fn() -> u128 + 'static
        requires
            call_requires(func, ()),
        ensures
            final(self).tree() == old(self).tree(),
            with_draw(old(self).names(), final(self).names(), |number: u128| call_ensures(func, (), number)),
            final(self).flight() == old(self).flight(),
    {
        self.context.register_draw(func);
    }

    /// The dedup keys of the effects in flight, each once.
    pub fn current_tasks(&self) -> (keys: Vec<String>)
        ensures
            lists(keys@, self.flight().in_flight()),
    {
        self.context.current_tasks()
    }

    /// Evaluates the tree for one tick.
    pub fn tick(&mut self) -> (result: Result<NodeResult, TickError>)
        ensures
            exists|trace: Trace|
                ticked(
                    old(self).tree(),
                    old(self).names(),
                    old(self).flight(),
                    trace,
                    lifted(result),
                    final(self).tree(),
                    final(self).flight(),
                ),
            final(self).names() == old(self).names(),
    {
        let result = self.tree.tick(&mut self.context);
        proof {
            let trace = choose|trace: Trace|
                ticked(
                    old(self).tree@,
                    old(self).context.names(),
                    old(self).context.flight(),
                    trace,
                    lifted(result),
                    self.tree@,
                    self.context.flight(),
                );
            assert(ticked(
                old(self).tree(),
                old(self).names(),
                old(self).flight(),
                trace,
                lifted(result),
                self.tree(),
                self.flight(),
            ));
        }
        result
    }
}

} // verus!
