//! The callables a registry holds: conditions, actions, and the spawners of
//! asynchronous actions, each stored behind one uniform interface.
//!
//! A handler is an ordinary closure.  What it may return on given arguments
//! is what its own postcondition allows.

use vstd::prelude::*;
use crate::status::NodeResult;

verus! {

/// Whether the closure `func` may return `answer` on an argument list that
/// holds `args`.
pub open spec fn may_return<F: Fn(&[serde_json::Value]) -> R, R>(
    func: F,
    args: Seq<serde_json::Value>,
    answer: R,
) -> bool {
    exists|list: &[serde_json::Value]| list@ == args && #[trigger] call_ensures(func, (list,), answer)
}

/// Whether the closure `spawn` may have been started on an argument list
/// that holds `args`, with `done` to report through.
pub open spec fn may_start<F: Fn(&[serde_json::Value], async_channel::Sender<bool>)>(
    spawn: F,
    args: Seq<serde_json::Value>,
    done: async_channel::Sender<bool>,
) -> bool {
    exists|list: &[serde_json::Value]| list@ == args && #[trigger] call_ensures(spawn, (list, done), ())
}

/// A condition: observes, and answers yes or no.
pub trait Check {
    /// Whether the condition may give `answer` on `args`.
    spec fn says(&self, args: Seq<serde_json::Value>, answer: bool) -> bool;

    /// Evaluates the condition on `args`.
    fn check(&self, args: &[serde_json::Value]) -> (answer: bool)
        ensures
            self.says(args@, answer),
    ;
}

/// An action that finishes within the tick and reports its status itself.
pub trait Act {
    /// Whether the action may report `status` on `args`.
    spec fn says(&self, args: Seq<serde_json::Value>, status: NodeResult) -> bool;

    /// Runs the action on `args`.
    fn act(&self, args: &[serde_json::Value]) -> (status: NodeResult)
        ensures
            self.says(args@, status),
    ;
}

/// The spawner of an asynchronous action: starts the effect, which sends its
/// completion flag through `done` once it has finished.
pub trait Launch {
    /// Whether the spawner may have been started on `args` with `done` to
    /// report through.
    spec fn starts(&self, args: Seq<serde_json::Value>, done: async_channel::Sender<bool>) -> bool;

    /// Starts the effect for `args`.
    fn launch(&self, args: &[serde_json::Value], done: async_channel::Sender<bool>)
        ensures
            self.starts(args@, done),
    ;
}

/// A source of draws: gives the number by which a lotto node selects one of
/// its children.
pub trait Draw {
    /// Whether the source may give `number`.
    spec fn gives(&self, number: u128) -> bool;

    /// Draws a number.
    fn draw(&self) -> (number: u128)
        ensures
            self.gives(number),
    ;
}

/// The source of a registry in which none is registered: it gives zero,
/// so that a lotto node selects its first child.
pub struct Still;

impl Draw for Still {
    open spec fn gives(&self, number: u128) -> bool {
        number == 0
    }

    fn draw(&self) -> (number: u128) {
        0
    }
}

/// A closure kept as a source of draws.
pub struct FnDraw<F: Fn() -> u128> {
    func: F,
}

impl<F: Fn() -> u128> FnDraw<F> {
    /// The closure can be called.
    #[verifier::type_invariant]
    spec fn total(self) -> bool {
        call_requires(self.func, ())
    }

    /// The closure that is kept.
    pub closed spec fn func(&self) -> F {
        self.func
    }

    /// Wraps a closure that can be called.
    pub fn new(func: F) -> (source: Self)
        requires
            call_requires(func, ()),
        ensures
            source.func() == func,
    {
        FnDraw { func }
    }
}

impl<F: Fn() -> u128> Draw for FnDraw<F> {
    open spec fn gives(&self, number: u128) -> bool {
        call_ensures(self.func(), (), number)
    }

    fn draw(&self) -> (number: u128) {
        proof {
            use_type_invariant(self);
        }
        (self.func)()
    }
}

/// A closure kept as a condition.
pub struct FnCheck<F: Fn(&[serde_json::Value]) -> bool> {
    func: F,
}

impl<F: Fn(&[serde_json::Value]) -> bool> FnCheck<F> {
    /// The closure accepts every argument list.
    #[verifier::type_invariant]
    spec fn total(self) -> bool {
        forall|args: &[serde_json::Value]| call_requires(self.func, (args,))
    }

    /// The closure that is kept.
    pub closed spec fn func(&self) -> F {
        self.func
    }

    /// Wraps a closure that accepts every argument list.
    pub fn new(func: F) -> (handler: Self)
        requires
            forall|args: &[serde_json::Value]| call_requires(func, (args,)),
        ensures
            handler.func() == func,
    {
        FnCheck { func }
    }
}

impl<F: Fn(&[serde_json::Value]) -> bool> Check for FnCheck<F> {
    open spec fn says(&self, args: Seq<serde_json::Value>, answer: bool) -> bool {
        may_return(self.func(), args, answer)
    }

    fn check(&self, args: &[serde_json::Value]) -> (answer: bool) {
        proof {
            use_type_invariant(self);
        }
        (self.func)(args)
    }
}

/// A closure kept as an action.
pub struct FnAct<F: Fn(&[serde_json::Value]) -> NodeResult> {
    func: F,
}

impl<F: Fn(&[serde_json::Value]) -> NodeResult> FnAct<F> {
    /// The closure accepts every argument list.
    #[verifier::type_invariant]
    spec fn total(self) -> bool {
        forall|args: &[serde_json::Value]| call_requires(self.func, (args,))
    }

    /// The closure that is kept.
    pub closed spec fn func(&self) -> F {
        self.func
    }

    /// Wraps a closure that accepts every argument list.
    pub fn new(func: F) -> (handler: Self)
        requires
            forall|args: &[serde_json::Value]| call_requires(func, (args,)),
        ensures
            handler.func() == func,
    {
        FnAct { func }
    }
}

impl<F: Fn(&[serde_json::Value]) -> NodeResult> Act for FnAct<F> {
    open spec fn says(&self, args: Seq<serde_json::Value>, status: NodeResult) -> bool {
        may_return(self.func(), args, status)
    }

    fn act(&self, args: &[serde_json::Value]) -> (status: NodeResult) {
        proof {
            use_type_invariant(self);
        }
        (self.func)(args)
    }
}

/// A closure kept as the spawner of an asynchronous action.
pub struct FnLaunch<F: Fn(&[serde_json::Value], async_channel::Sender<bool>)> {
    func: F,
}

impl<F: Fn(&[serde_json::Value], async_channel::Sender<bool>)> FnLaunch<F> {
    /// The closure accepts every argument list and every sender.
    #[verifier::type_invariant]
    spec fn total(self) -> bool {
        forall|args: &[serde_json::Value], done: async_channel::Sender<bool>|
            call_requires(self.func, (args, done))
    }

    /// The closure that is kept.
    pub closed spec fn func(&self) -> F {
        self.func
    }

    /// Wraps a closure that accepts every argument list and every sender.
    pub fn new(func: F) -> (handler: Self)
        requires
            forall|args: &[serde_json::Value], done: async_channel::Sender<bool>|
                call_requires(func, (args, done)),
        ensures
            handler.func() == func,
    {
        FnLaunch { func }
    }
}

impl<F: Fn(&[serde_json::Value], async_channel::Sender<bool>)> Launch for FnLaunch<F> {
    open spec fn starts(&self, args: Seq<serde_json::Value>, done: async_channel::Sender<bool>) -> bool {
        may_start(self.func(), args, done)
    }

    fn launch(&self, args: &[serde_json::Value], done: async_channel::Sender<bool>) {
        proof {
            use_type_invariant(self);
        }
        (self.func)(args, done)
    }
}

} // verus!
