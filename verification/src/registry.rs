//! The registry: the named conditions and actions a tree's leaves refer to,
//! and the tracker of the asynchronous actions among them.

use vstd::prelude::*;
use vstd::string::StringExecFns;
use crate::handlers::{may_return, may_start, Act, Check, Draw, FnAct, FnCheck, FnDraw, FnLaunch, Launch, Still};
use crate::key::task_key;
use crate::model::{
    action_answer, condition_answer, flight_acted, with_action, with_async_action, with_condition, with_draw, Call,
    Fault, Names,
};
use crate::status::NodeResult;
use crate::table::{lists, Table};
use crate::tracker::{bridged, Flight, Step, TaskTracker};

verus! {

/// A configuration error that aborts a tick: an authoring mistake, never
/// retried and never turned into a `Failure`.
#[derive(Debug, PartialEq, Eq)]
pub enum TickError {
    /// A condition leaf or a guard names a condition nobody registered.
    ConditionNotFound(String),
    /// An action leaf names an action nobody registered.
    ActionNotFound(String),
}

impl TickError {
    /// The error with its name as a sequence of characters.
    pub open spec fn view(&self) -> Fault {
        match self {
            TickError::ConditionNotFound(name) => Fault::ConditionNotFound(name@),
            TickError::ActionNotFound(name) => Fault::ActionNotFound(name@),
        }
    }
}

/// An answer or a status with its error, if any, seen as a `Fault`.
pub open spec fn lifted<T>(result: Result<T, TickError>) -> Result<T, Fault> {
    match result {
        Ok(value) => Ok(value),
        Err(error) => Err(error@),
    }
}

/// A registered condition.
struct Condition {
    handler: Box<dyn Check>,
}

/// How a registered action is run.
enum ActionKind {
    /// The handler finishes within the tick.
    Immediate(Box<dyn Act>),
    /// The handler starts an effect that finishes later; the task tracker
    /// bridges it.
    Deferred(Box<dyn Launch>),
}

/// The registered source of draws.
struct Source {
    handler: Box<dyn Draw>,
}

/// The names among `actions` that are registered as asynchronous.
spec fn deferred_of(actions: Map<Seq<char>, ActionKind>) -> Set<Seq<char>> {
    Set::new(|name: Seq<char>| actions.contains_key(name) && actions[name] is Deferred)
}

/// Whether the condition filed under `name` may give `answer` on `args`.
spec fn answers_of(
    conditions: Map<Seq<char>, Condition>,
    name: Seq<char>,
    args: Seq<serde_json::Value>,
    answer: bool,
) -> bool {
    conditions.contains_key(name) && conditions[name].handler.says(args, answer)
}

/// Whether the synchronous action filed under `name` may report `status` on `args`.
spec fn reports_of(
    actions: Map<Seq<char>, ActionKind>,
    name: Seq<char>,
    args: Seq<serde_json::Value>,
    status: NodeResult,
) -> bool {
    actions.contains_key(name) && (actions[name] matches ActionKind::Immediate(handler) && handler.says(args, status))
}

/// Whether the spawner filed under `name` may have been started on `args`
/// with `done` to report through.
spec fn starts_of(
    actions: Map<Seq<char>, ActionKind>,
    name: Seq<char>,
    args: Seq<serde_json::Value>,
    done: async_channel::Sender<bool>,
) -> bool {
    actions.contains_key(name) && (actions[name] matches ActionKind::Deferred(launcher) && launcher.starts(args, done))
}

/// The names that the two tables resolve, what their handlers may give,
/// and what `source` may draw.
spec fn names_of(conditions: Map<Seq<char>, Condition>, actions: Map<Seq<char>, ActionKind>, source: Source) -> Names {
    Names {
        conditions: conditions.dom(),
        actions: actions.dom(),
        deferred: deferred_of(actions),
        answers: |name: Seq<char>, args: Seq<serde_json::Value>, answer: bool| answers_of(conditions, name, args, answer),
        reports: |name: Seq<char>, args: Seq<serde_json::Value>, status: NodeResult|
            reports_of(actions, name, args, status),
        starts: |name: Seq<char>, args: Seq<serde_json::Value>, done: async_channel::Sender<bool>|
            starts_of(actions, name, args, done),
        draws: |number: u128| source.handler.gives(number),
    }
}

/// Named conditions and actions, and the effects in flight.
pub struct Registry {
    conditions: Table<Condition>,
    actions: Table<ActionKind>,
    source: Source,
    tasks: TaskTracker,
}

impl Registry {
    /// The names this registry resolves, and what the handlers behind them
    /// may give.
    pub closed spec fn names(&self) -> Names {
        names_of(self.conditions@, self.actions@, self.source)
    }

    /// The effects this registry keeps track of.
    pub closed spec fn flight(&self) -> Flight {
        self.tasks@
    }

    /// Every action registered as asynchronous is a registered action.
    pub proof fn lemma_deferred_are_actions(&self)
        ensures
            self.names().deferred.subset_of(self.names().actions),
    {
    }

    /// A registry that resolves no name, draws zero only, and has nothing
    /// in flight.
    pub fn new() -> (registry: Self)
        ensures
            registry.names().conditions == Set::<Seq<char>>::empty(),
            registry.names().actions == Set::<Seq<char>>::empty(),
            registry.names().deferred == Set::<Seq<char>>::empty(),
            forall|number: u128| #[trigger] registry.names().may_draw(number) == (number == 0),
            registry.flight() == (Flight {
                handles: Map::<Seq<char>, async_channel::Receiver<bool>>::empty(),
                launches: 0,
            }),
    {
        let registry = Registry {
            conditions: Table::new(),
            actions: Table::new(),
            source: Source { handler: Box::new(Still) },
            tasks: TaskTracker::new(),
        };
        assert(registry.names().conditions =~= Set::<Seq<char>>::empty());
        assert(registry.names().actions =~= Set::<Seq<char>>::empty());
        assert(registry.names().deferred =~= Set::<Seq<char>>::empty());
        registry
    }

    /// Registers `func` as the condition `name`, in place of an earlier
    /// condition of that name.  From now on the condition `name` may give
    /// exactly what `func` may return.
    pub fn register_condition<F>(&mut self, name: &str, func: F) where
        F: Fn(&[serde_json::Value]) -> bool + 'static,

        requires
            forall|args: &[serde_json::Value]| call_requires(func, (args,)),
        ensures
            with_condition(
                old(self).names(),
                final(self).names(),
                name@,
                |args: Seq<serde_json::Value>, answer: bool| may_return(func, args, answer),
            ),
            final(self).flight() == old(self).flight(),
    {
        let entry = Condition { handler: Box::new(FnCheck::new(func)) };
        assert(forall|args: Seq<serde_json::Value>, answer: bool|
            (#[trigger] entry.handler.says(args, answer)) == may_return(func, args, answer));
        let ghost kept = entry;
        self.conditions.insert(String::from_str(name), entry);
        proof {
            let before = old(self).conditions@;
            let now = self.conditions@;
            assert(now[name@] == kept);
            assert forall|other: Seq<char>, args: Seq<serde_json::Value>, answer: bool|
                (#[trigger] self.names().may_answer(other, args, answer)) == if other == name@ {
                    may_return(func, args, answer)
                } else {
                    old(self).names().may_answer(other, args, answer)
                } by {
                if other != name@ {
                    assert(now.dom().contains(other) == before.dom().contains(other));
                    if before.contains_key(other) {
                        assert(now[other] == before[other]);
                    }
                }
            }
        }
    }

    /// Registers `func` as the synchronous action `name`, in place of an
    /// earlier action of that name.  From now on the action `name` may
    /// report exactly what `func` may return.
    pub fn register_action<F>(&mut self, name: &str, func: F) where
        F: Fn(&[serde_json::Value]) -> NodeResult + 'static,

        requires
            forall|args: &[serde_json::Value]| call_requires(func, (args,)),
        ensures
            with_action(
                old(self).names(),
                final(self).names(),
                name@,
                |args: Seq<serde_json::Value>, status: NodeResult| may_return(func, args, status),
            ),
            final(self).flight() == old(self).flight(),
    {
        let kind = ActionKind::Immediate(Box::new(FnAct::new(func)));
        assert(kind matches ActionKind::Immediate(handler) && forall|args: Seq<serde_json::Value>, status: NodeResult|
            (#[trigger] handler.says(args, status)) == may_return(func, args, status));
        let ghost kept = kind;
        self.actions.insert(String::from_str(name), kind);
        proof {
            let before = old(self).actions@;
            let now = self.actions@;
            assert(now[name@] == kept);
            assert forall|other: Seq<char>| #[trigger] now.contains_key(other) && other != name@ implies now[other]
                == before[other] && before.contains_key(other) by {
                assert(now.dom().contains(other) == before.dom().contains(other));
            }
            assert(self.names().deferred =~= old(self).names().deferred.remove(name@));
            assert forall|other: Seq<char>, args: Seq<serde_json::Value>, done: async_channel::Sender<bool>|
                (#[trigger] self.names().may_start(other, args, done)) == (other != name@ && old(
                    self,
                ).names().may_start(other, args, done)) by {
                if other != name@ {
                    assert(now.dom().contains(other) == before.dom().contains(other));
                    if before.contains_key(other) {
                        assert(now[other] == before[other]);
                    }
                }
            }
            assert forall|other: Seq<char>, args: Seq<serde_json::Value>, status: NodeResult|
                (#[trigger] self.names().may_report(other, args, status)) == if other == name@ {
                    may_return(func, args, status)
                } else {
                    old(self).names().may_report(other, args, status)
                } by {
                if other != name@ {
                    assert(now.dom().contains(other) == before.dom().contains(other));
                    if before.contains_key(other) {
                        assert(now[other] == before[other]);
                    }
                }
            }
        }
    }

    /// Registers `spawn` as the asynchronous action `name`, in place of an
    /// earlier action of that name.  `spawn` starts the effect and hands it
    /// the sender through which the effect reports its completion flag.
    pub fn register_async_action<F>(&mut self, name: &str, spawn: F) where
        F: Fn(&[serde_json::Value], async_channel::Sender<bool>) + 'static,

        requires
            forall|args: &[serde_json::Value], done: async_channel::Sender<bool>|
                call_requires(spawn, (args, done)),
        ensures
            with_async_action(
                old(self).names(),
                final(self).names(),
                name@,
                |args: Seq<serde_json::Value>, done: async_channel::Sender<bool>| may_start(spawn, args, done),
            ),
            final(self).flight() == old(self).flight(),
    {
        let kind = ActionKind::Deferred(Box::new(FnLaunch::new(spawn)));
        assert(kind matches ActionKind::Deferred(launcher) && forall|
            args: Seq<serde_json::Value>,
            done: async_channel::Sender<bool>,
        | (#[trigger] launcher.starts(args, done)) == may_start(spawn, args, done));
        let ghost kept = kind;
        self.actions.insert(String::from_str(name), kind);
        proof {
            let before = old(self).actions@;
            let now = self.actions@;
            assert(now[name@] == kept);
            assert forall|other: Seq<char>| #[trigger] now.contains_key(other) && other != name@ implies now[other]
                == before[other] && before.contains_key(other) by {
                assert(now.dom().contains(other) == before.dom().contains(other));
            }
            assert(self.names().deferred =~= old(self).names().deferred.insert(name@));
            assert forall|other: Seq<char>, args: Seq<serde_json::Value>, done: async_channel::Sender<bool>|
                (#[trigger] self.names().may_start(other, args, done)) == if other == name@ {
                    may_start(spawn, args, done)
                } else {
                    old(self).names().may_start(other, args, done)
                } by {
                if other != name@ {
                    assert(now.dom().contains(other) == before.dom().contains(other));
                    if before.contains_key(other) {
                        assert(now[other] == before[other]);
                    }
                }
            }
            assert forall|other: Seq<char>, args: Seq<serde_json::Value>, status: NodeResult|
                (#[trigger] self.names().may_report(other, args, status)) == (other != name@ && old(
                    self,
                ).names().may_report(other, args, status)) by {
                if other != name@ {
                    assert(now.dom().contains(other) == before.dom().contains(other));
                    if before.contains_key(other) {
                        assert(now[other] == before[other]);
                    }
                }
            }
        }
    }

    /// Registers `func` as the source of draws, in place of the one before:
    /// a lotto node that has to select a child takes the child at the
    /// remainder of what `func` returns by the number of its children.
    pub fn register_draw<F>(&mut self, func: F) where F: Fn() -> u128 + 'static
        requires
            call_requires(func, ()),
        ensures
            with_draw(old(self).names(), final(self).names(), |number: u128| call_ensures(func, (), number)),
            final(self).flight() == old(self).flight(),
    {
        let source = Source { handler: Box::new(FnDraw::new(func)) };
        assert(forall|number: u128| (#[trigger] source.handler.gives(number)) == call_ensures(func, (), number));
        self.source = source;
    }

    /// Draws a number from the registered source.
    pub fn draw(&self) -> (number: u128)
        ensures
            self.names().may_draw(number),
    {
        self.source.handler.draw()
    }

    /// The dedup keys of the effects in flight, each once.
    pub fn current_tasks(&self) -> (keys: Vec<String>)
        ensures
            lists(keys@, self.flight().in_flight()),
    {
        self.tasks.keys()
    }

    /// Evaluates the condition `name` on `args`.  A registered condition is
    /// invoked once, on `args`, and its answer returned; an unregistered
    /// name is an error.
    pub fn evaluate_condition(&self, name: &str, args: &[serde_json::Value]) -> (answer: Result<bool, TickError>)
        ensures
            condition_answer(self.names(), Call { name: name@, args: args@ }, lifted(answer)),
    {
        let name = String::from_str(name);
        match self.conditions.get(&name) {
            Some(condition) => Ok(condition.handler.check(args)),
            None => Err(TickError::ConditionNotFound(name)),
        }
    }

    /// Runs the action `name` on `args` for one tick.  An unregistered name
    /// is an error.  A synchronous action is invoked once, on `args`, and
    /// its status returned.  An asynchronous action is bridged under its
    /// dedup key: in flight, its effect is polled once and no other is
    /// started; not in flight, its spawner is invoked once, on `args`.
    pub fn execute_action(&mut self, name: &str, args: &[serde_json::Value]) -> (result: Result<
        NodeResult,
        TickError,
    >)
        ensures
            final(self).names() == old(self).names(),
            exists|polled: Option<bool>, fresh: async_channel::Receiver<bool>|
                {
                    &&& #[trigger] action_answer(
                        old(self).names(),
                        old(self).flight(),
                        Call { name: name@, args: args@ },
                        lifted(result),
                        polled,
                        fresh,
                    )
                    &&& final(self).flight() == if result is Ok {
                        flight_acted(
                            old(self).names(),
                            old(self).flight(),
                            Call { name: name@, args: args@ },
                            polled,
                            fresh,
                        )
                    } else {
                        old(self).flight()
                    }
                },
    {
        let filed = String::from_str(name);
        let ghost call = Call { name: name@, args: args@ };
        match self.actions.get(&filed) {
            Some(ActionKind::Immediate(handler)) => {
                let status = handler.act(args);
                assert(action_answer(old(self).names(), old(self).flight(), call, Ok(status), None, arbitrary()));
                Ok(status)
            },
            Some(ActionKind::Deferred(launcher)) => {
                let key = task_key(name, args);
                let ghost under = key@;
                let status = self.tasks.advance(key, launcher, args);
                proof {
                    let (polled, fresh) = choose|polled: Option<bool>, fresh: async_channel::Receiver<bool>|
                        bridged(old(self).tasks@, under, polled, fresh) == (Step { flight: self.tasks@, status });
                    if !old(self).tasks@.in_flight().contains(under) {
                        let done = choose|done: async_channel::Sender<bool>| launcher.starts(args@, done);
                        assert(old(self).names().may_start(name@, args@, done));
                    }
                    assert(action_answer(old(self).names(), old(self).flight(), call, Ok(status), polled, fresh));
                    assert(self.flight() == flight_acted(old(self).names(), old(self).flight(), call, polled, fresh));
                }
                Ok(status)
            },
            None => {
                assert(action_answer(
                    old(self).names(),
                    old(self).flight(),
                    call,
                    Err(Fault::ActionNotFound(name@)),
                    None,
                    arbitrary(),
                ));
                Err(TickError::ActionNotFound(filed))
            },
        }
    }
}

} // verus!
