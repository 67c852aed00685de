//! The task tracker: which asynchronous effects are in flight, by dedup key,
//! and how one tick moves an effect from started to resolved.

use vstd::prelude::*;
use crate::handlers::Launch;
use crate::status::NodeResult;
use crate::table::{lists, Table};

verus! {

/// The receiving end of a completion channel.
#[verifier::external_type_specification]
#[verifier::external_body]
#[verifier::reject_recursive_types(T)]
pub struct ExReceiver<T>(async_channel::Receiver<T>);

/// The sending end of a completion channel.
#[verifier::external_type_specification]
#[verifier::external_body]
#[verifier::reject_recursive_types(T)]
pub struct ExSender<T>(async_channel::Sender<T>);

/// `async_channel::bounded`: a fresh channel that holds at most `capacity`
/// messages.  The outside function panics on a capacity of zero, which the
/// precondition rules out; nothing is claimed of the two ends.
#[verifier::external_body]
fn completion_channel(capacity: usize) -> (ends: (async_channel::Sender<bool>, async_channel::Receiver<bool>))
    requires
        capacity > 0,
{
    async_channel::bounded(capacity)
}

/// `async_channel::Receiver::try_recv`: takes the message that is waiting, if
/// one is, without blocking.  An empty channel and a closed one both give
/// `None`.  Whether a message waits depends on the effect's progress, so
/// nothing is claimed of the result.
#[verifier::external_body]
fn try_receive(handle: &async_channel::Receiver<bool>) -> (polled: Option<bool>) {
    handle.try_recv().ok()
}

/// The asynchronous effects a tracker knows of.
pub struct Flight {
    /// The receiving end kept for each effect in flight, under its dedup key.
    pub handles: Map<Seq<char>, async_channel::Receiver<bool>>,
    /// How many effects have been started so far.
    pub launches: nat,
}

impl Flight {
    /// The dedup keys of the effects in flight.
    pub open spec fn in_flight(self) -> Set<Seq<char>> {
        self.handles.dom()
    }
}

/// What one bridging step gives.
pub struct Step {
    /// The effects after the step.
    pub flight: Flight,
    /// The status reported for this tick.
    pub status: NodeResult,
}

/// What a poll decides for the effect in flight under `key`: without a
/// completion flag the effect stays in flight, with its handle, and reports
/// `Running`; with one it leaves the tracker and reports `Success` for
/// `true`, `Failure` for `false`.  No other handle is touched, and nothing
/// is started.
pub open spec fn polled_step(flight: Flight, key: Seq<char>, polled: Option<bool>) -> Step {
    match polled {
        Some(flag) => Step {
            flight: Flight { handles: flight.handles.remove(key), launches: flight.launches },
            status: NodeResult::of_flag(flag),
        },
        None => Step { flight, status: NodeResult::Running },
    }
}

/// The bridging rule, for the effect under `key`, the answer `polled` of a
/// poll, and the receiving end `fresh` of a new channel.  An effect in
/// flight is polled and none is started, as `polled_step` says.  An effect
/// not in flight is started, which no poll precedes: `fresh` is kept under
/// `key`, beside the handles that were there, and the status is `Running`.
pub open spec fn bridged(
    flight: Flight,
    key: Seq<char>,
    polled: Option<bool>,
    fresh: async_channel::Receiver<bool>,
) -> Step {
    if flight.handles.contains_key(key) {
        polled_step(flight, key, polled)
    } else {
        Step {
            flight: Flight { handles: flight.handles.insert(key, fresh), launches: flight.launches + 1 },
            status: NodeResult::Running,
        }
    }
}

/// The effects in flight, each under its dedup key.
pub struct TaskTracker {
    tasks: Table<async_channel::Receiver<bool>>,
    launched: Ghost<nat>,
}

impl TaskTracker {
    /// The effects the tracker knows of.
    pub closed spec fn view(&self) -> Flight {
        Flight { handles: self.tasks@, launches: self.launched@ }
    }

    /// A tracker with nothing in flight and nothing started.
    pub fn new() -> (tracker: Self)
        ensures
            tracker@ == (Flight { handles: Map::<Seq<char>, async_channel::Receiver<bool>>::empty(), launches: 0 }),
    {
        TaskTracker { tasks: Table::new(), launched: Ghost(0) }
    }

    /// Tells whether an effect is in flight under `key`.
    pub fn contains(&self, key: &String) -> (present: bool)
        ensures
            present == self@.in_flight().contains(key@),
    {
        self.tasks.contains(key)
    }

    /// The dedup keys of the effects in flight, each once.
    pub fn keys(&self) -> (keys: Vec<String>)
        ensures
            lists(keys@, self@.in_flight()),
    {
        self.tasks.names()
    }

    /// The number of effects in flight.
    pub fn len(&self) -> (count: usize)
        ensures
            count == self@.in_flight().len(),
            self@.in_flight().finite(),
    {
        self.tasks.len()
    }

    /// Applies the answer of a poll to the effect under `key`, as the
    /// bridging rule says.  With a completion flag the effect leaves the
    /// tracker and the flag's status is returned; without one the effect
    /// stays and the status is `Running`.  Where nothing is in flight under
    /// `key` the tracker is left alone and `None` is returned.
    pub fn resolve(&mut self, key: &String, polled: Option<bool>) -> (status: Option<NodeResult>)
        ensures
            match status {
                Some(status) => old(self)@.in_flight().contains(key@) && polled_step(old(self)@, key@, polled) == (
                Step { flight: final(self)@, status }),
                None => !old(self)@.in_flight().contains(key@) && final(self)@ == old(self)@,
            },
    {
        if !self.tasks.contains(key) {
            return None;
        }
        match polled {
            Some(flag) => {
                self.tasks.remove(key);
                Some(NodeResult::from_flag(flag))
            },
            None => Some(NodeResult::Running),
        }
    }

    /// Moves the effect under `key` one tick forward, as the bridging rule
    /// says.  An effect in flight is polled once, without blocking, and the
    /// answer is applied as `resolve` says.  An effect not in flight is
    /// started: `launcher` is invoked once with `args` and the sending end of
    /// a fresh single-slot channel, the receiving end is kept under `key`,
    /// and the status is `Running`.  The launcher is invoked in no other
    /// case.
    pub fn advance(
        &mut self,
        key: String,
        launcher: &Box<dyn Launch>,
        args: &[serde_json::Value],
    ) -> (status: NodeResult)
        ensures
            exists|polled: Option<bool>, fresh: async_channel::Receiver<bool>|
                bridged(old(self)@, key@, polled, fresh) == (Step { flight: final(self)@, status }),
            !old(self)@.in_flight().contains(key@) ==> exists|done: async_channel::Sender<bool>|
                launcher.starts(args@, done),
    {
        let waiting = match self.tasks.get(&key) {
            Some(handle) => Some(try_receive(handle)),
            None => None,
        };
        match waiting {
            Some(polled) => {
                let status = match self.resolve(&key, polled) {
                    Some(status) => status,
                    None => NodeResult::Running,
                };
                assert(bridged(old(self)@, key@, polled, arbitrary()) == (Step { flight: self@, status }));
                status
            },
            None => {
                let (sender, receiver) = completion_channel(1);
                let ghost done = sender;
                launcher.launch(args, sender);
                assert(launcher.starts(args@, done));
                let ghost added = key@;
                let ghost count = self.launched@;
                let ghost fresh = receiver;
                self.tasks.insert(key, receiver);
                self.launched = Ghost(count + 1);
                assert(bridged(old(self)@, added, None, fresh) == (Step { flight: self@, status: NodeResult::Running }));
                NodeResult::Running
            },
        }
    }
}

} // verus!
