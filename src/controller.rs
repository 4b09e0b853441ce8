//! The controller's configuration slot and the batching of its events.
use crate::error::{Address, Error};
use vstd::prelude::*;

verus! {

/// A named task of the controller.
#[derive(Clone, Debug, PartialEq, Eq)]
pub struct TaskInfo {
    pub name: String,
}

/// What happened on a connection.
#[derive(Clone, Debug, PartialEq, Eq)]
pub enum EventType {
    NewTcp(Address),
    CloseConnection,
    Outbound(usize),
    Inbound(usize),
}

/// An event with its id and its time in milliseconds since the Unix epoch.
#[derive(Clone, Debug, PartialEq, Eq)]
pub struct Event {
    pub uuid: u128,
    pub event_type: EventType,
    pub time: u64,
}

/// Relies on `SystemTime::now` and `SystemTime::duration_since`: the current
/// time in milliseconds since the Unix epoch, or `None` for a clock set
/// before it.
#[verifier::external_body]
fn now_millis() -> (r: Option<u128>) {
    match std::time::SystemTime::now().duration_since(std::time::UNIX_EPOCH) {
        Ok(d) => Some(d.as_millis()),
        Err(_) => None,
    }
}

impl Event {
    /// An event stamped with the current time.
    pub fn new(uuid: u128, event_type: EventType) -> (r: Event)
        ensures
            r.uuid == uuid,
            r.event_type == event_type,
    {
        let time: u64 = match now_millis() {
            Some(ms) => if ms <= u64::MAX as u128 {
                ms as u64
            } else {
                u64::MAX
            },
            None => 0,
        };
        Event { uuid, event_type, time }
    }
}

/// The event reported for a connect attempt through a controlled net to
/// `addr`: `NewTcp` once the connection is made, nothing when it failed.
pub fn connect_event(connected: bool, addr: Address) -> (r: Option<EventType>)
    ensures
        r is Some <==> connected,
        r matches Some(e) ==> e == EventType::NewTcp(addr),
{
    if connected {
        Some(EventType::NewTcp(addr))
    } else {
        None
    }
}

/// The result of setting a configuration on a slot holding `slot`: the new
/// content and whether it succeeded.
pub open spec fn update_spec<C>(slot: Option<C>, config: C) -> (Option<C>, bool) {
    match slot {
        Some(c) => (Some(c), false),
        None => (Some(config), true),
    }
}

/// The result of removing the configuration of a slot holding `slot`.
pub open spec fn remove_spec<C>(slot: Option<C>) -> (Option<C>, bool) {
    match slot {
        Some(_) => (None, true),
        None => (None, false),
    }
}

/// Holds at most one active configuration: it is set when empty and
/// removed when set, never overwritten.
pub struct ConfigSlot<C> {
    config: Option<C>,
}

impl<C> ConfigSlot<C> {
    pub closed spec fn view(&self) -> Option<C> {
        self.config
    }

    pub fn new() -> (r: Self)
        ensures
            r.view() is None,
    {
        ConfigSlot { config: None }
    }

    pub fn config(&self) -> (r: Option<&C>)
        ensures
            r is Some <==> self.view() is Some,
            r is Some ==> *r->0 == self.view()->0,
    {
        self.config.as_ref()
    }

    /// Sets the configuration; fails with `InvalidState` where one is
    /// already set, which stays.
    pub fn update_config(&mut self, config: C) -> (r: Result<(), Error>)
        ensures
            final(self).view() == update_spec(old(self).view(), config).0,
            r is Ok <==> update_spec(old(self).view(), config).1,
            r matches Err(e) ==> e is InvalidState,
    {
        if self.config.is_some() {
            return Err(Error::InvalidState("this controller already has a config".to_owned()));
        }
        self.config = Some(config);
        Ok(())
    }

    /// Removes the configuration; fails with `InvalidState` where none is
    /// set.
    pub fn remove_config(&mut self) -> (r: Result<(), Error>)
        ensures
            final(self).view() == remove_spec(old(self).view()).0,
            r is Ok <==> remove_spec(old(self).view()).1,
            r matches Err(e) ==> e is InvalidState,
    {
        if self.config.is_none() {
            return Err(Error::InvalidState("failed to remove config from controller".to_owned()));
        }
        self.config = None;
        Ok(())
    }
}

/// Setting a configuration twice without removing it in between fails the
/// second time, and removing from an empty slot fails.
pub proof fn lemma_single_active_config<C>(slot: Option<C>, a: C, b: C)
    ensures
        update_spec(update_spec(slot, a).0, b).1 == false,
        remove_spec::<C>(None).1 == false,
        slot is None ==> update_spec(slot, a).1 && remove_spec(update_spec(slot, a).0).1,
{
}

/// The largest number of events in one batch.
pub const BATCH_CAP: usize = 16;

/// What polling the event queue without waiting gave.
pub enum Poll<T> {
    Ready(T),
    /// Nothing was queued.
    Empty,
    /// The queue is closed and drained.
    Closed,
}

/// What the event loop does next.
#[derive(Debug, PartialEq, Eq)]
pub enum Action<T> {
    /// Send this batch to the subscribers.
    Publish(Vec<T>),
    /// Poll again at once.
    Continue,
    /// Nothing is queued: wait a moment before polling again.
    Sleep,
    /// The queue is closed: stop.
    Stop,
}

/// What a step does on pending events `pending`: the events then pending
/// and the batch published, if any.
pub open spec fn step_spec<T>(pending: Seq<T>, poll: Poll<T>) -> (Seq<T>, Option<Seq<T>>) {
    match poll {
        Poll::Ready(e) => if pending.len() + 1 >= BATCH_CAP {
            (Seq::empty(), Some(pending.push(e)))
        } else {
            (pending.push(e), None)
        },
        Poll::Empty | Poll::Closed => if pending.len() > 0 {
            (Seq::empty(), Some(pending))
        } else {
            (pending, None)
        },
    }
}

/// The batch an action publishes.
pub open spec fn published<T>(a: Action<T>) -> Option<Seq<T>> {
    match a {
        Action::Publish(v) => Some(v@),
        _ => None,
    }
}

/// Gathers events into batches: a batch is published when it is full or
/// when no further event is queued.
pub struct Batcher<T> {
    pending: Vec<T>,
}

impl<T> Batcher<T> {
    pub closed spec fn view(&self) -> Seq<T> {
        self.pending@
    }

    pub open spec fn wf(&self) -> bool {
        self.view().len() < BATCH_CAP
    }

    pub fn new() -> (r: Self)
        ensures
            r.wf(),
            r.view() == Seq::<T>::empty(),
    {
        Batcher { pending: Vec::new() }
    }

    fn take(&mut self) -> (r: Vec<T>)
        ensures
            r@ == old(self).view(),
            final(self).view() == Seq::<T>::empty(),
    {
        let mut batch: Vec<T> = Vec::new();
        core::mem::swap(&mut batch, &mut self.pending);
        batch
    }

    /// Handles one poll of the queue.
    pub fn step(&mut self, poll: Poll<T>) -> (r: Action<T>)
        requires
            old(self).wf(),
        ensures
            final(self).wf(),
            final(self).view() == step_spec(old(self).view(), poll).0,
            published(r) == step_spec(old(self).view(), poll).1,
            poll is Ready && r is Continue <==> poll is Ready && published(r) is None,
            poll is Empty && published(r) is None ==> r is Sleep,
            poll is Closed && published(r) is None ==> r is Stop,
    {
        match poll {
            Poll::Ready(e) => {
                self.pending.push(e);
                if self.pending.len() >= BATCH_CAP {
                    Action::Publish(self.take())
                } else {
                    Action::Continue
                }
            },
            Poll::Empty => {
                if self.pending.len() > 0 {
                    Action::Publish(self.take())
                } else {
                    Action::Sleep
                }
            },
            Poll::Closed => {
                if self.pending.len() > 0 {
                    Action::Publish(self.take())
                } else {
                    Action::Stop
                }
            },
        }
    }
}

/// The events of a sequence of polls, in order.
pub open spec fn readies<T>(polls: Seq<Poll<T>>) -> Seq<T>
    decreases polls.len(),
{
    if polls.len() == 0 {
        Seq::empty()
    } else {
        let rest = readies(polls.drop_last());
        match polls.last() {
            Poll::Ready(e) => rest.push(e),
            _ => rest,
        }
    }
}

/// Steps through `polls` from `pending`: the events left pending and the
/// batches published, in order.
pub open spec fn run<T>(pending: Seq<T>, polls: Seq<Poll<T>>) -> (Seq<T>, Seq<Seq<T>>)
    decreases polls.len(),
{
    if polls.len() == 0 {
        (pending, Seq::empty())
    } else {
        let (p, batches) = run(pending, polls.drop_last());
        let (after, out) = step_spec(p, polls.last());
        match out {
            Some(b) => (after, batches.push(b)),
            None => (after, batches),
        }
    }
}

/// The concatenation of batches, in order.
pub open spec fn concat<T>(batches: Seq<Seq<T>>) -> Seq<T>
    decreases batches.len(),
{
    if batches.len() == 0 {
        Seq::empty()
    } else {
        concat(batches.drop_last()) + batches.last()
    }
}

/// Batching keeps every event, in the order it arrived, and each batch
/// holds between one and `BATCH_CAP` events.
pub proof fn lemma_batches_keep_events<T>(pending: Seq<T>, polls: Seq<Poll<T>>)
    requires
        pending.len() < BATCH_CAP,
    ensures
        concat(run(pending, polls).1) + run(pending, polls).0 == pending + readies(polls),
        run(pending, polls).0.len() < BATCH_CAP,
        forall|i: int|
            0 <= i < run(pending, polls).1.len() ==> 1 <= (#[trigger] run(pending, polls).1[i]).len()
                <= BATCH_CAP,
    decreases polls.len(),
{
    if polls.len() > 0 {
        let prev = polls.drop_last();
        lemma_batches_keep_events(pending, prev);
        let (p, batches) = run(pending, prev);
        let (after, out) = step_spec(p, polls.last());
        match out {
            Some(b) => {
                assert(batches.push(b).drop_last() =~= batches);
                match polls.last() {
                    Poll::Ready(e) => {
                        assert(b == p.push(e));
                        assert(concat(batches) + p.push(e) =~= (concat(batches) + p).push(e));
                        assert((pending + readies(prev)).push(e) =~= pending + readies(prev).push(e));
                        assert(concat(batches) + b + after =~= pending + readies(prev).push(e));
                    },
                    _ => {
                        assert(concat(batches) + b + after =~= pending + readies(prev));
                    },
                }
                assert forall|i: int| 0 <= i < batches.push(b).len() implies 1 <= (
                #[trigger] batches.push(b)[i]).len() <= BATCH_CAP by {
                    if i < batches.len() {
                        assert(batches.push(b)[i] == batches[i]);
                    }
                }
            },
            None => {
                match polls.last() {
                    Poll::Ready(e) => {
                        assert(after == p.push(e));
                        assert(concat(batches) + p.push(e) =~= (concat(batches) + p).push(e));
                        assert((pending + readies(prev)).push(e) =~= pending + readies(prev).push(e));
                        assert(concat(batches) + after =~= pending + readies(prev).push(e));
                    },
                    _ => {
                        assert(concat(batches) + after =~= pending + readies(prev));
                    },
                }
            },
        }
    }
}

} // verus!
