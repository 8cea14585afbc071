//! Event-sink lifecycle: the single-shot spawner that binds a sink to a
//! committed live node, and the decision logic of the delivery task that
//! pulls events from the node's stream and offers them to the sink with
//! backpressure, buffering at most one in-flight event.

use vstd::prelude::*;

use crate::ops::DomOp;

verus! {

/// The lifecycle of a spawner: not yet spawned, or spawned as a delivery
/// task.
#[derive(PartialEq, Eq, Structural, Debug)]
pub enum SpawnState {
    Unused,
    Spawned(u64),
}

/// A deferred binding of an event sink to a live node. Not active until the
/// owning virtual node is committed; exactly one spawn per spawner, and
/// spawning twice is a caller error ruled out by contract.
pub struct SinkSpawner {
    sink: u64,
    state: SpawnState,
}

impl SinkSpawner {
    /// The identifier of the sink to deliver to.
    pub closed spec fn sink(self) -> u64 {
        self.sink
    }

    /// The current lifecycle state.
    pub closed spec fn state(self) -> SpawnState {
        self.state
    }

    /// Creates an unused spawner for the given sink.
    pub fn new(sink: u64) -> (r: SinkSpawner)
        ensures
            r.sink() == sink,
            r.state() == SpawnState::Unused,
    {
        SinkSpawner { sink, state: SpawnState::Unused }
    }

    /// Spawns the sink against the committed live node `target`, as delivery
    /// task `task`, and returns the operation that starts delivery. A
    /// spawner spawns at most once.
    pub fn spawn(&mut self, task: u64, target: u64) -> (r: DomOp)
        requires
            old(self).state() == SpawnState::Unused,
        ensures
            final(self).sink() == old(self).sink(),
            final(self).state() == SpawnState::Spawned(task),
            r == (DomOp::SpawnSink { task, sink: old(self).sink(), target }),
    {
        self.state = SpawnState::Spawned(task);
        DomOp::SpawnSink { task, sink: self.sink, target }
    }

    /// The delivery task to cancel when the owning tree is dropped without
    /// this node having been re-committed, or none if the spawner never
    /// spawned.
    pub fn abort_task(&self) -> (r: Option<u64>)
        ensures
            r == match self.state() {
                SpawnState::Unused => None::<u64>,
                SpawnState::Spawned(task) => Some(task),
            },
    {
        match self.state {
            SpawnState::Unused => None,
            SpawnState::Spawned(task) => Some(task),
        }
    }
}

/// What the delivery task's stream poll observed.
pub enum StreamPoll<T> {
    /// The stream yielded an event.
    Item(T),
    /// The stream ended.
    End,
    /// The stream has nothing yet.
    Pending,
}

/// What the delivery task decides after one stream observation.
pub enum SinkStep<T> {
    /// Offer this event to the sink now, then poll the stream again.
    Send(T),
    /// The sink is not ready: the event is buffered and the task suspends.
    Suspended,
    /// The stream ended: flush the sink and finish.
    Finish,
    /// The stream has nothing yet: flush the sink and suspend.
    Wait,
}

/// The state of one delivery task: at most one in-flight event is buffered
/// while the sink is not ready to accept it.
pub struct SinkTask<T> {
    buffered: Option<T>,
}

impl<T> SinkTask<T> {
    /// The buffered in-flight event, if any.
    pub closed spec fn buffered(self) -> Option<T> {
        self.buffered
    }

    /// A fresh delivery task has no event in flight.
    pub fn new() -> (r: SinkTask<T>)
        ensures
            r.buffered() is None,
    {
        SinkTask { buffered: None }
    }

    /// Whether an event is in flight, waiting for the sink.
    pub fn has_buffered(&self) -> (r: bool)
        ensures
            r == (self.buffered() is Some),
    {
        self.buffered.is_some()
    }

    /// At the start of a poll, a buffered event is offered before anything
    /// else: it is handed out if the sink is ready, and stays buffered
    /// otherwise (the task must then suspend). Source order is preserved
    /// because no new event is pulled while one is in flight.
    pub fn flush_buffered(&mut self, sink_ready: bool) -> (r: Option<T>)
        ensures
            match old(self).buffered() {
                Some(event) => {
                    if sink_ready {
                        r == Some(event) && final(self).buffered() is None
                    } else {
                        r is None && final(self).buffered() == old(self).buffered()
                    }
                },
                None => r is None && final(self).buffered() is None,
            },
    {
        if sink_ready {
            let mut taken: Option<T> = None;
            core::mem::swap(&mut taken, &mut self.buffered);
            taken
        } else {
            None
        }
    }

    /// Decides what one stream observation means, with no event in flight:
    /// an item is sent if the sink is ready and buffered otherwise; the end
    /// of the stream finishes the task; a pending stream suspends it.
    pub fn on_stream_event(&mut self, event: StreamPoll<T>, sink_ready: bool) -> (r: SinkStep<T>)
        requires
            old(self).buffered() is None,
        ensures
            match event {
                StreamPoll::Item(e) => {
                    if sink_ready {
                        r == SinkStep::Send(e) && final(self).buffered() is None
                    } else {
                        r is Suspended && final(self).buffered() == Some(e)
                    }
                },
                StreamPoll::End => r is Finish && final(self).buffered() is None,
                StreamPoll::Pending => r is Wait && final(self).buffered() is None,
            },
    {
        match event {
            StreamPoll::Item(e) => {
                if sink_ready {
                    SinkStep::Send(e)
                } else {
                    self.buffered = Some(e);
                    SinkStep::Suspended
                }
            },
            StreamPoll::End => SinkStep::Finish,
            StreamPoll::Pending => SinkStep::Wait,
        }
    }
}

} // verus!
