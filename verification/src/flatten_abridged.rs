//! Abridged stream flattening: a stream of streams is flattened by always
//! switching to the newest inner stream, abandoning whatever remained of the
//! previous one. Rapid outer items therefore coalesce: only the latest inner
//! stream is ever drained.

use vstd::prelude::*;

verus! {

/// What one poll step of the flattened stream decides.
pub enum FlattenStep {
    /// Poll the outer stream (again): a newer inner stream may be waiting.
    PollOuter,
    /// The outer stream is quiet and an inner stream is held: poll it.
    PollInner,
    /// The outer stream ended: the flattened stream ends now.
    Finished,
    /// Nothing to do until a stream wakes the task.
    Wait,
}

/// The state of an abridged flatten over an outer stream of inner streams.
/// The outer stream itself and the values of the inner streams are held by
/// the embedder's poll loop; this state decides what to poll and which inner
/// stream is current.
pub struct FlattenAbridged<St, U> {
    stream: St,
    next: Option<U>,
    done: bool,
}

impl<St, U> FlattenAbridged<St, U> {
    /// The outer stream.
    pub closed spec fn stream(self) -> St {
        self.stream
    }

    /// The inner stream currently being drained, if any.
    pub closed spec fn next(self) -> Option<U> {
        self.next
    }

    /// Whether the outer stream has ended.
    pub closed spec fn done(self) -> bool {
        self.done
    }

    /// Wraps an outer stream; no inner stream is held yet.
    pub fn new(stream: St) -> (r: FlattenAbridged<St, U>)
        ensures
            r.stream() == stream,
            r.next() is None,
            !r.done(),
    {
        FlattenAbridged { stream, next: None, done: false }
    }

    /// The outer stream yielded a new inner stream: it replaces whatever
    /// inner stream was current, so that successive outer items coalesce to
    /// the newest. The poll loop then polls the outer stream again.
    pub fn on_outer_item(&mut self, inner: U) -> (r: FlattenStep)
        ensures
            final(self).stream() == old(self).stream(),
            final(self).next() == Some(inner),
            final(self).done() == old(self).done(),
            r is PollOuter,
    {
        self.next = Some(inner);
        FlattenStep::PollOuter
    }

    /// The outer stream ended: the flattened stream ends immediately, even
    /// if an inner stream was still held.
    pub fn on_outer_end(&mut self) -> (r: FlattenStep)
        ensures
            final(self).stream() == old(self).stream(),
            final(self).next() == old(self).next(),
            final(self).done(),
            r is Finished,
    {
        self.done = true;
        FlattenStep::Finished
    }

    /// The outer stream has nothing yet: drain the current inner stream if
    /// one is held, otherwise wait.
    pub fn on_outer_pending(&self) -> (r: FlattenStep)
        ensures
            self.next() is Some ==> r is PollInner,
            self.next() is None ==> r is Wait,
    {
        if self.next.is_some() {
            FlattenStep::PollInner
        } else {
            FlattenStep::Wait
        }
    }

    /// The current inner stream ended: it is dropped and the outer stream is
    /// polled again.
    pub fn on_inner_end(&mut self) -> (r: FlattenStep)
        ensures
            final(self).stream() == old(self).stream(),
            final(self).next() is None,
            final(self).done() == old(self).done(),
            r is PollOuter,
    {
        self.next = None;
        FlattenStep::PollOuter
    }

    /// The flattened stream is over once no inner stream is held and the
    /// outer stream has ended.
    pub fn is_terminated(&self) -> (r: bool)
        ensures
            r == (self.next() is None && self.done()),
    {
        self.next.is_none() && self.done
    }

    /// Borrows the outer stream mutably, for the poll loop that drives it.
    pub fn stream_mut(&mut self) -> (r: &mut St)
        ensures
            *r == old(self).stream(),
            final(self).stream() == *final(r),
            final(self).next() == old(self).next(),
            final(self).done() == old(self).done(),
    {
        &mut self.stream
    }

    /// Borrows the current inner stream mutably, for the poll loop that
    /// drains it.
    pub fn next_mut(&mut self) -> (r: &mut Option<U>)
        ensures
            *r == old(self).next(),
            final(self).next() == *final(r),
            final(self).stream() == old(self).stream(),
            final(self).done() == old(self).done(),
    {
        &mut self.next
    }
}

/// An abridged flat-map: each outer item is mapped to an inner stream by the
/// embedder's mapping function, then flattened as [`FlattenAbridged`] does.
pub struct FlatMapAbridged<St, U, F> {
    inner: FlattenAbridged<St, U>,
    f: F,
}

impl<St, U, F> FlatMapAbridged<St, U, F> {
    /// The flattening state.
    pub closed spec fn inner(self) -> FlattenAbridged<St, U> {
        self.inner
    }

    /// The mapping function.
    pub closed spec fn mapping(self) -> F {
        self.f
    }

    /// Wraps an outer stream and a mapping from outer items to inner
    /// streams.
    pub fn new(stream: St, f: F) -> (r: FlatMapAbridged<St, U, F>)
        ensures
            r.inner().stream() == stream,
            r.inner().next() is None,
            !r.inner().done(),
            r.mapping() == f,
    {
        FlatMapAbridged { inner: FlattenAbridged::new(stream), f }
    }

    /// An outer item, already mapped to its inner stream, replaces the
    /// current one.
    pub fn on_outer_item(&mut self, inner: U) -> (r: FlattenStep)
        ensures
            final(self).mapping() == old(self).mapping(),
            final(self).inner().next() == Some(inner),
            final(self).inner().done() == old(self).inner().done(),
            r is PollOuter,
    {
        self.inner.on_outer_item(inner)
    }
}

} // verus!
