//! The simplest event sink: a callback invoked once per delivered event,
//! always ready, never exerting backpressure.

use vstd::prelude::*;

verus! {

/// A sink built from a single callback. The callback is applied to each
/// delivered event by the embedder's sink adapter; a listener is always
/// ready to accept the next event.
pub struct Listener<F> {
    f: F,
}

impl<F> Listener<F> {
    /// Wraps a callback as a sink.
    pub fn new(f: F) -> (r: Listener<F>)
        ensures
            r.callback() == f,
    {
        Listener { f }
    }

    /// The wrapped callback.
    pub closed spec fn callback(self) -> F {
        self.f
    }

    /// Hands the callback back out, for the adapter that delivers events.
    pub fn into_callback(self) -> (r: F)
        ensures
            r == self.callback(),
    {
        self.f
    }

    /// Borrows the callback mutably, for the adapter that invokes it once
    /// per delivered event.
    pub fn callback_mut(&mut self) -> (r: &mut F)
        ensures
            *r == old(self).callback(),
            final(self).callback() == *final(r),
    {
        &mut self.f
    }
}

} // verus!
