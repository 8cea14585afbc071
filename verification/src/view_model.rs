//! The component's model state and render scheduling: a model value, a
//! single pending render waiter, and a lifecycle bit. Mutations coalesce:
//! only the first mutation after a render registers a wake, and a render
//! pass reads the single current snapshot.

use vstd::prelude::*;

verus! {

/// Distinguished error returned when the model's lifecycle has ended: the
/// attempted mutation is dropped.
#[derive(Clone, Copy, PartialEq, Eq, Structural, Debug)]
pub struct Gone;

/// What polling for the next render yields.
pub enum RenderPoll {
    /// A render is already awaited: nothing until the model changes.
    Pending,
    /// Render now, from the current model value; the waiter is registered.
    Render,
}

/// A component's model: the current value, whether a render waiter is
/// registered, and whether the lifecycle has ended.
pub struct ViewModel<T> {
    value: T,
    render_waiter: bool,
    gone: bool,
}

impl<T> ViewModel<T> {
    /// The current model value.
    pub closed spec fn model(self) -> T {
        self.value
    }

    /// Whether a render waiter is registered.
    pub closed spec fn waiting(self) -> bool {
        self.render_waiter
    }

    /// Whether the lifecycle has ended.
    pub closed spec fn gone(self) -> bool {
        self.gone
    }

    /// Creates a live model around an initial value.
    pub fn new(initial: T) -> (r: ViewModel<T>)
        ensures
            r.model() == initial,
            !r.waiting(),
            !r.gone(),
    {
        ViewModel { value: initial, render_waiter: false, gone: false }
    }

    /// A borrow of the current value, for producing a render pass.
    pub fn value(&self) -> (r: &T)
        ensures
            *r == self.model(),
    {
        &self.value
    }

    /// Replaces the model value, waking the render waiter if one is
    /// registered. Once the lifecycle has ended the mutation is refused with
    /// [`Gone`] and nothing changes. The result says whether a waiter must
    /// be woken: a second mutation before the next render finds no waiter
    /// left, so rapid mutations coalesce into one wake.
    pub fn update(&mut self, v: T) -> (r: Result<bool, Gone>)
        ensures
            old(self).gone() ==> r == Err::<bool, Gone>(Gone) && *final(self) == *old(self),
            !old(self).gone() ==> {
                &&& r == Ok::<bool, Gone>(old(self).waiting())
                &&& final(self).model() == v
                &&& !final(self).waiting()
                &&& !final(self).gone()
            },
    {
        if self.gone {
            return Err(Gone);
        }
        self.value = v;
        let wake = self.render_waiter;
        self.render_waiter = false;
        Ok(wake)
    }

    /// Polls for the next render: if a waiter is already registered nothing
    /// is due, otherwise the waiter is registered and the embedder renders
    /// from the current value.
    pub fn poll_render(&mut self) -> (r: RenderPoll)
        ensures
            old(self).waiting() ==> r is Pending && *final(self) == *old(self),
            !old(self).waiting() ==> {
                &&& r is Render
                &&& final(self).model() == old(self).model()
                &&& final(self).waiting()
                &&& final(self).gone() == old(self).gone()
            },
    {
        if self.render_waiter {
            RenderPoll::Pending
        } else {
            self.render_waiter = true;
            RenderPoll::Render
        }
    }

    /// Ends the lifecycle: every later update is refused with [`Gone`].
    pub fn mark_gone(&mut self)
        ensures
            final(self).model() == old(self).model(),
            final(self).waiting() == old(self).waiting(),
            final(self).gone(),
    {
        self.gone = true;
    }
}

} // verus!
