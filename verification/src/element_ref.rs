//! Out-of-band node capture: a write-once-per-render-pass cell that the
//! patch step fills with the committed live node, read by a post-commit
//! callback. Handles are reusable across render passes; each commit
//! overwrites the previous capture.

use vstd::prelude::*;

verus! {

/// A node-capture handle. An embedder holds one per capture identifier and
/// fills it when the reconciler reports the corresponding node committed.
pub struct ElementRef {
    current: Option<u64>,
}

impl ElementRef {
    /// The captured live node, if a commit has filled the handle.
    pub closed spec fn captured(self) -> Option<u64> {
        self.current
    }

    /// Creates an empty handle: before the first commit there is nothing to
    /// read.
    pub fn new() -> (r: ElementRef)
        ensures
            r.captured() is None,
    {
        ElementRef { current: None }
    }

    /// The currently captured live node, or nothing before the first
    /// commit.
    pub fn get(&self) -> (r: Option<u64>)
        ensures
            r == self.captured(),
    {
        self.current
    }

    /// Fills the handle with the live node committed for the marked
    /// position, overwriting any earlier capture.
    pub fn set_element(&mut self, element: u64)
        ensures
            final(self).captured() == Some(element),
    {
        self.current = Some(element);
    }
}

} // verus!
