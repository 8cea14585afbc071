//! Observed attribute snapshots: a component sees the latest merged values
//! of its observed attributes, not a log of individual edits. Users
//! implement [`Attributes`] for the snapshot type of their component.

use vstd::prelude::*;

verus! {

/// The merged snapshot of a component's observed attributes.
pub trait Attributes: Sized {
    /// The names of the attributes the component observes; only changes to
    /// these are delivered.
    fn observed() -> Vec<String> {
        Vec::new()
    }

    /// The default snapshot, in force before the first change and restored
    /// on disconnect.
    fn fresh() -> Self;

    /// Merges one platform attribute change into the snapshot: the
    /// attribute's new value, or nothing if the attribute was removed.
    fn update(&mut self, name: &String, value: Option<String>);

    /// The current snapshot, as delivered to a pending reader.
    fn snapshot(&self) -> (r: Self)
        ensures
            r == *self,
    ;
}

/// A component observing no attributes.
impl Attributes for () {
    fn fresh() -> Self {
    }

    fn update(&mut self, name: &String, value: Option<String>) {
    }

    fn snapshot(&self) -> (r: Self) {
    }
}

/// One observed attribute, merged value by value.
pub trait Attribute {
    /// Takes the attribute's new value, or nothing if it was removed.
    fn update(&mut self, value: Option<String>);
}

/// The plain form of an observed attribute: its latest raw value. The cell
/// is wholly replaced on each change — a snapshot, not a history.
impl Attribute for Option<String> {
    fn update(&mut self, value: Option<String>)
        ensures
            *final(self) == value,
    {
        *self = value;
    }
}

} // verus!
