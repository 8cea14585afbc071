//! Event sinks carried by identifier: a sink registered with the library is
//! referred to in virtual trees and operation logs by its number.

use vstd::prelude::*;

verus! {

/// An event sink that knows its own identifier. The identifier is what a
/// virtual tree stores and what a spawn operation names.
pub trait IdSink {
    /// The identifier under which this sink is registered.
    fn id(&self) -> u64;
}

} // verus!
