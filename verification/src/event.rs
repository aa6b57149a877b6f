//! The trait of events that are sent out of the simulator.

use vstd::prelude::*;

verus! {

/// An event that can be sent out of the simulator, from any thread.
pub trait EventTrait: Clone + Send + Sync {
    fn test(&self);
}

} // verus!
