//! Conversions between the math types of the engine and those of the
//! physics solver. Their implementors are the engine's and the solver's own
//! types, which belong to neither this crate nor the trait's user: Rust's
//! orphan rule admits such impls only beside the types, so no type here
//! implements them, and the application that converts carries twins of
//! these traits with the impls.

use vstd::prelude::*;

verus! {

/// Conversion of a physics-solver value into its engine counterpart.
pub trait IntoBevy<T> {
    fn into_bevy(self) -> T;
}

/// Conversion of an engine value into its physics-solver counterpart.
pub trait IntoRapier<T> {
    fn into_rapier(self) -> T;
}

} // verus!
