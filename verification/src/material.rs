//! Remembering the material a body had before interaction changed it.

use vstd::prelude::*;

verus! {

/// The original material of a body: the one already remembered, or, the
/// first time, the material the body has now.
pub open spec fn remembered<H>(original: Option<H>, current: H) -> Option<H> {
    match original {
        Some(h) => Some(h),
        None => Some(current),
    }
}

/// Remembers the material a body has, unless one is remembered already.
pub fn set_initial_material<H>(original: Option<H>, current: H) -> (r: Option<H>)
    ensures
        r == remembered(original, current),
{
    match original {
        Some(h) => Some(h),
        None => Some(current),
    }
}

/// Once a material is remembered it stays: later materials do not replace it.
pub proof fn lemma_first_material_stays<H>(original: Option<H>, first: H, later: H)
    ensures
        remembered(remembered(original, first), later) == remembered(original, first),
        remembered(original, first) is Some,
{
}

} // verus!
