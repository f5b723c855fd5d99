//! The seal that closes the set of cap kinds.

use vstd::prelude::*;

verus! {

/// Implemented only by the cap kinds of this crate.
pub trait Sealed {}

} // verus!
