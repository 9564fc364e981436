use vstd::prelude::*;

verus! {

/// Keeps `GcToken` from being implemented outside this crate.
pub trait Sealed {}

} // verus!
