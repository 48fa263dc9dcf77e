use vstd::prelude::*;

verus! {

/// Closes [`crate::coords::GridCoordinates`]: only the lattices of this crate implement it.
pub trait Sealed {
}

} // verus!
