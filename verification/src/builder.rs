//! Marker types selecting how request state is shared: atomically
//! reference-counted for asynchronous use, plainly reference-counted for
//! blocking use.

use vstd::prelude::*;

verus! {

/// Marker for atomically reference-counted sharing.
#[derive(Clone, Copy, Debug, PartialEq, Eq, Structural)]
pub struct ArcPointer;

/// Marker for plain reference-counted sharing.
#[derive(Clone, Copy, Debug, PartialEq, Eq, Structural)]
pub struct RcPointer;

} // verus!
