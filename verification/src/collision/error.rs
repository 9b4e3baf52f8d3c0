//! Failures of geometric construction.

use vstd::prelude::*;

verus! {

/// Why a geometric object could not be built from an input point set.
/// Construction failures are returned to the immediate caller; nothing
/// in this crate defaults them away.
#[derive(Clone, Copy, Debug, PartialEq, Eq, Structural)]
pub enum GeometryError {
    /// Fewer than three input points were supplied, so no polygon or
    /// bounding box can be formed.
    TooFewPoints,
    /// All input points are collinear or coincident: no positive-area
    /// convex region exists.
    DegenerateInput,
}

} // verus!
