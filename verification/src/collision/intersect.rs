//! The intersection-test capability.

use vstd::prelude::*;

verus! {

/// Intersect is a trait that should be implemented by objects that must
/// be able to determine whether or not they are intersecting another
/// object.  `intersect_spec` is the mathematical statement of the test;
/// the executable `intersect` is proved to decide it.
pub trait Intersect<T> {
    /// What it means for `self` to intersect `rhs`.
    spec fn intersect_spec(&self, rhs: &T) -> bool;

    /// Decides `intersect_spec`.
    fn intersect(&self, rhs: &T) -> (r: bool)
        ensures
            r == self.intersect_spec(rhs),
    ;
}

} // verus!
