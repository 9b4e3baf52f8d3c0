//! A 2D collision-detection core for simulated rigid bodies.
//!
//! The crate decides, for a set of convex shapes, which pairs plausibly
//! overlap (broadphase sweep-and-prune over axis-aligned bounding boxes)
//! and, for a given pair, whether they actually overlap (narrowphase
//! separating-axis test on convex polygons).
//!
//! All geometry is carried out exactly, on integer lattice coordinates;
//! interval endpoints coming from floating-point data enter through the
//! order-preserving codec in [`codec`], which maps IEEE 754 bit patterns
//! to totally ordered `i64` keys.

pub mod codec;
pub mod collision;
pub mod common;
pub mod util;
