//! Collision detection: axis-aligned bounding boxes, the sweep-and-prune
//! broadphase, and the separating-axis narrowphase for convex polygons.

pub mod aabb;
pub mod broadphase;
pub mod convex;
pub mod error;
pub mod intersect;
pub mod project;

pub use self::aabb::Aabb;
pub use self::broadphase::{Container, IdPair, SweepAndPrune, SweepPoint, TrackedObject};
pub use self::convex::Convex;
pub use self::error::GeometryError;
pub use self::intersect::Intersect;
pub use self::project::Project2d;
pub use self::project::ProjectedBox2d;
pub use self::project::Projection;
