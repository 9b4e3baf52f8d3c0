//! Plain vector, rotation and transform arithmetic on exact integer
//! lattice coordinates.

pub mod rotation;
pub mod transform;
pub mod vec2d;

pub use self::rotation::Rotation;
pub use self::transform::Transform;
pub use self::vec2d::Vec2d;
