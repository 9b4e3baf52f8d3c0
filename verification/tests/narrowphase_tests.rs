use collide2d::collision::convex::Convex;
use collide2d::common::rotation::{Rotation, ROT_SCALE};
use collide2d::common::transform::Transform;
use collide2d::common::vec2d::Vec2d;

fn pts(coords: &[(i64, i64)]) -> Vec<Vec2d> {
    coords.iter().map(|&(x, y)| Vec2d::new(x, y)).collect()
}

fn square(x0: i64, y0: i64, side: i64) -> Convex {
    Convex::new(&pts(&[
        (x0, y0),
        (x0 + side, y0),
        (x0 + side, y0 + side),
        (x0, y0 + side),
    ]))
    .unwrap()
}

#[test]
fn sat_scenario_overlapping_squares() {
    let a = square(0, 0, 2);
    let b = square(1, 1, 2);
    let id = Transform::identity();
    // overlap region [1,2] x [1,2]
    assert!(a.collides_with(&b, &id, &id));
    // translating the second square away separates them
    let moved = Transform::new(Vec2d::new(3, 0), Rotation::identity());
    assert!(!a.collides_with(&b, &id, &moved));
}

#[test]
fn sat_symmetry() {
    let a = square(0, 0, 2);
    let b = square(1, 1, 2);
    let id = Transform::identity();
    let moved = Transform::new(Vec2d::new(3, 0), Rotation::identity());
    assert_eq!(a.collides_with(&b, &id, &id), b.collides_with(&a, &id, &id));
    assert_eq!(
        a.collides_with(&b, &id, &moved),
        b.collides_with(&a, &moved, &id)
    );
    let far = Transform::new(Vec2d::new(100, 100), Rotation::identity());
    assert_eq!(
        a.collides_with(&b, &id, &far),
        b.collides_with(&a, &far, &id)
    );
}

#[test]
fn sat_touching_counts_as_colliding() {
    let a = square(0, 0, 2);
    let b = square(2, 0, 2);
    let id = Transform::identity();
    // sharing the edge x == 2: zero separation, not positive
    assert!(a.collides_with(&b, &id, &id));
}

#[test]
fn sat_quarter_turn_rotation() {
    let a = square(0, 0, 2);
    let b = square(0, 0, 2);
    let id = Transform::identity();
    // rotate the second square a quarter turn about the origin: it then
    // occupies [-2,0] x [0,2], touching the first square along x == 0
    let quarter = Transform::new(Vec2d::new(0, 0), Rotation::new(ROT_SCALE, 0));
    assert!(a.collides_with(&b, &id, &quarter));
    // moving the rotated square further left separates them
    let apart = Transform::new(Vec2d::new(-1, 0), Rotation::new(ROT_SCALE, 0));
    assert!(!a.collides_with(&b, &id, &apart));
}

#[test]
fn convex_aabb_under_transform() {
    let tri = Convex::new(&pts(&[(0, 0), (4, 0), (0, 4)])).unwrap();
    let shifted = Transform::new(Vec2d::new(10, 20), Rotation::identity());
    let b = tri.aabb(&shifted);
    assert_eq!(*b.min(), Vec2d::new(10, 20));
    assert_eq!(*b.max(), Vec2d::new(14, 24));
}
