use collide2d::collision::aabb::Aabb;
use collide2d::collision::error::GeometryError;
use collide2d::collision::intersect::Intersect;
use collide2d::collision::project::Project2d;
use collide2d::common::vec2d::Vec2d;

fn pts(coords: &[(i64, i64)]) -> Vec<Vec2d> {
    coords.iter().map(|&(x, y)| Vec2d::new(x, y)).collect()
}

#[test]
fn aabb_new_too_few_points() {
    let empty: Vec<Vec2d> = Vec::new();
    assert_eq!(Aabb::new(&empty), Err(GeometryError::TooFewPoints));
    let one = pts(&[(1, 2)]);
    assert_eq!(Aabb::new(&one), Err(GeometryError::TooFewPoints));
    let two = pts(&[(1, 2), (3, 4)]);
    assert_eq!(Aabb::new(&two), Err(GeometryError::TooFewPoints));
}

#[test]
fn aabb_containment() {
    let v = pts(&[(3, -1), (-2, 5), (0, 0), (7, 2)]);
    let b = Aabb::new(&v).unwrap();
    assert_eq!(*b.min(), Vec2d::new(-2, -1));
    assert_eq!(*b.max(), Vec2d::new(7, 5));
    for p in &v {
        assert!(b.min().x <= p.x && p.x <= b.max().x);
        assert!(b.min().y <= p.y && p.y <= b.max().y);
    }
}

#[test]
fn aabb_intersects_cases() {
    let a = Aabb::new(&pts(&[(0, 0), (4, 0), (4, 4)])).unwrap();
    let overlapping = Aabb::new(&pts(&[(2, 2), (6, 2), (6, 6)])).unwrap();
    let touching = Aabb::new(&pts(&[(4, 0), (8, 0), (8, 4)])).unwrap();
    let disjoint = Aabb::new(&pts(&[(5, 5), (9, 5), (9, 9)])).unwrap();
    assert!(a.intersects(&overlapping));
    assert!(overlapping.intersects(&a));
    // touching edges count as intersecting: closed intervals
    assert!(a.intersects(&touching));
    assert!(!a.intersects(&disjoint));
    assert!(!disjoint.intersects(&a));
    // the Intersect trait runs the same test
    assert!(a.intersect(&touching));
    assert!(!a.intersect(&disjoint));
}

#[test]
fn aabb_translate_shifts_both_corners() {
    let mut b = Aabb::new(&pts(&[(0, 0), (4, 0), (4, 4)])).unwrap();
    b.translate(Vec2d::new(10, -3));
    assert_eq!(*b.min(), Vec2d::new(10, -3));
    assert_eq!(*b.max(), Vec2d::new(14, 1));
}

#[test]
fn aabb_recompute_rebuilds() {
    let mut b = Aabb::new(&pts(&[(0, 0), (4, 0), (4, 4)])).unwrap();
    assert_eq!(b.recompute(&pts(&[(1, 1), (2, 5), (-3, 2)])), Ok(()));
    assert_eq!(*b.min(), Vec2d::new(-3, 1));
    assert_eq!(*b.max(), Vec2d::new(2, 5));
    // failure leaves the box unchanged
    assert_eq!(b.recompute(&pts(&[(9, 9)])), Err(GeometryError::TooFewPoints));
    assert_eq!(*b.min(), Vec2d::new(-3, 1));
    assert_eq!(*b.max(), Vec2d::new(2, 5));
}

#[test]
fn aabb_projections_expose_axis_intervals() {
    let b = Aabb::new(&pts(&[(1, 2), (5, 2), (5, 7)])).unwrap();
    let proj = b.projections2d();
    assert_eq!(proj.x.enc_start(), 1);
    assert_eq!(proj.x.enc_end(), 5);
    assert_eq!(proj.y.enc_start(), 2);
    assert_eq!(proj.y.enc_end(), 7);
}
