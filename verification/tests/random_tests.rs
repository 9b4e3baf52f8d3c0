//! Deterministic pseudo-random stress tests: many inputs, checked
//! against brute force or first principles.

use collide2d::codec;
use collide2d::collision::broadphase::{IdPair, SweepAndPrune, TrackedObject};
use collide2d::collision::convex::Convex;
use collide2d::collision::intersect::Intersect;
use collide2d::collision::project::{ProjectedBox2d, Projection};
use collide2d::common::transform::Transform;
use collide2d::common::vec2d::Vec2d;

/// A small linear congruential generator, seeded per test.
struct Lcg(u64);

impl Lcg {
    fn next(&mut self) -> u64 {
        self.0 = self
            .0
            .wrapping_mul(6364136223846793005)
            .wrapping_add(1442695040888963407);
        self.0 >> 16
    }

    fn in_range(&mut self, lo: i64, hi: i64) -> i64 {
        lo + (self.next() % ((hi - lo + 1) as u64)) as i64
    }
}

fn cross_i128(o: Vec2d, a: Vec2d, b: Vec2d) -> i128 {
    let ax = (a.x - o.x) as i128;
    let ay = (a.y - o.y) as i128;
    let bx = (b.x - o.x) as i128;
    let by = (b.y - o.y) as i128;
    ax * by - ay * bx
}

#[test]
fn random_hulls_are_convex_and_contain_their_points() {
    let mut rng = Lcg(12345);
    for _round in 0..50 {
        let n = 3 + (rng.next() % 20) as usize;
        let points: Vec<Vec2d> = (0..n)
            .map(|_| Vec2d::new(rng.in_range(-50, 50), rng.in_range(-50, 50)))
            .collect();
        match Convex::new(&points) {
            Err(_) => {
                // rejected inputs must indeed be degenerate: every
                // triple collinear (or fewer than three points)
                for a in &points {
                    for b in &points {
                        for c in &points {
                            assert_eq!(cross_i128(*a, *b, *c), 0);
                        }
                    }
                }
            }
            Ok(hull) => {
                let vs = hull.vertices();
                let m = vs.len();
                assert!(m >= 3);
                // strictly convex counter-clockwise
                for i in 0..m {
                    let t = cross_i128(vs[i], vs[(i + 1) % m], vs[(i + 2) % m]);
                    assert!(t > 0);
                }
                // every input point lies on or inside the hull
                for p in &points {
                    for i in 0..m {
                        assert!(cross_i128(vs[i], vs[(i + 1) % m], *p) >= 0);
                    }
                }
            }
        }
    }
}

#[test]
fn random_broadphase_matches_brute_force() {
    let mut rng = Lcg(99);
    for _round in 0..20 {
        let n = (rng.next() % 12) as usize;
        let objects: Vec<TrackedObject> = (0..n)
            .map(|id| {
                let x0 = rng.in_range(-20, 20);
                let y0 = rng.in_range(-20, 20);
                let w = rng.in_range(0, 10);
                let h = rng.in_range(0, 10);
                TrackedObject::new(
                    id as u64,
                    ProjectedBox2d {
                        x: Projection::new(x0, x0 + w),
                        y: Projection::new(y0, y0 + h),
                    },
                )
            })
            .collect();
        let mut sap = SweepAndPrune::new();
        // feed in two batches to exercise incremental updates
        let split = objects.len() / 2;
        sap.batch_insert(&objects[..split]);
        sap.batch_insert(&objects[split..]);

        let mut expected: Vec<IdPair> = Vec::new();
        for i in 0..objects.len() {
            for j in (i + 1)..objects.len() {
                if objects[i].projections.intersect(&objects[j].projections) {
                    expected.push(IdPair(objects[i].id.min(objects[j].id), objects[i].id.max(objects[j].id)));
                }
            }
        }
        assert_eq!(sap.pairs.len(), expected.len());
        for p in &expected {
            assert!(sap.pairs.contains(p));
        }
    }
}

#[test]
fn random_codec_round_trip_and_order() {
    let mut rng = Lcg(7);
    let mut values: Vec<f64> = Vec::new();
    for _ in 0..200 {
        let bits = rng.next().wrapping_mul(0x9E3779B97F4A7C15);
        let f = f64::from_bits(bits);
        if f.is_finite() {
            values.push(f);
        }
        assert_eq!(codec::decode(codec::encode(bits)), bits);
    }
    for a in &values {
        for b in &values {
            if a < b {
                assert!(codec::encode(a.to_bits()) < codec::encode(b.to_bits()));
            }
        }
    }
}

#[test]
fn random_sat_is_symmetric() {
    let mut rng = Lcg(4242);
    let id = Transform::identity();
    for _round in 0..30 {
        let make = |rng: &mut Lcg| -> Option<Convex> {
            let n = 3 + (rng.next() % 6) as usize;
            let points: Vec<Vec2d> = (0..n)
                .map(|_| Vec2d::new(rng.in_range(-15, 15), rng.in_range(-15, 15)))
                .collect();
            Convex::new(&points).ok()
        };
        let (a, b) = (make(&mut rng), make(&mut rng));
        if let (Some(a), Some(b)) = (a, b) {
            let shift = Transform::new(
                Vec2d::new(rng.in_range(-25, 25), rng.in_range(-25, 25)),
                collide2d::common::rotation::Rotation::identity(),
            );
            assert_eq!(
                a.collides_with(&b, &id, &shift),
                b.collides_with(&a, &shift, &id)
            );
        }
    }
}
