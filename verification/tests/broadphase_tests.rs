use collide2d::codec;
use collide2d::collision::broadphase::{IdPair, SweepAndPrune, TrackedObject};
use collide2d::collision::intersect::Intersect;
use collide2d::collision::project::{ProjectedBox2d, Projection};

/// Builds a projected box from floating-point extents through the
/// order-preserving codec, the way a floating-point client would.
fn boxed(id: u64, min: (f64, f64), max: (f64, f64)) -> TrackedObject {
    let proj = ProjectedBox2d {
        x: Projection::new(
            codec::encode(min.0.to_bits()),
            codec::encode(max.0.to_bits()),
        ),
        y: Projection::new(
            codec::encode(min.1.to_bits()),
            codec::encode(max.1.to_bits()),
        ),
    };
    TrackedObject::new(id, proj)
}

#[test]
fn test_sap_batch_insert() {
    let mut sap = SweepAndPrune::new();
    let batch: Vec<TrackedObject> = Vec::new();
    sap.batch_insert(&batch);
    assert_eq!(sap.pairs.len(), 0);
}

#[test]
fn broadphase_scenario_pair_appears() {
    let a = boxed(0, (0.0, 0.0), (1.0, 1.0));
    let b = boxed(1, (2.0, 2.0), (3.0, 3.0));
    let mut sap = SweepAndPrune::new();
    sap.batch_insert(&[a, b]);
    assert_eq!(sap.pairs.len(), 0);

    let c = boxed(2, (0.5, 0.5), (1.5, 1.5));
    sap.batch_insert(&[c]);
    assert_eq!(sap.pairs.len(), 1);
    assert_eq!(sap.pairs[0], IdPair(0, 2));
}

#[test]
fn broadphase_touching_boxes_pair_up() {
    // touching intervals count: [0,1] meets [1,2] at 1.0 on both axes
    let a = boxed(7, (0.0, 0.0), (1.0, 1.0));
    let b = boxed(9, (1.0, 1.0), (2.0, 2.0));
    let mut sap = SweepAndPrune::new();
    sap.batch_insert(&[a, b]);
    assert_eq!(sap.pairs.len(), 1);
    assert_eq!(sap.pairs[0], IdPair(7, 9));
}

#[test]
fn broadphase_duplicate_handle_is_skipped() {
    let a = boxed(5, (0.0, 0.0), (1.0, 1.0));
    let a_again = boxed(5, (10.0, 10.0), (11.0, 11.0));
    let mut sap = SweepAndPrune::new();
    sap.batch_insert(&[a, a_again]);
    assert_eq!(sap.objects.len(), 1);
    assert_eq!(sap.pairs.len(), 0);
}

#[test]
fn broadphase_matches_brute_force() {
    let objects = vec![
        boxed(0, (0.0, 0.0), (2.0, 2.0)),
        boxed(1, (1.0, 1.0), (3.0, 3.0)),
        boxed(2, (5.0, 5.0), (6.0, 6.0)),
        boxed(3, (1.5, -1.0), (5.5, 1.5)),
        boxed(4, (-3.0, -3.0), (-1.0, -1.0)),
        boxed(5, (5.5, 4.5), (7.0, 5.5)),
    ];
    let mut sap = SweepAndPrune::new();
    sap.batch_insert(&objects);

    let mut expected: Vec<IdPair> = Vec::new();
    for i in 0..objects.len() {
        for j in (i + 1)..objects.len() {
            if objects[i].projections.intersect(&objects[j].projections) {
                let (a, b) = (objects[i].id, objects[j].id);
                expected.push(if a < b { IdPair(a, b) } else { IdPair(b, a) });
            }
        }
    }
    assert_eq!(sap.pairs.len(), expected.len());
    for p in &expected {
        assert!(sap.pairs.contains(p));
    }
    for p in &sap.pairs {
        assert!(expected.contains(p));
    }
}

#[test]
fn broadphase_endpoint_lists_stay_sorted_and_bounded() {
    let mut sap = SweepAndPrune::new();
    sap.batch_insert(&[
        boxed(0, (3.0, -1.0), (4.0, 2.0)),
        boxed(1, (-2.0, 0.0), (0.5, 0.75)),
        boxed(2, (1.0, 1.0), (2.0, 2.0)),
    ]);
    assert_eq!(sap.xs.len(), 8);
    assert_eq!(sap.ys.len(), 8);
    for axis in [&sap.xs, &sap.ys] {
        assert_eq!(axis[0].val, i64::MIN);
        assert_eq!(axis[axis.len() - 1].val, i64::MAX);
        assert!(axis[0].owner.is_none());
        assert!(axis[axis.len() - 1].owner.is_none());
        for w in axis.windows(2) {
            assert!(w[0].val <= w[1].val);
        }
    }
}
