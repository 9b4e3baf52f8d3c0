use collide2d::collision::convex::{dist_sq, vertex_angle, Convex, VertexAngle};
use collide2d::collision::error::GeometryError;
use collide2d::common::vec2d::Vec2d;

fn pts(coords: &[(i64, i64)]) -> Vec<Vec2d> {
    coords.iter().map(|&(x, y)| Vec2d::new(x, y)).collect()
}

fn has_vertex(c: &Convex, x: i64, y: i64) -> bool {
    c.vertices().iter().any(|v| *v == Vec2d::new(x, y))
}

#[test]
fn test_convex_from_vertices() {
    // test too few vertices
    let mut v: Vec<Vec2d> = Vec::new();
    assert!(Convex::new(&v).is_err());
    v.push(Vec2d::new(0, 0));
    v.push(Vec2d::new(4, 4));
    assert!(Convex::new(&v).is_err());

    // test line
    v.push(Vec2d::new(8, 8));
    v.push(Vec2d::new(12, 12));
    assert!(Convex::new(&v).is_err());
    v.pop();
    v.pop();

    // test basic hull
    v.push(Vec2d::new(4, 0));
    let r = Convex::new(&v);
    let r_ok = r.ok().unwrap();
    {
        let r_vertices = r_ok.vertices();
        assert_eq!(3, r_vertices.len());
        assert!(has_vertex(&r_ok, 0, 0));
        assert!(has_vertex(&r_ok, 4, 4));
        assert!(has_vertex(&r_ok, 4, 0));
    }

    // test add point at cw angle to last point
    v.push(Vec2d::new(8, 4));
    let r = Convex::new(&v);
    let r_ok = r.ok().unwrap();
    {
        let r_vertices = r_ok.vertices();
        assert_eq!(4, r_vertices.len());
        assert!(has_vertex(&r_ok, 0, 0));
        assert!(has_vertex(&r_ok, 4, 4));
        assert!(has_vertex(&r_ok, 4, 0));
        assert!(has_vertex(&r_ok, 8, 4));
    }
    v.pop();

    // add internal point
    v.push(Vec2d::new(2, 2));
    let r = Convex::new(&v);
    let r_ok = r.ok().unwrap();
    {
        let r_vertices = r_ok.vertices();
        assert_eq!(3, r_vertices.len());
        assert!(has_vertex(&r_ok, 0, 0));
        assert!(has_vertex(&r_ok, 4, 4));
        assert!(has_vertex(&r_ok, 4, 0));
    }

    // add collinear points
    v.push(Vec2d::new(4, 2));
    v.push(Vec2d::new(4, 1));
    let r = Convex::new(&v);
    let r_ok = r.ok().unwrap();
    {
        let r_vertices = r_ok.vertices();
        assert_eq!(3, r_vertices.len());
        assert!(has_vertex(&r_ok, 0, 0));
        assert!(has_vertex(&r_ok, 4, 4));
        assert!(has_vertex(&r_ok, 4, 0));
    }
}

#[test]
fn hull_failure_too_few_and_degenerate() {
    let empty: Vec<Vec2d> = Vec::new();
    assert_eq!(Convex::new(&empty).err(), Some(GeometryError::TooFewPoints));
    assert_eq!(
        Convex::new(&pts(&[(1, 1)])).err(),
        Some(GeometryError::TooFewPoints)
    );
    assert_eq!(
        Convex::new(&pts(&[(1, 1), (2, 2)])).err(),
        Some(GeometryError::TooFewPoints)
    );
    // three collinear points have no positive-area hull
    assert_eq!(
        Convex::new(&pts(&[(0, 0), (1, 1), (2, 2)])).err(),
        Some(GeometryError::DegenerateInput)
    );
    // coincident points as well
    assert_eq!(
        Convex::new(&pts(&[(3, 3), (3, 3), (3, 3), (3, 3)])).err(),
        Some(GeometryError::DegenerateInput)
    );
    // a horizontal line through distinct points
    assert_eq!(
        Convex::new(&pts(&[(0, 5), (4, 5), (2, 5), (9, 5)])).err(),
        Some(GeometryError::DegenerateInput)
    );
}

#[test]
fn hull_scenario_triangle_with_interior_point() {
    // the triangle alone
    let tri = Convex::new(&pts(&[(0, 0), (2, 2), (2, 0)])).unwrap();
    assert_eq!(tri.vertices().len(), 3);
    assert!(has_vertex(&tri, 0, 0));
    assert!(has_vertex(&tri, 2, 2));
    assert!(has_vertex(&tri, 2, 0));
    // counter-clockwise adjacency: (0,0) -> (2,0) -> (2,2)
    let vs = tri.vertices();
    let i0 = vs.iter().position(|v| *v == Vec2d::new(0, 0)).unwrap();
    assert_eq!(vs[(i0 + 1) % 3], Vec2d::new(2, 0));
    assert_eq!(vs[(i0 + 2) % 3], Vec2d::new(2, 2));

    // an interior point leaves the hull unchanged
    let with_inner = Convex::new(&pts(&[(0, 0), (2, 2), (2, 0), (1, 1)])).unwrap();
    assert_eq!(with_inner.vertices().len(), 3);
    assert!(has_vertex(&with_inner, 0, 0));
    assert!(has_vertex(&with_inner, 2, 2));
    assert!(has_vertex(&with_inner, 2, 0));
}

#[test]
fn hull_normals_are_outward_edge_perpendiculars() {
    let sq = Convex::new(&pts(&[(0, 0), (4, 0), (4, 4), (0, 4)])).unwrap();
    let vs = sq.vertices();
    let ns = sq.normals();
    assert_eq!(vs.len(), 4);
    assert_eq!(ns.len(), 4);
    for i in 0..4 {
        let a = vs[i];
        let b = vs[(i + 1) % 4];
        let edge = Vec2d::new(b.x - a.x, b.y - a.y);
        assert_eq!(ns[i], Vec2d::new(edge.y, -edge.x));
        // outward: the normal points away from the square's center (2,2)
        let mid_x = a.x + b.x - 4;
        let mid_y = a.y + b.y - 4;
        assert!(ns[i].x * mid_x + ns[i].y * mid_y > 0);
    }
}

#[test]
fn vertex_angle_classifies_turns_exactly() {
    let o = Vec2d::new(0, 0);
    assert_eq!(
        vertex_angle(o, Vec2d::new(2, 0), Vec2d::new(2, 1)),
        VertexAngle::CounterClockwise
    );
    assert_eq!(
        vertex_angle(o, Vec2d::new(2, 0), Vec2d::new(2, -1)),
        VertexAngle::Clockwise
    );
    assert_eq!(
        vertex_angle(o, Vec2d::new(2, 2), Vec2d::new(5, 5)),
        VertexAngle::Collinear
    );
    assert_eq!(dist_sq(o, Vec2d::new(3, 4)), 25);
}
