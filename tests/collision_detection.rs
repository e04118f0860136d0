use twoxel::body::get_rectangle;
use twoxel::collision_detection::{find_collisions, get_closest_points};
use twoxel::fixed::SCALE;
use twoxel::point::Point;
use twoxel::polygon::Polygon;

fn fx(v: f64) -> i64 {
    (v * SCALE as f64).round() as i64
}

fn dist(p1: Point, p2: Point) -> f64 {
    p1.minus(p2).norm() as f64 / SCALE as f64
}

#[test]
fn test_closest_points() {
    let mut vertices = vec![];
    vertices.push(Point::new(fx(0.0), fx(0.0)));
    vertices.push(Point::new(fx(1.0), fx(0.0)));
    vertices.push(Point::new(fx(1.0), fx(1.0)));
    vertices.push(Point::new(fx(0.0), fx(1.0)));
    let poly1 = Polygon::new(vertices);
    vertices = vec![];
    vertices.push(Point::new(fx(2.0), fx(0.0)));
    vertices.push(Point::new(fx(3.0), fx(0.0)));
    vertices.push(Point::new(fx(3.0), fx(1.0)));
    vertices.push(Point::new(fx(2.0), fx(1.0)));
    let poly2 = Polygon::new(vertices);
    let points = get_closest_points(&poly1, &poly2, Point::new(fx(1.0), fx(0.0)));
    let is_close = |p1: Point, p2: Point| dist(p1, p2) < 0.0001;
    assert!(is_close(points.0, Point::new(fx(1.0), fx(0.0))));
    assert!(is_close(points.1.unwrap(), Point::new(fx(1.0), fx(1.0))));

    vertices = vec![];
    vertices.push(Point::new(fx(0.0), fx(0.0)));
    vertices.push(Point::new(fx(1.5), fx(0.0)));
    vertices.push(Point::new(fx(1.0), fx(1.0)));
    vertices.push(Point::new(fx(0.0), fx(1.0)));
    let poly1 = Polygon::new(vertices);
    let points = get_closest_points(&poly1, &poly2, Point::new(fx(1.0), fx(0.0)));
    assert!(is_close(points.0, Point::new(fx(1.5), fx(0.0))));
    assert!(match points.1 {
        None => true,
        _ => false,
    });
}

#[test]
fn distant_squares_have_no_contacts() {
    let a = get_rectangle(Point::new(0, 0), SCALE, SCALE, SCALE);
    let b = get_rectangle(Point::new(fx(10.0), 0), SCALE, SCALE, SCALE);
    assert!(find_collisions(&a, &b).is_empty());
    let c = get_rectangle(Point::new(0, fx(10.0)), SCALE, SCALE, SCALE);
    assert!(find_collisions(&a, &c).is_empty());
    let d = get_rectangle(Point::new(fx(10.0), fx(10.0)), SCALE, SCALE, 0);
    assert!(find_collisions(&a, &d).is_empty());
}

#[test]
fn overlapping_squares_touch_along_an_edge() {
    let a = get_rectangle(Point::new(0, 0), SCALE, SCALE, SCALE);
    let b = get_rectangle(Point::new(fx(0.5), 0), SCALE, SCALE, SCALE);
    let contacts = find_collisions(&a, &b);
    assert_eq!(contacts.len(), 2);
    for c in contacts.iter() {
        assert_eq!(c.normal.y, 0);
        assert_eq!(c.normal.x.abs(), SCALE);
        assert_eq!(c.depth, fx(0.5));
        assert!(a.pos.minus(b.pos).dot(c.normal) >= 0);
    }
    assert_eq!(contacts[0].normal, contacts[1].normal);
    assert_ne!(contacts[0].pos, contacts[1].pos);
}

#[test]
fn contacts_have_nonnegative_depth_and_point_toward_the_first_body() {
    let a = get_rectangle(Point::new(0, 0), SCALE, SCALE, SCALE);
    let b = get_rectangle(Point::new(fx(0.3), fx(0.9)), SCALE, SCALE, 0);
    let contacts = find_collisions(&a, &b);
    assert!(!contacts.is_empty());
    for c in contacts.iter() {
        assert!(c.depth >= 0);
        let n = c.normal.norm();
        assert!((n - SCALE).abs() <= 2);
        assert!(a.pos.minus(b.pos).dot(c.normal) >= 0);
    }
}

#[test]
fn a_lone_closest_vertex_has_no_rival_within_the_margin() {
    let vertices = vec![Point::new(0, 0), Point::new(fx(1.5), 0), Point::new(fx(1.0), fx(1.0)), Point::new(0, fx(1.0))];
    let poly1 = Polygon::new(vertices);
    let poly2 = Polygon::new(vec![Point::new(fx(2.0), 0), Point::new(fx(3.0), 0), Point::new(fx(3.0), fx(1.0)), Point::new(fx(2.0), fx(1.0))]);
    let n = Point::new(SCALE, 0);
    let (closest, second) = get_closest_points(&poly1, &poly2, n);
    assert!(second.is_none());
    let c = poly2.pos.dot(n);
    let d = |v: Point| (v.dot(n) - c).abs();
    for v in poly1.vertices.iter().filter(|v| **v != closest) {
        assert!(d(*v) >= d(closest) + twoxel::collision_detection::COLLISION_MARGIN);
    }
}
