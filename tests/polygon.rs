use twoxel::fixed::SCALE;
use twoxel::point::Point;
use twoxel::polygon::Polygon;

fn fx(v: f64) -> i64 {
    (v * SCALE as f64).round() as i64
}

fn unit_square() -> Polygon {
    let mut vertices = vec![];
    vertices.push(Point::new(fx(0.0), fx(0.0)));
    vertices.push(Point::new(fx(1.0), fx(0.0)));
    vertices.push(Point::new(fx(1.0), fx(1.0)));
    vertices.push(Point::new(fx(0.0), fx(1.0)));
    Polygon::new(vertices)
}

#[test]
fn test_projection() {
    let poly = unit_square();
    let projection = poly.project(Point::new(fx(1.0), fx(0.0)));
    assert_eq!(projection[0], fx(0.0));
    assert_eq!(projection[1], fx(1.0));
}

#[test]
fn test_moment_of_inertia_square() {
    let poly = unit_square();
    let m = poly.get_moment_of_inertia() as f64 / SCALE as f64;
    assert!((m - 1.0 / 6.0).abs() < 0.00001);
}

#[test]
fn test_moment_of_inertia_almost_circle() {
    let mut points = vec![];
    let num_points = 10000;
    for j in 0..num_points {
        let angle = 2.0 * std::f64::consts::PI * (j as f64) / (num_points as f64);
        points.push(Point::new(fx(angle.cos()), fx(angle.sin())));
    }
    let poly = Polygon::new(points);
    let m = poly.get_moment_of_inertia() as f64 / SCALE as f64;
    assert!((m - 1.0 / 2.0).abs() < 0.0001);
}

#[test]
fn centroid_and_offsets_of_unit_square() {
    let poly = unit_square();
    assert_eq!(poly.pos, Point::new(fx(0.5), fx(0.5)));
    let sx: i64 = poly.offsets.iter().map(|o| o.x).sum();
    let sy: i64 = poly.offsets.iter().map(|o| o.y).sum();
    assert_eq!((sx, sy), (0, 0));
    assert_eq!(poly.offsets[0], Point::new(fx(-0.5), fx(-0.5)));
}

#[test]
fn offsets_of_a_triangle_sum_to_zero_within_rounding() {
    let vertices = vec![Point::new(0, 0), Point::new(fx(1.0), 0), Point::new(0, fx(1.0))];
    let poly = Polygon::new(vertices);
    assert_eq!(poly.pos, Point::new(333_333, 333_333));
    let sx: i64 = poly.offsets.iter().map(|o| o.x).sum();
    assert!(sx.abs() <= 1);
}

#[test]
fn normals_of_unit_square() {
    let poly = unit_square();
    let normals = poly.get_normals();
    assert_eq!(normals.len(), 4);
    assert_eq!(normals[0], Point::new(0, fx(-1.0)));
    assert_eq!(normals[1], Point::new(fx(1.0), 0));
    assert_eq!(normals[2], Point::new(0, fx(1.0)));
    assert_eq!(normals[3], Point::new(fx(-1.0), 0));
}

#[test]
fn pose_round_trip_restores_vertices() {
    let mut poly = unit_square();
    let pos = poly.pos;
    poly.update_pos(pos, 0);
    let start = poly.vertices.clone();
    assert_eq!(start, unit_square().vertices);
    let theta = fx(0.7);
    poly.update_pos(pos, theta);
    assert_ne!(poly.vertices, start);
    poly.update_pos(pos, theta + (-theta));
    assert_eq!(poly.vertices, start);
}

#[test]
fn quarter_turn_moves_corners() {
    let mut poly = unit_square();
    let pos = poly.pos;
    poly.update_pos(pos, twoxel::fixed::HALF_PI_FX);
    let v = poly.vertices[0];
    assert!((v.x - fx(1.0)).abs() <= 2);
    assert!((v.y - fx(0.0)).abs() <= 2);
}
