use twoxel::fixed::{cos, fadd, fdiv, fmul, fsub, isqrt, sin, LIMIT, SCALE};
use twoxel::point::Point;

#[test]
fn arithmetic_rounds_and_saturates() {
    assert_eq!(fmul(1_500_000, 2_000_000), 3_000_000);
    assert_eq!(fmul(1, 500_000), 1);
    assert_eq!(fmul(-1, 500_000), -1);
    assert_eq!(fdiv(SCALE, 3 * SCALE), 333_333);
    assert_eq!(fdiv(2 * SCALE, 3 * SCALE), 666_667);
    assert_eq!(fdiv(SCALE, 0), 0);
    assert_eq!(fadd(LIMIT, 1), LIMIT);
    assert_eq!(fsub(-LIMIT, 1), -LIMIT);
    assert_eq!(fmul(i64::MAX, i64::MAX), LIMIT);
}

#[test]
fn square_root_rounds_down() {
    assert_eq!(isqrt(0), 0);
    assert_eq!(isqrt(15), 3);
    assert_eq!(isqrt(16), 4);
    assert_eq!(isqrt(u128::MAX), u64::MAX as u128);
}

#[test]
fn trigonometry_is_close() {
    assert_eq!(cos(0), SCALE);
    assert_eq!(sin(0), 0);
    for k in -40..40 {
        let a = k as f64 * 0.37;
        let c = cos((a * 1e6).round() as i64) as f64 / 1e6;
        let s = sin((a * 1e6).round() as i64) as f64 / 1e6;
        assert!((c - a.cos()).abs() < 1e-5, "cos {}", a);
        assert!((s - a.sin()).abs() < 1e-5, "sin {}", a);
    }
}

#[test]
fn vector_operations() {
    let p = Point::new(3 * SCALE, 4 * SCALE);
    assert_eq!(p.norm(), 5 * SCALE);
    assert_eq!(p.normalized(), Point::new(600_000, 800_000));
    assert_eq!(p.orth(), Point::new(-4 * SCALE, 3 * SCALE));
    assert_eq!(p.middle(Point::new(SCALE, 0)), Point::new(2 * SCALE, 2 * SCALE));
    assert_eq!(p.dot(Point::new(SCALE, SCALE)), 7 * SCALE);
    assert_eq!(Point::new(0, 0).normalized(), Point::new(0, 0));
}
