use renderer::drawing_target::Colour;
use renderer::fixed::{div_i64, div_round_i64, isqrt_u128, SCALE};
use renderer::matrix::Matrix44;
use renderer::point::{Point2, Point3, Point4};

#[test]
fn truncating_division_rounds_toward_zero() {
    assert_eq!(div_i64(7, 2), 3);
    assert_eq!(div_i64(-7, 2), -3);
    assert_eq!(div_i64(7, -2), -3);
    assert_eq!(div_i64(-7, -2), 3);
}

#[test]
fn rounding_division_rounds_to_nearest() {
    assert_eq!(div_round_i64(7, 2), 4);
    assert_eq!(div_round_i64(5, 2), 3);
    assert_eq!(div_round_i64(4, 3), 1);
    assert_eq!(div_round_i64(-7, 2), -3);
}

#[test]
fn integer_square_root_is_exact_floor() {
    assert_eq!(isqrt_u128(0), 0);
    assert_eq!(isqrt_u128(1), 1);
    assert_eq!(isqrt_u128(35), 5);
    assert_eq!(isqrt_u128(36), 6);
    let sc = SCALE as u128;
    assert_eq!(isqrt_u128(30 * sc * sc), 358955);
}

#[test]
fn point2_algebra() {
    let a = Point2::new(3, -4);
    let b = Point2::new(1, 2);
    assert_eq!(a.add(b), Point2::new(4, -2));
    assert_eq!(a.sub(b), Point2::new(2, -6));
    assert_eq!(a.mul(3), Point2::new(9, -12));
    let mut t = a;
    t.transpose();
    assert_eq!(t, Point2::new(-4, 3));
}

#[test]
fn point3_products() {
    let x = Point3::new(SCALE, 0, 0);
    let y = Point3::new(0, SCALE, 0);
    let z = Point3::new(0, 0, SCALE);
    assert_eq!(x.dot(&y), 0);
    assert_eq!(x.dot(&x), SCALE);
    assert_eq!(x.cross(&y), z);
    assert_eq!(y.cross(&x), Point3::new(0, 0, -SCALE));
    assert_eq!(x.length_squared(), SCALE);
    assert_eq!(Point3::new(3 * SCALE, 4 * SCALE, 0).length(), 5 * SCALE);
}

#[test]
fn normalise_gives_unit_fixed_length() {
    let v = Point3::new(3 * SCALE, 4 * SCALE, 0);
    let n = v.normalise();
    // 3/5 and 4/5 in fixed point, truncated.
    assert_eq!(n, Point3::new(39321, 52428, 0));
}

#[test]
fn homogeneous_round_trip() {
    let p = Point3::new(2 * SCALE, -3 * SCALE, 5 * SCALE);
    let h = p.to_homog();
    assert_eq!(h.w, SCALE);
    let back = h.to_affine();
    assert_eq!(back, p);
}

#[test]
fn to_affine_divides_by_w() {
    let h = Point4 { x: 4 * SCALE, y: 2 * SCALE, z: -6 * SCALE, w: 2 * SCALE };
    assert_eq!(h.to_affine(), Point3::new(2 * SCALE, SCALE, -3 * SCALE));
}

#[test]
fn identity_matrix_fixes_points() {
    let m = Matrix44::identity();
    let p = Point4 { x: 123456, y: -654321, z: 42, w: SCALE };
    assert_eq!(m.mul_point(p), p);
}

#[test]
fn matrix_product_with_identity() {
    let id = Matrix44::identity();
    let mut m = Matrix44::identity();
    m.m[0][3] = 7 * SCALE;
    m.m[2][1] = -3 * SCALE;
    let r = m.mul(id);
    assert_eq!(r.m, m.m);
    let l = id.mul(m);
    assert_eq!(l.m, m.m);
}

#[test]
fn colour_scale_is_truncating_and_saturating() {
    let c = Colour::new(255, 128, 0);
    let half = c.scale(SCALE / 2);
    assert_eq!((half.r, half.g, half.b), (127, 64, 0));
    let full = c.scale(SCALE);
    assert_eq!((full.r, full.g, full.b), (255, 128, 0));
    let over = c.scale(2 * SCALE);
    assert_eq!((over.r, over.g, over.b), (255, 255, 0));
    let shaded = Colour::new(255, 255, 0).scale(59628);
    assert_eq!((shaded.r, shaded.g, shaded.b), (232, 232, 0));
}
