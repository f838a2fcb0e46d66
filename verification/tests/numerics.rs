use raytracer::color::Color;
use raytracer::fixed::{Fixed, SCALE};
use raytracer::vec3::Vec3;

#[test]
fn scale_is_two_to_the_sixteen() {
    assert_eq!(SCALE, 65536);
    assert_eq!(Fixed::from_int(1).raw(), 65536);
    assert_eq!(Fixed::from_int(-3).raw(), -196608);
}

#[test]
fn fixed_add_sub_neg() {
    let a = Fixed::from_int(5);
    let b = Fixed::from_raw(32768);
    assert_eq!(a.add(b).raw(), 5 * 65536 + 32768);
    assert_eq!(a.sub(b).raw(), 5 * 65536 - 32768);
    assert_eq!(b.neg().raw(), -32768);
    assert_eq!(a.abs(), a);
    assert_eq!(a.neg().abs(), a);
}

#[test]
fn fixed_mul_truncates_toward_zero() {
    let half = Fixed::from_raw(32768);
    assert_eq!(half.mul(half).raw(), 16384);
    let third = Fixed::from_int(1).div(Fixed::from_int(3));
    assert_eq!(third.raw(), 21845);
    let neg_third = Fixed::from_int(-1).div(Fixed::from_int(3));
    assert_eq!(neg_third.raw(), -21845);
}

#[test]
fn fixed_saturates_at_the_range_ends() {
    let big = Fixed::from_raw(i64::MAX);
    assert_eq!(big.add(Fixed::from_int(1)).raw(), i64::MAX);
    assert_eq!(big.neg().add(Fixed::from_int(-1)).raw(), i64::MIN);
    assert_eq!(big.mul(big).raw(), i64::MAX);
}

#[test]
fn fixed_sqrt_exact_squares() {
    assert_eq!(Fixed::from_int(4).sqrt(), Fixed::from_int(2));
    assert_eq!(Fixed::from_int(400).sqrt(), Fixed::from_int(20));
    assert_eq!(Fixed::from_int(0).sqrt(), Fixed::from_int(0));
    assert_eq!(Fixed::from_raw(16384).sqrt(), Fixed::from_raw(32768));
}

#[test]
fn fixed_sqrt_rounds_down() {
    assert_eq!(Fixed::from_int(2).sqrt(), Fixed::from_raw(92681));
    assert_eq!(Fixed::from_int(3).sqrt(), Fixed::from_raw(113511));
}

#[test]
fn fixed_comparisons() {
    let a = Fixed::from_int(2);
    let b = Fixed::from_int(3);
    assert!(a.lt(b));
    assert!(a.le(a));
    assert!(b.gt(a));
    assert!(b.ge(b));
    assert!(Fixed::zero().is_zero());
}

#[test]
fn vec3_componentwise_ops() {
    let a = Vec3::new(Fixed::from_int(1), Fixed::from_int(2), Fixed::from_int(3));
    let b = Vec3::new(Fixed::from_int(4), Fixed::from_int(-5), Fixed::from_int(6));
    let s = a.add(b);
    assert_eq!(s.x(), Fixed::from_int(5));
    assert_eq!(s.y(), Fixed::from_int(-3));
    assert_eq!(s.z(), Fixed::from_int(9));
    let d = a.sub(b);
    assert_eq!(d.x(), Fixed::from_int(-3));
    let n = b.neg();
    assert_eq!(n.y(), Fixed::from_int(5));
    let p = a.direct_product(b);
    assert_eq!(p.z(), Fixed::from_int(18));
    let sc = a.scale(Fixed::from_int(10));
    assert_eq!(sc.y(), Fixed::from_int(20));
}

#[test]
fn vec3_dot_and_norm() {
    let a = Vec3::new(Fixed::from_int(3), Fixed::from_int(4), Fixed::zero());
    assert_eq!(a.dot_product(a), Fixed::from_int(25));
    assert_eq!(a.norm_squared(), Fixed::from_int(25));
    assert_eq!(a.norm(), Fixed::from_int(5));
    let unit = a.normalize();
    let raw_x = unit.x().raw();
    assert_eq!(raw_x, 3 * 65536 / 5);
    assert_eq!(unit.z(), Fixed::zero());
}

#[test]
fn white_is_the_direct_product_identity() {
    let c = Color::new(0, 128, 64);
    assert_eq!(Color::new(255, 255, 255).direct_product(c), c);
    assert_eq!(c.direct_product(Color::new(255, 255, 255)), c);
}

#[test]
fn direct_product_exact_channels() {
    let a = Color::new(100, 200, 255);
    let b = Color::new(100, 50, 3);
    let p = a.direct_product(b);
    assert_eq!(p, Color::new(39, 39, 3));
}

#[test]
fn black_annihilates_direct_product() {
    let c = Color::new(17, 99, 255);
    assert_eq!(Color::black().direct_product(c), Color::new(0, 0, 0));
}

#[test]
fn color_scale_clamps_and_truncates() {
    let c = Color::new(100, 200, 255);
    let half = Fixed::from_raw(32768);
    assert_eq!(c.scale(half), Color::new(50, 100, 127));
    assert_eq!(c.scale(Fixed::from_int(2)), Color::new(200, 255, 255));
    assert_eq!(c.scale(Fixed::from_int(-1)), Color::new(0, 0, 0));
    assert_eq!(c.scale(Fixed::from_int(1)), c);
}

#[test]
fn ppm_pixel_line_bytes() {
    let c = Color::new(255, 0, 12);
    assert_eq!(c.ppm().bytes(), b"255 0 12".to_vec());
    let d = Color::new(0, 0, 0);
    assert_eq!(d.ppm().bytes(), b"0 0 0".to_vec());
}
