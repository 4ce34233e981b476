//! Vector algebra over fixed-point scalars: one fixed-point unit is
//! 1_000_000, so 0.5 is written 500_000.

use rays::vec::Vec3;

#[test]
fn test_length() {
    let unit_x = Vec3::new(1_000_000, 0, 0);
    let unit_y = Vec3::new(0, 1_000_000, 0);
    let unit_z = Vec3::new(0, 0, 1_000_000);
    let zero = Vec3::new(0, 0, 0);

    assert_eq!(zero.length(), 0);
    assert_eq!(unit_x.length(), 1_000_000);
    assert_eq!(unit_y.length(), 1_000_000);
    assert_eq!(unit_z.length(), 1_000_000);

    assert_eq!(unit_x.length() * 2, 2_000_000);
    assert_eq!(unit_y.length() * 2, 2_000_000);
    assert_eq!(unit_z.length() * 2, 2_000_000);

    let v1 = Vec3::new(3_000_000, 4_000_000, 0);
    assert_eq!(v1.length(), 5_000_000);
}

#[test]
fn test_dot() {
    let unit_x = Vec3::new(1_000_000, 0, 0);
    let unit_y = Vec3::new(0, 1_000_000, 0);
    let unit_z = Vec3::new(0, 0, 1_000_000);

    assert_eq!(unit_x.dot(unit_x), 1_000_000);
    assert_eq!(unit_x.dot(unit_y), 0);
    assert_eq!(unit_x.dot(unit_z), 0);

    assert_eq!(unit_y.dot(unit_x), 0);
    assert_eq!(unit_y.dot(unit_y), 1_000_000);
    assert_eq!(unit_y.dot(unit_z), 0);

    assert_eq!(unit_z.dot(unit_x), 0);
    assert_eq!(unit_z.dot(unit_y), 0);
    assert_eq!(unit_z.dot(unit_z), 1_000_000);

    let v = Vec3::new(1_000_000, 2_000_000, 4_000_000);
    assert_eq!(v.dot(v), 21_000_000);
    assert_eq!(v.dot(unit_x), 1_000_000);
    assert_eq!(v.dot(unit_y), 2_000_000);
    assert_eq!(v.dot(unit_z), 4_000_000);
}

#[test]
fn test_identity() {
    let v1 = Vec3::new(1_000_000, 2_000_000, 3_000_000);
    let identity = Vec3::new(0, 0, 0);

    assert_eq!(v1.add(identity), v1);
    assert_eq!(identity.add(v1), v1);
    assert_eq!(identity.add(identity), identity)
}

#[test]
fn test_double() {
    let v1 = Vec3::new(1_000_000, 2_000_000, 3_000_000);
    let v2 = Vec3::new(2_000_000, 4_000_000, 6_000_000);

    assert_eq!(v1.add(v1), v2)
}

#[test]
fn test_zero() {
    let v1 = Vec3::new(1_000_000, 2_000_000, 3_000_000);
    let zero = Vec3::new(0, 0, 0);

    assert_eq!(v1.scale(0), zero);
}

#[test]
fn vec_test_identity() {
    let v1 = Vec3::new(1_000_000, 2_000_000, 3_000_000);
    let identity = 1_000_000;

    assert_eq!(v1.scale(identity), v1);
}

#[test]
fn test_scale() {
    let v1 = Vec3::new(1_000_000, 2_000_000, 3_000_000);
    let v2 = Vec3::new(2_000_000, 4_000_000, 6_000_000);

    assert_eq!(v1.scale(2_000_000), v2);
}

#[test]
fn test_multiply_add() {
    let v1 = Vec3::new(1_000_000, 2_000_000, 3_000_000);
    let zero = Vec3::new(0, 0, 0);

    assert_eq!(v1.add(v1.scale(-1_000_000)), zero);
    assert_eq!(v1.add(v1.scale(-2_000_000)), v1.scale(-1_000_000));
}

#[test]
fn test_div_halves() {
    let v1 = Vec3::new(1_000_000, 2_000_000, 3_000_000);
    assert_eq!(v1.div(2_000_000), Vec3::new(500_000, 1_000_000, 1_500_000));
}

#[test]
fn test_unit_exact() {
    let v = Vec3::new(3_000_000, 4_000_000, 0);
    assert_eq!(v.unit(), Vec3::new(600_000, 800_000, 0));
}

#[test]
fn test_unit_length_accuracy() {
    // a direction well above the accuracy floor: its unit vector's own
    // length stays within ten millionths of one
    let v = Vec3::new(123_456, -654_321, 999_999);
    let len = v.unit().length();
    assert!(999_990 <= len && len <= 1_000_010);
}

#[test]
fn test_unit_at_granularity_is_coarse() {
    // at the fixed-point granularity normalization carries no accuracy
    // promise: one millionth in x and y has length 1 after rounding, and
    // its "unit" vector comes out sqrt(2) long
    let v = Vec3::new(1, 1, 0);
    assert_eq!(v.unit(), Vec3::new(1_000_000, 1_000_000, 0));
}

#[test]
fn test_reflect_exact() {
    let incoming = Vec3::new(1_000_000, -1_000_000, 0);
    let normal = Vec3::new(0, 1_000_000, 0);
    assert_eq!(incoming.reflect(normal), Vec3::new(1_000_000, 1_000_000, 0));
}

#[test]
fn test_componentwise_mul() {
    let a = Vec3::new(800_000, 300_000, 300_000);
    let b = Vec3::new(500_000, 1_000_000, 0);
    assert_eq!(a.mul(b), Vec3::new(400_000, 300_000, 0));
}

#[test]
fn test_in_unit_sphere() {
    assert!(Vec3::new(900_000, 0, 0).in_unit_sphere());
    assert!(!Vec3::new(1_000_000, 0, 0).in_unit_sphere());
    assert!(!Vec3::new(600_000, 600_000, 600_000).in_unit_sphere());
    assert!(Vec3::new(0, 0, 0).in_unit_sphere());
}

#[test]
fn test_accessors() {
    let v = Vec3::new(1, 2, 3);
    assert_eq!(v.x(), 1);
    assert_eq!(v.y(), 2);
    assert_eq!(v.z(), 3);
    assert_eq!(v.r(), 1);
    assert_eq!(v.g(), 2);
    assert_eq!(v.b(), 3);
    assert_eq!(Vec3::ones(), Vec3::new(1_000_000, 1_000_000, 1_000_000));
    assert_eq!(Vec3::zeros(), Vec3::new(0, 0, 0));
}
