//! Parametric ray evaluation, in fixed-point units of 1_000_000.

use rays::ray::Ray;
use rays::vec::Vec3;

#[test]
fn test_point_at_parameter0() {
    let v1 = Vec3::new(0, 0, 0);
    let v2 = Vec3::new(1_000_000, 2_000_000, 3_000_000);
    let r1 = Ray::new(v1, v2);

    assert_eq!(r1.point_at_parameter(0), v1);
    assert_eq!(r1.point_at_parameter(500_000), v2.scale(500_000));
    assert_eq!(r1.point_at_parameter(1_000_000), v2);
}
