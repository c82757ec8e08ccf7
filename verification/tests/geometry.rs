use clustered_lighting::geometry::{Aabb, BoundingVolume, Vector3, OrientedBox, Plane, Sphere};
use clustered_lighting::numeric::{div_ceil, div_floor, isqrt};

#[test]
fn floor_division_rounds_toward_negative_infinity() {
    assert_eq!(div_floor(7, 2), 3);
    assert_eq!(div_floor(-7, 2), -4);
    assert_eq!(div_floor(-8, 2), -4);
    assert_eq!(div_floor(-1, 3), -1);
    assert_eq!(div_floor(0, 5), 0);
}

#[test]
fn ceiling_division_rounds_toward_positive_infinity() {
    assert_eq!(div_ceil(7, 2), 4);
    assert_eq!(div_ceil(8, 2), 4);
    assert_eq!(div_ceil(-7, 2), -3);
    assert_eq!(div_ceil(0, 5), 0);
    assert_eq!(div_ceil(1, 1024), 1);
}

#[test]
fn integer_square_root_is_exact() {
    assert_eq!(isqrt(0), 0);
    assert_eq!(isqrt(1), 1);
    assert_eq!(isqrt(15), 3);
    assert_eq!(isqrt(16), 4);
    assert_eq!(isqrt(17), 4);
    assert_eq!(isqrt(u128::MAX), (1u128 << 64) - 1);
    let big: u128 = 123_456_789_012_345_678;
    assert_eq!(isqrt(big * big), big);
    assert_eq!(isqrt(big * big - 1), big - 1);
}

#[test]
fn dot_product_of_extreme_vectors_does_not_overflow() {
    let a = Vector3::new(i32::MIN, i32::MIN, i32::MIN);
    assert_eq!(a.dot(&a), 3 * (1i128 << 62));
    let b = Vector3::new(1, -2, 3);
    assert_eq!(b.dot(&Vector3::new(4, 5, 6)), 4 - 10 + 18);
}

#[test]
fn plane_height_has_the_sign_of_the_side() {
    let plane = Plane::new(Vector3::new(0, 0, 2), -10);
    assert_eq!(plane.evaluate(&Vector3::new(7, 7, 5)), 0);
    assert!(plane.has_point(&Vector3::new(0, 0, 5)));
    assert!(plane.has_point(&Vector3::new(0, 0, 6)));
    assert!(!plane.has_point(&Vector3::new(0, 0, 4)));
}

#[test]
fn a_ball_that_touches_the_plane_is_not_outside() {
    let plane = Plane::new(Vector3::new(3, 4, 0), 0);
    // The center is 25 / 5 = 5 units outside.
    let center = Vector3::new(-3, -4, 0);
    assert!(plane.is_sphere_outside(&Sphere { center, radius: 4 }));
    assert!(!plane.is_sphere_outside(&Sphere { center, radius: 5 }));
    assert!(!plane.is_sphere_outside(&Sphere { center, radius: 6 }));
    assert!(!plane.is_sphere_outside(&Sphere { center: Vector3::new(3, 4, 0), radius: 0 }));
}

#[test]
fn a_ball_is_tested_exactly_at_the_largest_coordinates() {
    let plane = Plane::new(Vector3::new(i32::MAX, i32::MAX, i32::MAX), i64::MIN);
    let sphere = Sphere { center: Vector3::new(i32::MIN, i32::MIN, i32::MIN), radius: u32::MAX };
    assert!(plane.is_sphere_outside(&sphere));
    let inner = Plane::new(Vector3::new(i32::MIN, i32::MIN, i32::MIN), i64::MAX);
    assert!(!inner.is_sphere_outside(&sphere));
}

#[test]
fn a_box_is_outside_when_its_nearest_corner_is() {
    let plane = Plane::new(Vector3::new(1, -1, 0), 0);
    let outside = Aabb { min: Vector3::new(-5, 1, 0), max: Vector3::new(0, 4, 3) };
    let touching = Aabb { min: Vector3::new(-5, 1, 0), max: Vector3::new(1, 4, 3) };
    assert!(plane.is_aabb_outside(&outside));
    assert!(!plane.is_aabb_outside(&touching));
}

#[test]
fn an_oriented_box_reaches_along_its_half_axes() {
    let plane = Plane::new(Vector3::new(1, 0, 0), 0);
    let oriented = OrientedBox {
        center: Vector3::new(-10, 0, 0),
        half_u: Vector3::new(3, 3, 0),
        half_v: Vector3::new(-3, 3, 0),
        half_w: Vector3::new(0, 0, 2),
    };
    assert!(plane.is_oriented_box_outside(&oriented));
    let nearer = OrientedBox { center: Vector3::new(-6, 0, 0), ..oriented };
    assert!(!plane.is_oriented_box_outside(&nearer));
}

#[test]
fn a_volume_is_tested_by_its_kind() {
    let plane = Plane::new(Vector3::new(0, 1, 0), -10);
    let ball = BoundingVolume::Sphere(Sphere { center: Vector3::new(0, 0, 0), radius: 9 });
    let cube = BoundingVolume::Aabb(Aabb { min: Vector3::new(0, 0, 0), max: Vector3::new(1, 10, 1) });
    let tilted = BoundingVolume::OrientedBox(OrientedBox {
        center: Vector3::new(0, 0, 0),
        half_u: Vector3::new(0, 4, 0),
        half_v: Vector3::new(0, 5, 0),
        half_w: Vector3::new(1, 0, 0),
    });
    assert!(plane.is_volume_outside(&ball));
    assert!(!plane.is_volume_outside(&cube));
    assert!(plane.is_volume_outside(&tilted));
}
