use clustered_lighting::camera::{Camera, Projection};
use clustered_lighting::frustum::{CubeFace, Frustum, ProjectionMatrix, Row4};
use clustered_lighting::geometry::{Aabb, BoundingVolume, Vector3, Plane, Sphere};

#[test]
fn a_frustum_needs_six_planes() {
    let plane = Plane::new(Vector3::new(0, 0, 1), 0);
    assert!(Frustum::from_planes(vec![plane; 5]).is_none());
    let six = Frustum::from_planes(vec![plane; 6]).unwrap();
    assert_eq!(six.planes().len(), 6);
    assert!(Frustum::from_planes(vec![plane; 9]).is_some());
}

#[test]
fn the_empty_frustum_holds_nothing() {
    let empty = Frustum::empty();
    assert!(!empty.has_point(&Vector3::new(0, 0, 0)));
    let ball = Sphere { center: Vector3::new(0, 0, 0), radius: u32::MAX };
    assert!(!empty.intersects_sphere(&ball));
}

#[test]
fn a_perspective_frustum_widens_with_depth() {
    // Half width 2 at focal distance 1: |x| <= 2 z, |y| <= z.
    let frustum = Frustum::perspective(2, 1, 1, 10, 100);
    assert!(frustum.has_point(&Vector3::new(0, 0, 10)));
    assert!(frustum.has_point(&Vector3::new(20, 10, 10)));
    assert!(!frustum.has_point(&Vector3::new(21, 0, 10)));
    assert!(!frustum.has_point(&Vector3::new(0, 11, 10)));
    assert!(frustum.has_point(&Vector3::new(-200, -100, 100)));
    assert!(!frustum.has_point(&Vector3::new(0, 0, 9)));
    assert!(!frustum.has_point(&Vector3::new(0, 0, 101)));
    assert!(!frustum.has_point(&Vector3::new(0, 0, -50)));
}

#[test]
fn a_box_frustum_holds_the_box() {
    let bounds = Aabb { min: Vector3::new(-1, -2, -3), max: Vector3::new(4, 5, 6) };
    let frustum = Frustum::orthographic(&bounds);
    assert!(frustum.has_point(&Vector3::new(-1, -2, -3)));
    assert!(frustum.has_point(&Vector3::new(4, 5, 6)));
    assert!(!frustum.has_point(&Vector3::new(5, 5, 6)));
    assert!(!frustum.has_point(&Vector3::new(0, -3, 0)));
    assert!(!frustum.has_point(&Vector3::new(0, 0, 7)));
    let same = Frustum::from_box(-1, 4, -2, 5, -3, 6);
    assert_eq!(same.planes(), frustum.planes());
}

#[test]
fn a_cube_face_frustum_is_a_quarter_turn_wide() {
    let center = Vector3::new(100, 200, 300);
    let face = Frustum::cube_face(&center, 50, CubeFace::PosX);
    assert!(face.has_point(&center));
    assert!(face.has_point(&Vector3::new(150, 200, 300)));
    assert!(!face.has_point(&Vector3::new(151, 200, 300)));
    assert!(face.has_point(&Vector3::new(110, 210, 290)));
    assert!(!face.has_point(&Vector3::new(110, 211, 300)));
    assert!(!face.has_point(&Vector3::new(99, 200, 300)));
    let down = Frustum::cube_face(&center, 50, CubeFace::NegY);
    assert!(down.has_point(&Vector3::new(100, 150, 300)));
    assert!(down.has_point(&Vector3::new(120, 180, 320)));
    assert!(!down.has_point(&Vector3::new(100, 201, 300)));
    assert!(!down.has_point(&Vector3::new(100, 149, 300)));
}

#[test]
fn every_point_in_range_is_in_some_cube_face() {
    let center = Vector3::new(0, 0, 0);
    let faces = [
        CubeFace::PosX,
        CubeFace::NegX,
        CubeFace::PosY,
        CubeFace::NegY,
        CubeFace::PosZ,
        CubeFace::NegZ,
    ];
    for p in [Vector3::new(3, -2, 1), Vector3::new(-1, -1, -1), Vector3::new(0, 0, 5), Vector3::new(2, 5, -5)] {
        let mut seen = 0;
        for face in faces {
            if Frustum::cube_face(&center, 5, face).has_point(&p) {
                seen += 1;
            }
        }
        assert!(seen >= 1);
    }
}

#[test]
fn culling_tests_each_plane() {
    let frustum = Frustum::perspective(1, 1, 1, 10, 100);
    let inside = Sphere { center: Vector3::new(0, 0, 50), radius: 1 };
    let behind = Sphere { center: Vector3::new(0, 0, -50), radius: 10 };
    let reaching = Sphere { center: Vector3::new(0, 0, -50), radius: 60 };
    let beside = Sphere { center: Vector3::new(5000, 0, 500), radius: 100 };
    assert!(frustum.intersects_sphere(&inside));
    assert!(!frustum.intersects_sphere(&behind));
    assert!(frustum.intersects_sphere(&reaching));
    assert!(!frustum.intersects_sphere(&beside));
    assert!(frustum.is_outside(&BoundingVolume::Sphere(behind)));
    assert!(frustum.intersects_volume(&BoundingVolume::Sphere(inside)));
}

#[test]
fn a_camera_must_show_something() {
    let lens = Projection::Perspective { half_width: 1, half_height: 1, focal: 1 };
    assert!(Camera::new(lens, 1, 100).is_some());
    assert!(Camera::new(lens, 0, 100).is_none());
    assert!(Camera::new(lens, 100, 100).is_none());
    assert!(Camera::new(lens, 101, 100).is_none());
    let flat = Projection::Perspective { half_width: 0, half_height: 1, focal: 1 };
    assert!(Camera::new(flat, 1, 100).is_none());
    let blind = Projection::Perspective { half_width: 1, half_height: 1, focal: 0 };
    assert!(Camera::new(blind, 1, 100).is_none());
    let ortho = Projection::Orthographic { half_width: 10, half_height: 10 };
    assert!(Camera::new(ortho, 0, 100).is_some());
    assert!(Camera::new(ortho, 5, 5).is_none());
}

#[test]
fn a_camera_keeps_what_it_was_given() {
    let lens = Projection::Perspective { half_width: 4, half_height: 3, focal: 5 };
    let camera = Camera::new(lens, 2, 200).unwrap();
    assert_eq!(camera.get_projection(), lens);
    assert_eq!(camera.near_depth(), 2);
    assert_eq!(camera.far_depth(), 200);
    assert_eq!(camera.frustum().planes(), Frustum::perspective(4, 3, 5, 2, 200).planes());
}

#[test]
fn an_orthographic_camera_sees_a_box() {
    let ortho = Projection::Orthographic { half_width: 10, half_height: 20 };
    let frustum = Camera::new(ortho, 0, 100).unwrap().frustum();
    assert!(frustum.has_point(&Vector3::new(10, -20, 0)));
    assert!(frustum.has_point(&Vector3::new(-10, 20, 100)));
    assert!(!frustum.has_point(&Vector3::new(11, 0, 50)));
    assert!(!frustum.has_point(&Vector3::new(0, 0, 101)));
    assert!(!frustum.has_point(&Vector3::new(0, 0, -1)));
}

fn row(x: i32, y: i32, z: i32, w: i32) -> Row4 {
    Row4 { x, y, z, w }
}

#[test]
fn a_projection_matrix_gives_the_planes_of_its_clip_volume() {
    // Clip x = 2 x, clip y = 3 y, clip z = z - 10, clip w = z.
    let m = ProjectionMatrix { x: row(2, 0, 0, 0), y: row(0, 3, 0, 0), z: row(0, 0, 1, -10), w: row(0, 0, 1, 0) };
    let frustum = Frustum::from_view_projection(&m).unwrap();
    assert_eq!(
        frustum.planes(),
        &vec![
            Plane::new(Vector3::new(2, 0, 1), 0),
            Plane::new(Vector3::new(-2, 0, 1), 0),
            Plane::new(Vector3::new(0, 3, 1), 0),
            Plane::new(Vector3::new(0, -3, 1), 0),
            Plane::new(Vector3::new(0, 0, 1), -10),
            Plane::new(Vector3::new(0, 0, 0), 10),
        ]
    );
    assert!(frustum.has_point(&Vector3::new(50, 33, 100)));
    assert!(!frustum.has_point(&Vector3::new(51, 0, 100)));
    assert!(!frustum.has_point(&Vector3::new(0, 34, 100)));
    assert!(!frustum.has_point(&Vector3::new(0, 0, 9)));
    assert!(frustum.has_point(&Vector3::new(0, 0, 10)));
}

#[test]
fn a_translated_view_moves_its_planes() {
    // An orthographic view of the box 100 wide around x = 1000.
    let m = ProjectionMatrix {
        x: row(1, 0, 0, -1000),
        y: row(0, 1, 0, 0),
        z: row(0, 0, 1, 0),
        w: row(0, 0, 0, 50),
    };
    let frustum = Frustum::from_view_projection(&m).unwrap();
    assert!(frustum.has_point(&Vector3::new(950, -50, 0)));
    assert!(frustum.has_point(&Vector3::new(1050, 50, 50)));
    assert!(!frustum.has_point(&Vector3::new(949, 0, 0)));
    assert!(!frustum.has_point(&Vector3::new(1000, 0, 51)));
    assert!(!frustum.has_point(&Vector3::new(1000, 0, -1)));
}

#[test]
fn a_matrix_whose_planes_do_not_fit_has_no_frustum() {
    let m = ProjectionMatrix {
        x: row(i32::MAX, 0, 0, 0),
        y: row(0, 1, 0, 0),
        z: row(0, 0, 1, 0),
        w: row(1, 0, 0, 1),
    };
    assert!(Frustum::from_view_projection(&m).is_none());
    let most = ProjectionMatrix {
        x: row(i32::MAX, 0, 0, i32::MIN),
        y: row(0, i32::MIN + 1, 0, i32::MAX),
        z: row(0, 0, i32::MAX, i32::MIN),
        w: row(0, 0, 0, i32::MAX),
    };
    assert!(Frustum::from_view_projection(&most).is_some());
    let low = ProjectionMatrix { w: row(0, -1, 0, 0), y: row(0, i32::MIN, 0, 0), ..most };
    assert!(Frustum::from_view_projection(&low).is_none());
}
