use clustered_lighting::cascade::{
    bounding_box, snap_to_texel, Cascade, CascadeShadowConfig, Cascades, DepthRange,
};
use clustered_lighting::geometry::{Aabb, Vector3};

fn corners(min: (i32, i32, i32), max: (i32, i32, i32)) -> Vec<Vector3> {
    let mut points = Vec::new();
    for x in [min.0, max.0] {
        for y in [min.1, max.1] {
            for z in [min.2, max.2] {
                points.push(Vector3::new(x, y, z));
            }
        }
    }
    points
}

#[test]
fn four_cascades_split_the_depth_range() {
    // The fractions 0.1, 0.3, 0.6 and 1.0.
    let config = CascadeShadowConfig::new(vec![100, 300, 600, 1000], 1000).unwrap();
    assert_eq!(config.cascade_count(), 4);
    let ranges = config.ranges(1, 100);
    let fars: Vec<u32> = ranges.iter().map(|range| range.far).collect();
    let nears: Vec<u32> = ranges.iter().map(|range| range.near).collect();
    assert_eq!(fars, vec![10, 30, 60, 100]);
    assert_eq!(nears, vec![1, 10, 30, 60]);
}

#[test]
fn far_bounds_track_the_fractions() {
    let splits = vec![1u32, 2, 7, 19, 64];
    let config = CascadeShadowConfig::new(splits.clone(), 64).unwrap();
    for camera_far in [1u32, 63, 64, 1000, 123_457, u32::MAX] {
        let ranges = config.ranges(5, camera_far);
        for (i, range) in ranges.iter().enumerate() {
            let exact = (camera_far as f64) * (splits[i] as f64) / 64.0;
            assert!((range.far as f64) <= exact + 1e-6 * exact);
            assert!((range.far as f64) > exact - 1.0 - 1e-6 * exact);
            if i == 0 {
                assert_eq!(range.near, 5);
            } else {
                assert_eq!(range.near, ranges[i - 1].far);
            }
        }
        assert_eq!(ranges[4].far, camera_far);
    }
}

#[test]
fn split_fractions_must_rise_to_one() {
    assert!(CascadeShadowConfig::new(vec![1], 1).is_some());
    assert!(CascadeShadowConfig::new(vec![1, 2, 3], 3).is_some());
    assert!(CascadeShadowConfig::new(vec![], 10).is_none());
    assert!(CascadeShadowConfig::new(vec![1, 2, 3], 4).is_none());
    assert!(CascadeShadowConfig::new(vec![0, 2, 3], 3).is_none());
    assert!(CascadeShadowConfig::new(vec![1, 1, 3], 3).is_none());
    assert!(CascadeShadowConfig::new(vec![2, 1, 3], 3).is_none());
    assert!(CascadeShadowConfig::new(vec![1, 5, 3], 3).is_none());
    assert!(CascadeShadowConfig::new(vec![0], 0).is_none());
}

#[test]
fn snapping_moves_down_to_a_multiple() {
    assert_eq!(snap_to_texel(17, 5), 15);
    assert_eq!(snap_to_texel(15, 5), 15);
    assert_eq!(snap_to_texel(0, 5), 0);
    assert_eq!(snap_to_texel(-1, 5), -5);
    assert_eq!(snap_to_texel(-5, 5), -5);
    assert_eq!(snap_to_texel(-6, 5), -10);
    assert_eq!(snap_to_texel(123, 1), 123);
    assert_eq!(snap_to_texel(i32::MIN, u32::MAX), -(u32::MAX as i64));
    assert_eq!(snap_to_texel(i32::MAX, u32::MAX), 0);
    assert_eq!(snap_to_texel(17, 0), 17);
    assert_eq!(snap_to_texel(-17, 0), -17);
}

#[test]
fn snapping_again_changes_nothing() {
    for texel in [1u32, 2, 3, 7, 64, 1000] {
        for value in [-2001i32, -1000, -65, -64, -1, 0, 1, 63, 64, 999, 1000, 12_345] {
            let once = snap_to_texel(value, texel);
            let again = snap_to_texel(once as i32, texel);
            assert_eq!(once, again);
            assert!(once <= value as i64 && (value as i64) < once + texel as i64);
        }
    }
}

#[test]
fn the_bounding_box_is_tight() {
    let points = vec![Vector3::new(3, -2, 7), Vector3::new(-1, 5, 7), Vector3::new(0, 0, -9)];
    assert_eq!(
        bounding_box(&points),
        Some(Aabb { min: Vector3::new(-1, -2, -9), max: Vector3::new(3, 5, 7) })
    );
    assert_eq!(
        bounding_box(&vec![Vector3::new(4, 5, 6)]),
        Some(Aabb { min: Vector3::new(4, 5, 6), max: Vector3::new(4, 5, 6) })
    );
    assert_eq!(bounding_box(&vec![]), None);
}

#[test]
fn a_cascade_is_fitted_and_snapped() {
    let range = DepthRange { near: 10, far: 30 };
    let bounds = Aabb { min: Vector3::new(-1003, 17, -50), max: Vector3::new(1045, 1000, 80) };
    // The wider side is 2048 units; a map of 512 texels has texels of 4 units.
    let cascade = Cascade::fit(range, &bounds, 512);
    assert_eq!(cascade.texel_size, 4);
    assert_eq!((cascade.near, cascade.far), (10, 30));
    assert_eq!((cascade.min_x, cascade.min_y, cascade.min_z), (-1004, 16, -50));
    assert_eq!((cascade.max_x, cascade.max_y, cascade.max_z), (1044, 999, 80));
}

#[test]
fn the_texel_size_is_rounded_up() {
    let range = DepthRange { near: 10, far: 30 };
    let bounds = Aabb { min: Vector3::new(0, 0, 0), max: Vector3::new(1000, 10, 10) };
    assert_eq!(Cascade::fit(range, &bounds, 1000).texel_size, 1);
    assert_eq!(Cascade::fit(range, &bounds, 999).texel_size, 2);
    assert_eq!(Cascade::fit(range, &bounds, 3000).texel_size, 1);
    assert_eq!(Cascade::fit(range, &bounds, 1).texel_size, 1000);
    let tall = Aabb { min: Vector3::new(0, 0, 0), max: Vector3::new(10, 500, 10) };
    assert_eq!(Cascade::fit(range, &tall, 100).texel_size, 5);
}

#[test]
fn a_cascade_that_was_snapped_stays_where_it_is() {
    let range = DepthRange { near: 10, far: 30 };
    let bounds = Aabb { min: Vector3::new(-1003, 17, -50), max: Vector3::new(1045, 1000, 80) };
    let first = Cascade::fit(range, &bounds, 512);
    let snapped = Aabb {
        min: Vector3::new(first.min_x as i32, first.min_y as i32, first.min_z as i32),
        max: Vector3::new(first.max_x as i32, first.max_y as i32, first.max_z as i32),
    };
    assert_eq!(Cascade::fit(range, &snapped, 512), first);
    assert_eq!(snap_to_texel(first.min_x as i32, first.texel_size), first.min_x);
    assert_eq!(snap_to_texel(first.min_y as i32, first.texel_size), first.min_y);
}

#[test]
fn degenerate_slices_give_empty_cascades() {
    let bounds = Aabb { min: Vector3::new(0, 0, 0), max: Vector3::new(100, 100, 100) };
    let flat = Aabb { min: Vector3::new(5, 5, 0), max: Vector3::new(5, 5, 100) };
    let empty = Cascade::empty(DepthRange { near: 10, far: 10 });
    assert_eq!(empty.texel_size, 0);
    assert_eq!(Cascade::fit(DepthRange { near: 10, far: 10 }, &bounds, 512), empty);
    assert_eq!(
        Cascade::fit(DepthRange { near: 30, far: 10 }, &bounds, 512),
        Cascade::empty(DepthRange { near: 30, far: 10 })
    );
    assert_eq!(
        Cascade::fit(DepthRange { near: 10, far: 30 }, &flat, 512),
        Cascade::empty(DepthRange { near: 10, far: 30 })
    );
    assert_eq!(
        Cascade::fit(DepthRange { near: 10, far: 30 }, &bounds, 0),
        Cascade::empty(DepthRange { near: 10, far: 30 })
    );
}

#[test]
fn the_largest_box_is_fitted_without_overflow() {
    let bounds = Aabb {
        min: Vector3::new(i32::MIN, i32::MIN, i32::MIN),
        max: Vector3::new(i32::MAX, i32::MAX, i32::MAX),
    };
    let cascade = Cascade::fit(DepthRange { near: 0, far: u32::MAX }, &bounds, 1);
    assert_eq!(cascade.texel_size, u32::MAX);
    assert_eq!(cascade.min_x, -(u32::MAX as i64));
    assert_eq!(cascade.max_x - cascade.min_x, u32::MAX as i64);
}

#[test]
fn cascades_are_built_anew() {
    let config = CascadeShadowConfig::new(vec![100, 300, 600, 1000], 1000).unwrap();
    let direction = Vector3::new(0, -1, 0);
    let given = vec![
        corners((-10, -10, 0), (10, 10, 50)),
        corners((-30, -30, 0), (30, 30, 50)),
        corners((-60, -60, 0), (60, 60, 50)),
        corners((-100, -100, 0), (100, 100, 50)),
    ];
    let mut cascades = Cascades::new();
    assert!(cascades.as_vec().is_empty());
    cascades.rebuild(&config, &direction, 1, 100, &given, 10);
    let built = cascades.as_vec().clone();
    assert_eq!(built.len(), 4);
    for (i, cascade) in built.iter().enumerate() {
        let bounds = bounding_box(&given[i]).unwrap();
        let range = config.ranges(1, 100)[i];
        assert_eq!(*cascade, Cascade::fit(range, &bounds, 10));
        assert!(cascade.texel_size > 0);
    }
    assert_eq!(built[3].texel_size, 20);
    assert_eq!(built[3].near, 60);
    assert_eq!(built[3].far, 100);
    let fewer = CascadeShadowConfig::new(vec![1, 2], 2).unwrap();
    cascades.rebuild(&fewer, &direction, 1, 100, &given, 10);
    assert_eq!(cascades.as_vec().len(), 2);
    assert_eq!(cascades.as_vec()[0].far, 50);
}

#[test]
fn missing_corners_or_direction_give_empty_cascades() {
    let config = CascadeShadowConfig::new(vec![1, 2, 4], 4).unwrap();
    let given = vec![corners((-10, -10, 0), (10, 10, 50)), vec![]];
    let mut cascades = Cascades::new();
    cascades.rebuild(&config, &Vector3::new(0, 0, 1), 1, 100, &given, 10);
    let built = cascades.as_vec();
    assert_eq!(built.len(), 3);
    assert!(built[0].texel_size > 0);
    assert_eq!(built[1], Cascade::empty(DepthRange { near: 25, far: 50 }));
    assert_eq!(built[2], Cascade::empty(DepthRange { near: 50, far: 100 }));
    cascades.rebuild(&config, &Vector3::new(0, 0, 0), 1, 100, &given, 10);
    assert!(cascades.as_vec().iter().all(|cascade| cascade.texel_size == 0));
}
