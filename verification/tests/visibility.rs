use clustered_lighting::cascade::{Cascade, CascadeShadowConfig, Cascades, DepthRange};
use clustered_lighting::frustum::Frustum;
use clustered_lighting::geometry::{Aabb, BoundingVolume, Vector3, OrientedBox, Sphere};
use clustered_lighting::lights::{
    cascade_frustum, directional_light_frusta, point_light_frusta, spot_light_frustum,
    PointLightFrusta, SpotLightFrustum,
};
use clustered_lighting::visibility::{check_visibility, visible_in, visible_in_each, Candidate, Pass};

fn ball(entity: u64, x: i32, y: i32, z: i32, radius: u32, shadow_caster: bool) -> Candidate {
    Candidate {
        entity,
        volume: BoundingVolume::Sphere(Sphere { center: Vector3::new(x, y, z), radius }),
        shadow_caster,
    }
}

#[test]
fn only_what_the_frustum_reaches_is_seen() {
    let frustum = Frustum::perspective(1, 1, 1, 10, 100);
    let candidates = vec![
        ball(1, 0, 0, 50, 5, true),
        ball(2, 0, 0, -50, 5, true),
        ball(3, 500, 0, 50, 5, true),
        Candidate {
            entity: 4,
            volume: BoundingVolume::Aabb(Aabb { min: Vector3::new(-5, -5, 95), max: Vector3::new(5, 5, 105) }),
            shadow_caster: true,
        },
        Candidate {
            entity: 5,
            volume: BoundingVolume::Aabb(Aabb { min: Vector3::new(-5, -5, 101), max: Vector3::new(5, 5, 105) }),
            shadow_caster: true,
        },
        Candidate {
            entity: 6,
            volume: BoundingVolume::OrientedBox(OrientedBox {
                center: Vector3::new(0, 0, 0),
                half_u: Vector3::new(8, 0, 8),
                half_v: Vector3::new(-8, 0, 8),
                half_w: Vector3::new(0, 1, 0),
            }),
            shadow_caster: true,
        },
    ];
    assert_eq!(visible_in(&frustum, &candidates, Pass::Camera), vec![1, 4, 6]);
}

#[test]
fn entities_that_cast_no_shadow_count_only_for_cameras() {
    let frustum = Frustum::perspective(1, 1, 1, 10, 100);
    let candidates = vec![ball(1, 0, 0, 50, 5, false), ball(2, 0, 0, 60, 5, true), ball(3, 0, 0, -60, 5, true)];
    assert_eq!(visible_in(&frustum, &candidates, Pass::Camera), vec![1, 2]);
    assert_eq!(visible_in(&frustum, &candidates, Pass::Shadow), vec![2]);
    assert!(check_visibility(&frustum, &candidates[0], Pass::Camera));
    assert!(!check_visibility(&frustum, &candidates[0], Pass::Shadow));
    assert!(!check_visibility(&frustum, &candidates[2], Pass::Camera));
}

#[test]
fn nothing_is_seen_without_candidates_or_in_an_empty_frustum() {
    let frustum = Frustum::perspective(1, 1, 1, 10, 100);
    assert!(visible_in(&frustum, &vec![], Pass::Camera).is_empty());
    let candidates = vec![ball(1, 0, 0, 50, 5, true)];
    assert!(visible_in(&Frustum::empty(), &candidates, Pass::Camera).is_empty());
}

#[test]
fn each_cube_face_sees_what_lies_on_its_side() {
    let center = Vector3::new(0, 0, 0);
    let frusta = point_light_frusta(&center, 100);
    assert_eq!(frusta.len(), 6);
    let candidates = vec![
        ball(1, 50, 0, 0, 1, true),
        ball(2, -50, 0, 0, 1, true),
        ball(3, 0, 50, 0, 1, true),
        ball(4, 0, -50, 0, 1, true),
        ball(5, 0, 0, 50, 1, true),
        ball(6, 0, 0, -50, 1, true),
        ball(7, 500, 0, 0, 1, true),
        ball(8, 0, 0, 0, 1, false),
    ];
    let seen = visible_in_each(&frusta, &candidates, Pass::Shadow);
    assert_eq!(seen, vec![vec![1], vec![2], vec![3], vec![4], vec![5], vec![6]]);
    let all = visible_in_each(&frusta, &candidates, Pass::Camera);
    assert_eq!(all[0], vec![1, 8]);
}

#[test]
fn the_frusta_of_a_point_light_follow_the_light() {
    let mut frusta = PointLightFrusta::new(Vector3::new(0, 0, 0), 100);
    assert!(frusta.frusta()[0].has_point(&Vector3::new(50, 0, 0)));
    assert!(!frusta.update(Vector3::new(0, 0, 0), 100));
    assert!(frusta.update(Vector3::new(1000, 0, 0), 100));
    assert!(!frusta.frusta()[0].has_point(&Vector3::new(50, 0, 0)));
    assert!(frusta.frusta()[0].has_point(&Vector3::new(1050, 0, 0)));
    assert!(frusta.update(Vector3::new(1000, 0, 0), 10));
    assert!(!frusta.frusta()[0].has_point(&Vector3::new(1050, 0, 0)));
    assert!(!frusta.update(Vector3::new(1000, 0, 0), 10));
    assert_eq!(frusta.frusta().len(), 6);
}

#[test]
fn a_spot_light_sees_its_cone() {
    // An outer angle with tangent 1 / 2: at depth z the cone is z / 2 wide.
    let frustum = spot_light_frustum(1, 2, 100);
    assert!(frustum.has_point(&Vector3::new(0, 0, 0)));
    assert!(frustum.has_point(&Vector3::new(50, -50, 100)));
    assert!(!frustum.has_point(&Vector3::new(51, 0, 100)));
    assert!(!frustum.has_point(&Vector3::new(0, 0, 101)));
    assert!(!frustum.has_point(&Vector3::new(0, 0, -1)));
    assert_eq!(frustum.planes(), Frustum::perspective(1, 1, 2, 0, 100).planes());
}

#[test]
fn a_spot_light_without_cone_sees_nothing() {
    for frustum in [spot_light_frustum(0, 2, 100), spot_light_frustum(1, 0, 100), spot_light_frustum(0, 0, 0)] {
        assert_eq!(frustum.planes(), Frustum::empty().planes());
        assert!(!frustum.has_point(&Vector3::new(0, 0, 0)));
    }
}

#[test]
fn a_directional_light_has_the_box_of_each_cascade() {
    let config = CascadeShadowConfig::new(vec![1, 2], 2).unwrap();
    let given = vec![
        vec![Vector3::new(-10, -10, 0), Vector3::new(10, 10, 50)],
        vec![],
    ];
    let mut cascades = Cascades::new();
    cascades.rebuild(&config, &Vector3::new(0, -1, 0), 1, 100, &given, 20);
    let frusta = directional_light_frusta(&cascades);
    assert_eq!(frusta.len(), 2);
    assert!(frusta[0].has_point(&Vector3::new(-10, -10, 0)));
    assert!(frusta[0].has_point(&Vector3::new(10, 10, 50)));
    assert!(!frusta[0].has_point(&Vector3::new(11, 0, 0)));
    assert!(!frusta[0].has_point(&Vector3::new(0, 0, 51)));
    assert_eq!(frusta[1].planes(), Frustum::empty().planes());
    let candidates = vec![ball(1, 0, 0, 25, 1, true), ball(2, 0, 0, 75, 1, true)];
    assert_eq!(visible_in_each(&frusta, &candidates, Pass::Shadow), vec![vec![1], vec![]]);
}

#[test]
fn the_frustum_of_a_cascade_is_its_box() {
    let cascade = Cascade::fit(
        DepthRange { near: 1, far: 10 },
        &Aabb { min: Vector3::new(3, 3, 3), max: Vector3::new(13, 9, 9) },
        5,
    );
    assert_eq!(cascade.texel_size, 2);
    let frustum = cascade_frustum(&cascade);
    assert_eq!(frustum.planes(), Frustum::from_box(2, 12, 2, 8, 3, 9).planes());
    let none = cascade_frustum(&Cascade::empty(DepthRange { near: 1, far: 10 }));
    assert!(!none.has_point(&Vector3::new(0, 0, 0)));
}

#[test]
fn the_frustum_of_a_spot_light_follows_the_light() {
    let mut kept = SpotLightFrustum::new(1, 2, 100);
    assert_eq!(kept.frustum().planes(), spot_light_frustum(1, 2, 100).planes());
    assert!(!kept.update(1, 2, 100));
    assert!(kept.update(1, 1, 100));
    assert_eq!(kept.frustum().planes(), spot_light_frustum(1, 1, 100).planes());
    assert!(kept.update(1, 1, 50));
    assert!(!kept.frustum().has_point(&Vector3::new(0, 0, 51)));
    assert!(kept.update(2, 1, 50));
    assert!(kept.frustum().has_point(&Vector3::new(100, 0, 50)));
    assert!(!kept.update(2, 1, 50));
}
