use clustered_lighting::assign::{Influence, VisibleLight};
use clustered_lighting::camera::{Camera, Projection};
use clustered_lighting::cluster::{ClusterConfig, ClusterGrid};
use clustered_lighting::depth::SliceMode;
use clustered_lighting::geometry::{Vector3, Sphere};
use clustered_lighting::marshal::{
    marshal, pack_light, BufferLimits, CapacityExceeded, ClusterSpan, LightParams,
};

fn light(tag: i32) -> LightParams {
    LightParams {
        position: Vector3::new(tag, tag + 1, tag + 2),
        direction: Vector3::new(0, -1, 0),
        red: 0x11,
        green: 0x22,
        blue: 0x33,
        alpha: 0x44,
        range: 1000 + tag as u32,
        shadow_map: None,
    }
}

fn grid_with(lists: &[(u32, i32)]) -> ClusterGrid {
    // Four cells side by side; a light at x = -300, -100, 100 or 300 lands in
    // cell 0, 1, 2 or 3.
    let camera = Camera::new(Projection::Perspective { half_width: 1, half_height: 1, focal: 1 }, 100, 900).unwrap();
    let mut grid = ClusterGrid::new(camera, 800, 800, ClusterConfig::Fixed { x: 4, y: 1, z: 1 }, SliceMode::Linear);
    let lights: Vec<VisibleLight> = lists
        .iter()
        .map(|(index, x)| VisibleLight {
            index: *index,
            influence: Influence::Sphere(Sphere { center: Vector3::new(*x, 0, 500), radius: 10 }),
        })
        .collect();
    grid.assign_lights(&lights);
    grid
}

#[test]
fn colour_channels_are_packed_lowest_first() {
    let packed = pack_light(&light(0));
    assert_eq!(packed.color, 0x4433_2211);
    assert_eq!(packed.position, Vector3::new(0, 1, 2));
    assert_eq!(packed.direction, Vector3::new(0, -1, 0));
    assert_eq!(packed.range, 1000);
    assert_eq!(packed.shadow_map_index, -1);
    let white = LightParams { red: 255, green: 255, blue: 255, alpha: 255, ..light(0) };
    assert_eq!(pack_light(&white).color, u32::MAX);
    let black = LightParams { red: 0, green: 0, blue: 0, alpha: 0, ..light(0) };
    assert_eq!(pack_light(&black).color, 0);
}

#[test]
fn the_shadow_map_of_a_light_is_kept() {
    let caster = LightParams { shadow_map: Some(7), ..light(0) };
    assert_eq!(pack_light(&caster).shadow_map_index, 7);
    let last = LightParams { shadow_map: Some(u16::MAX), ..light(0) };
    assert_eq!(pack_light(&last).shadow_map_index, 65535);
    let first = LightParams { shadow_map: Some(0), ..light(0) };
    assert_eq!(pack_light(&first).shadow_map_index, 0);
}

#[test]
fn offsets_are_the_running_sum_of_the_counts() {
    let grid = grid_with(&[(0, -300), (1, -100), (2, -100), (3, 300), (4, 300), (5, 300)]);
    let lights: Vec<LightParams> = (0..6).map(light).collect();
    let buffers = marshal(&lights, &grid, BufferLimits { max_lights: 256, max_indices: 1024 });
    assert_eq!(buffers.lights.len(), 6);
    assert_eq!(buffers.lights[3], pack_light(&light(3)));
    assert_eq!(buffers.indices, vec![0, 1, 2, 3, 4, 5]);
    assert_eq!(
        buffers.spans,
        vec![
            ClusterSpan { offset: 0, count: 1 },
            ClusterSpan { offset: 1, count: 2 },
            ClusterSpan { offset: 3, count: 0 },
            ClusterSpan { offset: 3, count: 3 },
        ]
    );
    assert_eq!(buffers.diagnostic, None);
}

#[test]
fn too_many_lights_are_cut_to_the_capacity() {
    let grid = grid_with(&[(0, -300), (1, -300), (2, -100), (3, -100), (4, 100), (5, 300)]);
    let lights: Vec<LightParams> = (0..6).map(light).collect();
    let buffers = marshal(&lights, &grid, BufferLimits { max_lights: 4, max_indices: 1024 });
    assert_eq!(buffers.lights.len(), 4);
    // The first two lights are dropped and the rest renumbered.
    assert_eq!(buffers.lights[0], pack_light(&light(2)));
    assert_eq!(buffers.lights[3], pack_light(&light(5)));
    assert_eq!(buffers.indices, vec![0, 1, 2, 3]);
    assert!(buffers.indices.iter().all(|index| (*index as usize) < buffers.lights.len()));
    assert_eq!(
        buffers.spans,
        vec![
            ClusterSpan { offset: 0, count: 0 },
            ClusterSpan { offset: 0, count: 2 },
            ClusterSpan { offset: 2, count: 1 },
            ClusterSpan { offset: 3, count: 1 },
        ]
    );
    assert_eq!(
        buffers.diagnostic,
        Some(CapacityExceeded { lights_dropped: 2, indices_dropped: 0 })
    );
}

#[test]
fn too_many_entries_are_cut_from_the_end() {
    let grid = grid_with(&[(0, -300), (1, -300), (2, -100), (3, -100), (4, 100), (5, 300)]);
    let lights: Vec<LightParams> = (0..6).map(light).collect();
    let buffers = marshal(&lights, &grid, BufferLimits { max_lights: 256, max_indices: 3 });
    assert_eq!(buffers.lights.len(), 6);
    assert_eq!(buffers.indices, vec![0, 1, 2]);
    assert_eq!(
        buffers.spans,
        vec![
            ClusterSpan { offset: 0, count: 2 },
            ClusterSpan { offset: 2, count: 1 },
            ClusterSpan { offset: 3, count: 0 },
            ClusterSpan { offset: 3, count: 0 },
        ]
    );
    assert_eq!(
        buffers.diagnostic,
        Some(CapacityExceeded { lights_dropped: 0, indices_dropped: 3 })
    );
}

#[test]
fn both_losses_are_reported_in_one_diagnostic() {
    let grid = grid_with(&[(0, -300), (1, -300), (2, -100), (3, -100), (4, 100), (5, 300)]);
    let lights: Vec<LightParams> = (0..6).map(light).collect();
    let buffers = marshal(&lights, &grid, BufferLimits { max_lights: 5, max_indices: 2 });
    assert_eq!(buffers.lights.len(), 5);
    assert_eq!(buffers.indices, vec![0, 1]);
    assert_eq!(
        buffers.diagnostic,
        Some(CapacityExceeded { lights_dropped: 1, indices_dropped: 3 })
    );
}

#[test]
fn buffers_without_capacity_hold_nothing() {
    let grid = grid_with(&[(0, -300), (1, 300)]);
    let lights: Vec<LightParams> = (0..2).map(light).collect();
    let buffers = marshal(&lights, &grid, BufferLimits { max_lights: 0, max_indices: 0 });
    assert!(buffers.lights.is_empty());
    assert!(buffers.indices.is_empty());
    assert_eq!(buffers.spans, vec![ClusterSpan { offset: 0, count: 0 }; 4]);
    assert_eq!(
        buffers.diagnostic,
        Some(CapacityExceeded { lights_dropped: 2, indices_dropped: 0 })
    );
}

#[test]
fn entries_that_name_no_light_are_left_out() {
    let grid = grid_with(&[(0, -300), (17, -300), (1, -300)]);
    let lights: Vec<LightParams> = (0..2).map(light).collect();
    let buffers = marshal(&lights, &grid, BufferLimits { max_lights: 256, max_indices: 1024 });
    assert_eq!(buffers.indices, vec![0, 1]);
    assert_eq!(buffers.spans[0], ClusterSpan { offset: 0, count: 2 });
    assert_eq!(buffers.diagnostic, None);
}

#[test]
fn exactly_full_buffers_raise_no_diagnostic() {
    let grid = grid_with(&[(0, -300), (1, 300)]);
    let lights: Vec<LightParams> = (0..2).map(light).collect();
    let buffers = marshal(&lights, &grid, BufferLimits { max_lights: 2, max_indices: 2 });
    assert_eq!(buffers.lights.len(), 2);
    assert_eq!(buffers.indices, vec![0, 1]);
    assert_eq!(buffers.diagnostic, None);
}
