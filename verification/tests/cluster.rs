use clustered_lighting::camera::{Camera, Projection};
use clustered_lighting::cluster::{
    limit_dimension, tiles_for, ClusterConfig, ClusterGrid, GridDimensions,
};
use clustered_lighting::depth::{SliceMode, MAX_DIMENSION};

fn perspective() -> Camera {
    Camera::new(Projection::Perspective { half_width: 1, half_height: 1, focal: 1 }, 100, 900).unwrap()
}

fn orthographic() -> Camera {
    Camera::new(Projection::Orthographic { half_width: 500, half_height: 500 }, 0, 900).unwrap()
}

#[test]
fn a_fixed_layout_gives_its_counts() {
    let config = ClusterConfig::Fixed { x: 16, y: 9, z: 24 };
    assert_eq!(config.dimensions_for(false, 1920, 1080), GridDimensions { x: 16, y: 9, z: 24 });
}

#[test]
fn counts_are_limited_to_what_a_grid_can_have() {
    let config = ClusterConfig::Fixed { x: 0, y: 5000, z: 1 };
    assert_eq!(
        config.dimensions_for(false, 1920, 1080),
        GridDimensions { x: 1, y: MAX_DIMENSION, z: 1 }
    );
    assert_eq!(limit_dimension(0), 1);
    assert_eq!(limit_dimension(1), 1);
    assert_eq!(limit_dimension(1024), 1024);
    assert_eq!(limit_dimension(1025), 1024);
    assert_eq!(limit_dimension(u32::MAX), 1024);
}

#[test]
fn an_automatic_layout_follows_the_viewport() {
    let config = ClusterConfig::Automatic { cell_pixels: 64, z_slices: 24, min_tiles: 1, max_tiles: 64 };
    assert_eq!(config.dimensions_for(false, 1920, 1080), GridDimensions { x: 30, y: 17, z: 24 });
    assert_eq!(config.dimensions_for(false, 1921, 1088), GridDimensions { x: 31, y: 17, z: 24 });
    assert_eq!(config.dimensions_for(false, 0, 0), GridDimensions { x: 1, y: 1, z: 24 });
    assert_eq!(config.dimensions_for(false, 100_000, 64), GridDimensions { x: 64, y: 1, z: 24 });
}

#[test]
fn automatic_tiles_stay_between_the_bounds_of_the_layout() {
    assert_eq!(tiles_for(1920, 64, 1, 64), 30);
    assert_eq!(tiles_for(1920, 64, 40, 64), 40);
    assert_eq!(tiles_for(1920, 64, 1, 16), 16);
    // A cell of no pixels counts as one pixel wide.
    assert_eq!(tiles_for(100, 0, 1, 500), 100);
    // Bounds in the wrong order: the lower one wins.
    assert_eq!(tiles_for(1920, 64, 50, 10), 50);
    // Bounds past what a grid can have.
    assert_eq!(tiles_for(u32::MAX, 1, 0, u32::MAX), MAX_DIMENSION);
    assert_eq!(tiles_for(0, 64, 0, 0), 1);
}

#[test]
fn single_cluster_config_yields_one_cell() {
    let grid = ClusterGrid::new(perspective(), 1920, 1080, ClusterConfig::Single, SliceMode::Exponential);
    assert_eq!(grid.dimensions(), GridDimensions { x: 1, y: 1, z: 1 });
    assert_eq!(grid.cell_count(), 1);
}

#[test]
fn an_orthographic_view_has_one_cell_whatever_the_layout() {
    for config in [
        ClusterConfig::Single,
        ClusterConfig::Fixed { x: 16, y: 9, z: 24 },
        ClusterConfig::Fixed { x: 1024, y: 1024, z: 1024 },
        ClusterConfig::Automatic { cell_pixels: 16, z_slices: 24, min_tiles: 4, max_tiles: 64 },
    ] {
        assert_eq!(config.dimensions_for(true, 1920, 1080), GridDimensions { x: 1, y: 1, z: 1 });
        for mode in [SliceMode::Linear, SliceMode::Exponential] {
            let grid = ClusterGrid::new(orthographic(), 1920, 1080, config, mode);
            assert_eq!(grid.cell_count(), 1);
            assert_eq!(grid.dimensions(), GridDimensions { x: 1, y: 1, z: 1 });
            assert_eq!(grid.depth_slices().table(), &vec![0, 900]);
        }
    }
}

#[test]
fn a_new_grid_has_an_empty_list_for_every_cell() {
    let config = ClusterConfig::Fixed { x: 4, y: 3, z: 2 };
    let grid = ClusterGrid::new(perspective(), 800, 600, config, SliceMode::Linear);
    assert_eq!(grid.cell_count(), 24);
    for index in 0..24 {
        assert!(grid.cell(index).is_empty());
    }
    assert_eq!(grid.layout(), config);
    assert_eq!(grid.viewport_size(), (800, 600));
    assert_eq!(grid.view_camera().near_depth(), 100);
    assert_eq!(grid.depth_slices().table(), &vec![100, 500, 900]);
}

#[test]
fn the_grid_slices_depth_as_asked() {
    let config = ClusterConfig::Fixed { x: 1, y: 1, z: 2 };
    let camera = Camera::new(Projection::Perspective { half_width: 1, half_height: 1, focal: 1 }, 10, 1000).unwrap();
    let linear = ClusterGrid::new(camera, 800, 600, config, SliceMode::Linear);
    assert_eq!(linear.depth_slices().table(), &vec![10, 505, 1000]);
    let exponential = ClusterGrid::new(camera, 800, 600, config, SliceMode::Exponential);
    assert_eq!(exponential.depth_slices().table(), &vec![10, 100, 1000]);
}

#[test]
fn cell_indices_and_coordinates_round_trip() {
    let dims = GridDimensions { x: 4, y: 3, z: 2 };
    assert_eq!(dims.cells(), 24);
    assert_eq!(dims.cell_index(0, 0, 0), 0);
    assert_eq!(dims.cell_index(3, 0, 0), 3);
    assert_eq!(dims.cell_index(0, 1, 0), 4);
    assert_eq!(dims.cell_index(0, 0, 1), 12);
    assert_eq!(dims.cell_index(3, 2, 1), 23);
    for index in 0..24 {
        let (x, y, z) = dims.coordinates(index);
        assert!(x < 4 && y < 3 && z < 2);
        assert_eq!(dims.cell_index(x, y, z), index);
    }
    let largest = GridDimensions { x: 1024, y: 1024, z: 1024 };
    assert_eq!(largest.cells(), 1 << 30);
    assert_eq!(largest.cell_index(1023, 1023, 1023), (1 << 30) - 1);
    assert_eq!(largest.coordinates((1 << 30) - 1), (1023, 1023, 1023));
}

#[test]
fn rebuilding_keeps_nothing() {
    let mut grid = ClusterGrid::new(perspective(), 800, 600, ClusterConfig::Fixed { x: 4, y: 3, z: 2 }, SliceMode::Linear);
    let everywhere = clustered_lighting::assign::VisibleLight {
        index: 7,
        influence: clustered_lighting::assign::Influence::AllClusters,
    };
    grid.assign_lights(&vec![everywhere]);
    assert_eq!(grid.cell(5), &vec![7]);
    grid.rebuild(perspective(), 1024, 768, ClusterConfig::Fixed { x: 2, y: 2, z: 2 }, SliceMode::Exponential);
    assert_eq!(grid.cell_count(), 8);
    assert_eq!(grid.viewport_size(), (1024, 768));
    for index in 0..8 {
        assert!(grid.cell(index).is_empty());
    }
}

#[test]
fn clearing_empties_the_lists_and_keeps_the_grid() {
    let mut grid = ClusterGrid::new(perspective(), 800, 600, ClusterConfig::Fixed { x: 4, y: 3, z: 2 }, SliceMode::Linear);
    let everywhere = clustered_lighting::assign::VisibleLight {
        index: 7,
        influence: clustered_lighting::assign::Influence::AllClusters,
    };
    grid.assign_lights(&vec![everywhere]);
    grid.clear();
    assert_eq!(grid.cell_count(), 24);
    assert_eq!(grid.dimensions(), GridDimensions { x: 4, y: 3, z: 2 });
    for index in 0..24 {
        assert!(grid.cell(index).is_empty());
    }
}

#[test]
fn refreshing_rebuilds_only_what_has_changed() {
    let fixed = ClusterConfig::Fixed { x: 4, y: 3, z: 2 };
    let mut grid = ClusterGrid::new(perspective(), 800, 600, fixed, SliceMode::Linear);
    let everywhere = clustered_lighting::assign::VisibleLight {
        index: 7,
        influence: clustered_lighting::assign::Influence::AllClusters,
    };
    grid.assign_lights(&vec![everywhere]);
    assert!(!grid.refresh(perspective(), 800, 600, fixed, SliceMode::Linear));
    assert_eq!(grid.cell_count(), 24);
    assert!((0..24).all(|index| grid.cell(index).is_empty()));
    grid.assign_lights(&vec![everywhere]);
    assert!(grid.refresh(perspective(), 801, 600, fixed, SliceMode::Linear));
    assert_eq!(grid.viewport_size(), (801, 600));
    assert!((0..24).all(|index| grid.cell(index).is_empty()));
    assert!(grid.refresh(perspective(), 801, 600, fixed, SliceMode::Exponential));
    assert_eq!(grid.depth_slices().slice_mode(), SliceMode::Exponential);
    assert!(grid.refresh(perspective(), 801, 600, ClusterConfig::Single, SliceMode::Exponential));
    assert_eq!(grid.cell_count(), 1);
    let nearer = Camera::new(Projection::Perspective { half_width: 1, half_height: 1, focal: 1 }, 50, 900).unwrap();
    assert!(grid.refresh(nearer, 801, 600, ClusterConfig::Single, SliceMode::Exponential));
    assert_eq!(grid.view_camera().near_depth(), 50);
    assert!(!grid.refresh(nearer, 801, 600, ClusterConfig::Single, SliceMode::Exponential));
}
