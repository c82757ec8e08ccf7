use clustered_lighting::depth::{DepthSlices, SliceMode, MAX_DIMENSION};

#[test]
fn linear_slices_have_equal_depth() {
    let slices = DepthSlices::linear(100, 900, 4).unwrap();
    assert_eq!(slices.table(), &vec![100, 300, 500, 700, 900]);
    assert_eq!(slices.slice_count(), 4);
    assert_eq!(slices.slice_mode(), SliceMode::Linear);
}

#[test]
fn linear_bounds_round_up_to_whole_depths() {
    // Bound k is the least depth z with 3 (z - 10) >= 10 k.
    let slices = DepthSlices::linear(10, 20, 3).unwrap();
    assert_eq!(slices.table(), &vec![10, 14, 17, 20]);
    // floor(3 (z - 10) / 10): depth 13 is still in slice 0, depth 14 in slice 1.
    assert_eq!(slices.find_slice(13), 0);
    assert_eq!(slices.find_slice(14), 1);
    assert_eq!(slices.find_slice(16), 1);
    assert_eq!(slices.find_slice(17), 2);
}

#[test]
fn a_depth_on_a_bound_starts_the_slice() {
    let slices = DepthSlices::linear(100, 900, 4).unwrap();
    assert_eq!(slices.find_slice(299), 0);
    assert_eq!(slices.find_slice(300), 1);
    assert_eq!(slices.find_slice(499), 1);
    assert_eq!(slices.find_slice(500), 2);
    assert_eq!(slices.find_slice(700), 3);
}

#[test]
fn depths_outside_the_range_fall_into_the_end_slices() {
    let slices = DepthSlices::linear(100, 900, 4).unwrap();
    assert_eq!(slices.find_slice(i64::MIN), 0);
    assert_eq!(slices.find_slice(-5), 0);
    assert_eq!(slices.find_slice(99), 0);
    assert_eq!(slices.find_slice(900), 3);
    assert_eq!(slices.find_slice(i64::MAX), 3);
}

#[test]
fn a_deeper_point_never_falls_into_an_earlier_slice() {
    let slices = DepthSlices::exponential(3, 5000, 17).unwrap();
    let mut last = 0;
    for depth in -10..6000 {
        let slice = slices.find_slice(depth);
        assert!(slice >= last);
        assert!(slice < 17);
        last = slice;
    }
    assert_eq!(last, 16);
}

#[test]
fn more_slices_than_depths_leave_some_slices_empty() {
    let slices = DepthSlices::linear(5, 7, 4).unwrap();
    assert_eq!(slices.table(), &vec![5, 6, 6, 7, 7]);
    assert_eq!(slices.find_slice(5), 0);
    assert_eq!(slices.find_slice(6), 2);
    assert_eq!(slices.find_slice(7), 3);
}

#[test]
fn linear_slicing_rejects_degenerate_ranges() {
    assert!(DepthSlices::linear(10, 10, 4).is_none());
    assert!(DepthSlices::linear(11, 10, 4).is_none());
    assert!(DepthSlices::linear(1, 10, 0).is_none());
    assert!(DepthSlices::linear(1, 10, MAX_DIMENSION + 1).is_none());
    assert!(DepthSlices::linear(0, 1, 1).is_some());
    assert!(DepthSlices::linear(0, u32::MAX, MAX_DIMENSION).is_some());
}

#[test]
fn exponential_slices_grow_by_a_constant_factor() {
    let slices = DepthSlices::exponential(1, 16, 4).unwrap();
    assert_eq!(slices.table(), &vec![1, 2, 4, 8, 16]);
    assert_eq!(slices.slice_mode(), SliceMode::Exponential);
    let wide = DepthSlices::exponential(10, 1000, 2).unwrap();
    assert_eq!(wide.table(), &vec![10, 100, 1000]);
    let cube = DepthSlices::exponential(5, 5000, 3).unwrap();
    assert_eq!(cube.table(), &vec![5, 50, 500, 5000]);
}

#[test]
fn exponential_bounds_round_up_to_whole_depths() {
    // sqrt(10) = 3.16..., so depth 4 is the first in the second slice.
    let slices = DepthSlices::exponential(1, 10, 2).unwrap();
    assert_eq!(slices.table(), &vec![1, 4, 10]);
    assert_eq!(slices.find_slice(3), 0);
    assert_eq!(slices.find_slice(4), 1);
}

#[test]
fn exponential_slicing_matches_the_logarithm() {
    let near = 7u32;
    let far = 90_000u32;
    let count = 24u32;
    let slices = DepthSlices::exponential(near, far, count).unwrap();
    let table = slices.table();
    assert_eq!(table.len(), 25);
    assert_eq!(table[0], near);
    assert_eq!(table[24], far);
    let ratio = (far as f64) / (near as f64);
    for k in 0..=count {
        let exact = (near as f64) * ratio.powf((k as f64) / (count as f64));
        let bound = table[k as usize] as f64;
        assert!(bound >= exact - 1e-6 * exact, "bound {} is below {}", bound, exact);
        assert!(bound < exact + 1.0 + 1e-6 * exact, "bound {} is far above {}", bound, exact);
    }
    for depth in [7i64, 8, 100, 5000, 89_999] {
        let by_log = ((count as f64) * ((depth as f64) / (near as f64)).ln() / ratio.ln()).floor();
        let slice = slices.find_slice(depth) as f64;
        assert!((slice - by_log).abs() <= 1.0);
    }
}

#[test]
fn exponential_slicing_handles_the_largest_depths() {
    let slices = DepthSlices::exponential(1, u32::MAX, 32).unwrap();
    let table = slices.table();
    assert_eq!(table[0], 1);
    assert_eq!(table[1], 2);
    assert_eq!(table[16], 65536);
    assert_eq!(table[32], u32::MAX);
}

#[test]
fn exponential_slicing_rejects_degenerate_ranges() {
    assert!(DepthSlices::exponential(0, 10, 4).is_none());
    assert!(DepthSlices::exponential(10, 10, 4).is_none());
    assert!(DepthSlices::exponential(1, 10, 0).is_none());
    assert!(DepthSlices::exponential(1, 10, MAX_DIMENSION + 1).is_none());
    assert!(DepthSlices::exponential(1, 2, 1).is_some());
}

#[test]
fn a_table_of_bounds_must_not_decrease() {
    assert!(DepthSlices::from_bounds(SliceMode::Exponential, vec![1, 3, 9, 27]).is_some());
    assert!(DepthSlices::from_bounds(SliceMode::Linear, vec![1, 1, 2]).is_some());
    assert!(DepthSlices::from_bounds(SliceMode::Linear, vec![1, 3, 2, 4]).is_none());
    assert!(DepthSlices::from_bounds(SliceMode::Linear, vec![5]).is_none());
    assert!(DepthSlices::from_bounds(SliceMode::Linear, vec![]).is_none());
    assert!(DepthSlices::from_bounds(SliceMode::Linear, vec![4, 4, 4]).is_none());
    let long: Vec<u32> = (0..=(MAX_DIMENSION + 1)).collect();
    assert!(DepthSlices::from_bounds(SliceMode::Linear, long).is_none());
    let table = DepthSlices::from_bounds(SliceMode::Exponential, vec![1, 3, 9, 27]).unwrap();
    assert_eq!(table.slice_count(), 3);
    assert_eq!(table.slice_mode(), SliceMode::Exponential);
    assert_eq!(table.find_slice(8), 1);
    assert_eq!(table.find_slice(9), 2);
}
