//! Which cells of a cluster grid a light can reach.
//!
//! A light that reaches everywhere is listed in every cell.  A light with a
//! sphere of influence is dropped when the sphere lies outside the view;
//! otherwise it is listed in the box of cells that covers the sphere's
//! bounding cube on the screen and in depth.

use vstd::prelude::*;
use crate::camera::{Camera, Projection};
use crate::cluster::{lemma_coordinates_round_trip, lemma_index_round_trip, GridDimensions};
use crate::depth::{lemma_slice_from_range, slice_index, DepthSlices};
use crate::frustum::{lemma_perspective_planes_contain, planes_contain, planes_exclude};
use crate::geometry::{lemma_sphere_outside_sound, BoundingVolume, Vector3, Sphere};
use crate::numeric::{clamp_int, div_floor, max_int, min_int};

verus! {

/// What a light can reach.
#[derive(Clone, Copy, Debug, PartialEq, Eq, Structural)]
pub enum Influence {
    /// Every cell of every view, as a directional light does.
    AllClusters,
    /// The points of a ball, given in the frame of the view.
    Sphere(Sphere),
}

/// A light that may be seen: its place in the array of all lights, and what
/// it can reach.
#[derive(Clone, Copy, Debug, PartialEq, Eq, Structural)]
pub struct VisibleLight {
    pub index: u32,
    pub influence: Influence,
}

/// A box of cells, both ends included.
#[derive(Clone, Copy, Debug, PartialEq, Eq, Structural)]
pub struct CellRange {
    pub min_x: u32,
    pub max_x: u32,
    pub min_y: u32,
    pub max_y: u32,
    pub min_z: u32,
    pub max_z: u32,
}

impl CellRange {
    /// Whether cell `(x, y, z)` is in the box.
    pub open spec fn contains(self, x: int, y: int, z: int) -> bool {
        &&& self.min_x <= x <= self.max_x
        &&& self.min_y <= y <= self.max_y
        &&& self.min_z <= z <= self.max_z
    }

    /// Whether every cell of the box is a cell of a grid of `dims`.
    pub open spec fn within(self, dims: GridDimensions) -> bool {
        self.max_x < dims.x && self.max_y < dims.y && self.max_z < dims.z
    }
}

/// What decides where a light lands: the view, the number of cells, and the
/// bounds of the depth slices.
pub struct GridShape {
    pub camera: Camera,
    pub dims: GridDimensions,
    pub bounds: Seq<u32>,
}

impl GridShape {
    /// The camera is valid, the grid has cells, and the table of bounds has
    /// one slice for each layer of cells.
    pub open spec fn wf(self) -> bool {
        &&& self.camera.wf()
        &&& self.dims.wf()
        &&& self.bounds.len() == self.dims.z + 1
        &&& self.camera.is_orthographic() ==> self.dims == (GridDimensions { x: 1, y: 1, z: 1 })
    }
}

/// The tile, out of `tiles` across the view, onto which a perspective view
/// projects the coordinate `coord` at depth `depth`: the floor of
/// `(coord * focal / (depth * half_extent) + 1) / 2 * tiles`, limited to the
/// tiles there are.
pub open spec fn tile_of(coord: int, depth: int, half_extent: int, focal: int, tiles: int) -> int {
    clamp_int(
        ((coord * focal + depth * half_extent) * tiles) / (2 * depth * half_extent),
        0,
        tiles - 1,
    )
}

/// The first and last tile that the interval `[center - radius, center +
/// radius]` covers somewhere between the depths `lo` and `hi`.
pub open spec fn tile_range(
    center: int,
    radius: int,
    lo: int,
    hi: int,
    half_extent: int,
    focal: int,
    tiles: int,
) -> (int, int) {
    (
        min_int(
            tile_of(center - radius, lo, half_extent, focal, tiles),
            tile_of(center - radius, hi, half_extent, focal, tiles),
        ),
        max_int(
            tile_of(center + radius, lo, half_extent, focal, tiles),
            tile_of(center + radius, hi, half_extent, focal, tiles),
        ),
    )
}

/// The depths of a ball that a view can show: from the nearest depth of the
/// ball, or the near depth if that is deeper, to the farthest depth of the
/// ball, or the far depth if that is nearer.
pub open spec fn depth_extent(camera: Camera, sphere: Sphere) -> (int, int) {
    let lo = max_int(sphere.center.z - sphere.radius, camera.near() as int);
    let hi = max_int(lo, min_int(sphere.center.z + sphere.radius, camera.far() as int));
    (lo, hi)
}

/// The box of cells that covers a ball.
///
/// In depth the ball counts from its nearest depth up to, but not
/// including, its farthest: a ball that ends exactly where a slice starts
/// is not listed in that slice.
pub open spec fn light_range(shape: GridShape, sphere: Sphere) -> CellRange {
    let (lo, hi) = depth_extent(shape.camera, sphere);
    let min_z = slice_index(shape.bounds, lo);
    let max_z = slice_index(shape.bounds, max_int(lo, hi - 1));
    match shape.camera.projection() {
        Projection::Perspective { half_width, half_height, focal } => {
            let across = tile_range(
                sphere.center.x as int,
                sphere.radius as int,
                lo,
                hi,
                half_width as int,
                focal as int,
                shape.dims.x as int,
            );
            let up = tile_range(
                sphere.center.y as int,
                sphere.radius as int,
                lo,
                hi,
                half_height as int,
                focal as int,
                shape.dims.y as int,
            );
            CellRange {
                min_x: across.0 as u32,
                max_x: across.1 as u32,
                min_y: up.0 as u32,
                max_y: up.1 as u32,
                min_z: min_z as u32,
                max_z: max_z as u32,
            }
        },
        Projection::Orthographic { .. } => CellRange {
            min_x: 0,
            max_x: 0,
            min_y: 0,
            max_y: 0,
            min_z: min_z as u32,
            max_z: max_z as u32,
        },
    }
}

/// Whether a light is listed in cell `(x, y, z)`.
pub open spec fn affects(shape: GridShape, light: VisibleLight, x: int, y: int, z: int) -> bool {
    match light.influence {
        Influence::AllClusters => true,
        Influence::Sphere(sphere) => {
            &&& !planes_exclude(shape.camera.frustum_planes(), BoundingVolume::Sphere(sphere))
            &&& light_range(shape, sphere).contains(x, y, z)
        },
    }
}

/// The list of cell `(x, y, z)`: the indices of the lights that reach it, in
/// the order in which the lights were given.
pub open spec fn lights_of_cell(
    shape: GridShape,
    lights: Seq<VisibleLight>,
    x: int,
    y: int,
    z: int,
) -> Seq<u32>
    decreases lights.len(),
{
    if lights.len() == 0 {
        Seq::empty()
    } else {
        let earlier = lights_of_cell(shape, lights.drop_last(), x, y, z);
        if affects(shape, lights.last(), x, y, z) {
            earlier.push(lights.last().index)
        } else {
            earlier
        }
    }
}

/// Computes the tile onto which a coordinate projects.
pub fn tile_index(coord: i64, depth: i64, half_extent: u16, focal: u16, tiles: u32) -> (tile: u32)
    requires
        1 <= depth,
        1 <= half_extent,
        1 <= tiles,
    ensures
        tile == tile_of(coord as int, depth as int, half_extent as int, focal as int, tiles as int),
        tile < tiles,
{
    assert(-0x8000_0000_0000_0000_0000 <= coord * focal <= 0x8000_0000_0000_0000_0000)
        by (nonlinear_arith)
        requires
            -0x8000_0000_0000_0000 <= coord <= 0x7fff_ffff_ffff_ffff,
            0 <= focal <= 0xffff,
    ;
    let scaled: i128 = (coord as i128) * (focal as i128);
    assert(1 <= depth * half_extent <= 0x8000_0000_0000_0000_0000) by (nonlinear_arith)
        requires
            1 <= depth <= 0x7fff_ffff_ffff_ffff,
            1 <= half_extent <= 0xffff,
    ;
    let reach: i128 = (depth as i128) * (half_extent as i128);
    assert(-0x1_0000_0000_0000_0000_0000_0000_0000 <= (scaled + reach) * tiles
        <= 0x1_0000_0000_0000_0000_0000_0000_0000) by (nonlinear_arith)
        requires
            -0x8000_0000_0000_0000_0000 <= scaled <= 0x8000_0000_0000_0000_0000,
            1 <= reach <= 0x8000_0000_0000_0000_0000,
            1 <= tiles <= 0xffff_ffff,
    ;
    let numerator: i128 = (scaled + reach) * (tiles as i128);
    let denominator: i128 = 2 * reach;
    assert(2 * depth * half_extent == 2 * (depth * half_extent)) by (nonlinear_arith);
    let raw: i128 = div_floor(numerator, denominator);
    if raw < 0 {
        0
    } else if raw > (tiles as i128) - 1 {
        tiles - 1
    } else {
        raw as u32
    }
}

/// Computes the first and last tile that an interval covers.
pub fn tile_span(
    center: i32,
    radius: u32,
    lo: i64,
    hi: i64,
    half_extent: u16,
    focal: u16,
    tiles: u32,
) -> (span: (u32, u32))
    requires
        1 <= lo,
        1 <= hi,
        1 <= half_extent,
        1 <= tiles,
    ensures
        (span.0 as int, span.1 as int) == tile_range(
            center as int,
            radius as int,
            lo as int,
            hi as int,
            half_extent as int,
            focal as int,
            tiles as int,
        ),
        span.0 < tiles,
        span.1 < tiles,
{
    let left: i64 = (center as i64) - (radius as i64);
    let right: i64 = (center as i64) + (radius as i64);
    let a: u32 = tile_index(left, lo, half_extent, focal, tiles);
    let b: u32 = tile_index(left, hi, half_extent, focal, tiles);
    let c: u32 = tile_index(right, lo, half_extent, focal, tiles);
    let d: u32 = tile_index(right, hi, half_extent, focal, tiles);
    (if a <= b { a } else { b }, if c >= d { c } else { d })
}

/// Computes the box of cells that covers a ball.
pub fn cells_of_sphere(
    camera: &Camera,
    dims: &GridDimensions,
    slices: &DepthSlices,
    sphere: &Sphere,
) -> (range: CellRange)
    requires
        slices.wf(),
        (GridShape { camera: *camera, dims: *dims, bounds: slices.bounds() }).wf(),
    ensures
        range == light_range(
            GridShape { camera: *camera, dims: *dims, bounds: slices.bounds() },
            *sphere,
        ),
        range.within(*dims),
{
    let near: i64 = camera.near_depth() as i64;
    let far: i64 = camera.far_depth() as i64;
    let front: i64 = (sphere.center.z as i64) - (sphere.radius as i64);
    let back: i64 = (sphere.center.z as i64) + (sphere.radius as i64);
    let lo: i64 = if front >= near { front } else { near };
    let capped: i64 = if back <= far { back } else { far };
    let hi: i64 = if lo >= capped { lo } else { capped };
    let last: i64 = if lo >= hi - 1 { lo } else { hi - 1 };
    let min_z: u32 = slices.find_slice(lo);
    let max_z: u32 = slices.find_slice(last);
    match camera.get_projection() {
        Projection::Perspective { half_width, half_height, focal } => {
            let across = tile_span(sphere.center.x, sphere.radius, lo, hi, half_width, focal, dims.x);
            let up = tile_span(sphere.center.y, sphere.radius, lo, hi, half_height, focal, dims.y);
            CellRange {
                min_x: across.0,
                max_x: across.1,
                min_y: up.0,
                max_y: up.1,
                min_z,
                max_z,
            }
        },
        Projection::Orthographic { .. } => CellRange {
            min_x: 0,
            max_x: 0,
            min_y: 0,
            max_y: 0,
            min_z,
            max_z,
        },
    }
}

/// Whether the box has reached cell `index` once it has done every slice
/// before `z`, every row of slice `z` before `y`, and the cells of that row
/// before `x`.
pub open spec fn reached(range: CellRange, dims: GridDimensions, index: int, x: int, y: int, z: int) -> bool {
    let cx = dims.x_of(index);
    let cy = dims.y_of(index);
    let cz = dims.z_of(index);
    &&& range.contains(cx, cy, cz)
    &&& (cz < z || (cz == z && (cy < y || (cy == y && cx < x))))
}

/// Adds `value` to the list of every cell.
pub fn push_everywhere(cells: &mut Vec<Vec<u32>>, value: u32)
    ensures
        final(cells)@.len() == old(cells)@.len(),
        forall|i: int|
            0 <= i < old(cells)@.len() ==> (#[trigger] final(cells)@[i])@ == old(cells)@[i]@.push(
                value,
            ),
{
    let ghost before = cells@;
    let mut i: usize = 0;
    while i < cells.len()
        invariant
            0 <= i <= cells@.len(),
            cells@.len() == before.len(),
            forall|j: int| 0 <= j < i ==> (#[trigger] cells@[j])@ == before[j]@.push(value),
            forall|j: int| i <= j < cells@.len() ==> (#[trigger] cells@[j]) == before[j],
        decreases cells@.len() - i,
    {
        cells[i].push(value);
        i += 1;
    }
}

/// Adds `value` to the list of every cell of the box.
pub fn push_range(cells: &mut Vec<Vec<u32>>, dims: &GridDimensions, range: &CellRange, value: u32)
    requires
        dims.wf(),
        old(cells)@.len() == dims.cell_count(),
        range.within(*dims),
    ensures
        final(cells)@.len() == old(cells)@.len(),
        forall|i: int|
            0 <= i < old(cells)@.len() ==> (#[trigger] final(cells)@[i])@ == if range.contains(
                dims.x_of(i),
                dims.y_of(i),
                dims.z_of(i),
            ) {
                old(cells)@[i]@.push(value)
            } else {
                old(cells)@[i]@
            },
{
    let ghost before = cells@;
    let mut z: u32 = range.min_z;
    while z <= range.max_z
        invariant
            dims.wf(),
            range.within(*dims),
            range.min_z <= z,
            z <= range.max_z + 1 || z == range.min_z,
            cells@.len() == before.len(),
            before.len() == dims.cell_count(),
            forall|i: int|
                0 <= i < before.len() ==> (#[trigger] cells@[i])@ == if reached(
                    *range,
                    *dims,
                    i,
                    0,
                    0,
                    z as int,
                ) {
                    before[i]@.push(value)
                } else {
                    before[i]@
                },
        decreases range.max_z + 1 - z,
    {
        let mut y: u32 = range.min_y;
        while y <= range.max_y
            invariant
                dims.wf(),
                range.within(*dims),
                range.min_z <= z <= range.max_z,
                range.min_y <= y,
                y <= range.max_y + 1 || y == range.min_y,
                cells@.len() == before.len(),
                before.len() == dims.cell_count(),
                forall|i: int|
                    0 <= i < before.len() ==> (#[trigger] cells@[i])@ == if reached(
                        *range,
                        *dims,
                        i,
                        0,
                        y as int,
                        z as int,
                    ) {
                        before[i]@.push(value)
                    } else {
                        before[i]@
                    },
            decreases range.max_y + 1 - y,
        {
            let mut x: u32 = range.min_x;
            while x <= range.max_x
                invariant
                    dims.wf(),
                    range.within(*dims),
                    range.min_z <= z <= range.max_z,
                    range.min_y <= y <= range.max_y,
                    range.min_x <= x,
                    x <= range.max_x + 1 || x == range.min_x,
                    cells@.len() == before.len(),
                    before.len() == dims.cell_count(),
                    forall|i: int|
                        0 <= i < before.len() ==> (#[trigger] cells@[i])@ == if reached(
                            *range,
                            *dims,
                            i,
                            x as int,
                            y as int,
                            z as int,
                        ) {
                            before[i]@.push(value)
                        } else {
                            before[i]@
                        },
                decreases range.max_x + 1 - x,
            {
                let index: usize = dims.cell_index(x, y, z);
                let ghost earlier = cells@;
                cells[index].push(value);
                proof {
                    lemma_index_round_trip(*dims, x as int, y as int, z as int);
                    assert forall|i: int| 0 <= i < before.len() implies (#[trigger] cells@[i])@
                        == if reached(*range, *dims, i, x + 1, y as int, z as int) {
                        before[i]@.push(value)
                    } else {
                        before[i]@
                    } by {
                        lemma_coordinates_round_trip(*dims, i);
                        assert(earlier[i]@ == if reached(*range, *dims, i, x as int, y as int, z as int) {
                            before[i]@.push(value)
                        } else {
                            before[i]@
                        });
                    }
                }
                x += 1;
            }
            y += 1;
        }
        z += 1;
    }
}

/// A cell lists an index exactly when some light given with that index
/// reaches the cell.
pub proof fn lemma_listed_iff_reached(
    shape: GridShape,
    lights: Seq<VisibleLight>,
    x: int,
    y: int,
    z: int,
    index: u32,
)
    ensures
        lights_of_cell(shape, lights, x, y, z).contains(index) <==> exists|j: int|
            0 <= j < lights.len() && (#[trigger] lights[j]).index == index && affects(
                shape,
                lights[j],
                x,
                y,
                z,
            ),
    decreases lights.len(),
{
    let list = lights_of_cell(shape, lights, x, y, z);
    if lights.len() == 0 {
        assert(!list.contains(index));
    } else {
        let rest = lights.drop_last();
        let last = lights.last();
        let earlier = lights_of_cell(shape, rest, x, y, z);
        lemma_listed_iff_reached(shape, rest, x, y, z, index);
        let found = exists|j: int|
            0 <= j < lights.len() && (#[trigger] lights[j]).index == index && affects(
                shape,
                lights[j],
                x,
                y,
                z,
            );
        if list.contains(index) {
            let at = choose|i: int| 0 <= i < list.len() && list[i] == index;
            if affects(shape, last, x, y, z) && at == earlier.len() {
                assert(lights[lights.len() - 1].index == index);
            } else {
                assert(earlier[at] == index);
                assert(earlier.contains(index));
                let j = choose|j: int|
                    0 <= j < rest.len() && (#[trigger] rest[j]).index == index && affects(
                        shape,
                        rest[j],
                        x,
                        y,
                        z,
                    );
                assert(lights[j] == rest[j]);
            }
            assert(found);
        }
        if found {
            let j = choose|j: int|
                0 <= j < lights.len() && (#[trigger] lights[j]).index == index && affects(
                    shape,
                    lights[j],
                    x,
                    y,
                    z,
                );
            if j == lights.len() - 1 {
                assert(list == earlier.push(index));
                assert(list[earlier.len() as int] == index);
            } else {
                assert(rest[j] == lights[j]);
                assert(earlier.contains(index));
                let at = choose|i: int| 0 <= i < earlier.len() && earlier[i] == index;
                assert(list[at] == index);
            }
            assert(list.contains(index));
        }
    }
}

/// The lists keep the order in which the lights were given: the list of a
/// longer run of lights starts with the list of the shorter run.
pub proof fn lemma_lists_grow_in_order(
    shape: GridShape,
    lights: Seq<VisibleLight>,
    fewer: int,
    x: int,
    y: int,
    z: int,
)
    requires
        0 <= fewer <= lights.len(),
    ensures
        lights_of_cell(shape, lights.take(fewer), x, y, z).is_prefix_of(
            lights_of_cell(shape, lights, x, y, z),
        ),
    decreases lights.len(),
{
    if fewer == lights.len() {
        assert(lights.take(fewer) =~= lights);
    } else {
        assert(lights.drop_last().take(fewer) =~= lights.take(fewer));
        lemma_lists_grow_in_order(shape, lights.drop_last(), fewer, x, y, z);
    }
}

/// A light whose sphere lies outside the view is listed nowhere: when every
/// light given with `index` has its sphere wholly outside some plane of the
/// view's frustum, no cell lists `index`.
pub proof fn lemma_outside_light_listed_nowhere(
    shape: GridShape,
    lights: Seq<VisibleLight>,
    index: u32,
    x: int,
    y: int,
    z: int,
)
    requires
        forall|j: int|
            0 <= j < lights.len() && (#[trigger] lights[j]).index == index ==> {
                &&& lights[j].influence matches Influence::Sphere(sphere)
                &&& planes_exclude(shape.camera.frustum_planes(), BoundingVolume::Sphere(sphere))
            },
    ensures
        !lights_of_cell(shape, lights, x, y, z).contains(index),
{
    lemma_listed_iff_reached(shape, lights, x, y, z, index);
}

/// A light that reaches everywhere is listed in every cell.
pub proof fn lemma_directional_light_listed_everywhere(
    shape: GridShape,
    lights: Seq<VisibleLight>,
    j: int,
    x: int,
    y: int,
    z: int,
)
    requires
        0 <= j < lights.len(),
        lights[j].influence == Influence::AllClusters,
    ensures
        lights_of_cell(shape, lights, x, y, z).contains(lights[j].index),
{
    lemma_listed_iff_reached(shape, lights, x, y, z, lights[j].index);
}

/// The box of a ball stays within the grid, and its first slice is not
/// after its last.
pub proof fn lemma_light_range_slices(shape: GridShape, sphere: Sphere)
    requires
        shape.wf(),
    ensures
        light_range(shape, sphere).min_z <= light_range(shape, sphere).max_z < shape.dims.z,
        light_range(shape, sphere).min_z == slice_index(
            shape.bounds,
            depth_extent(shape.camera, sphere).0,
        ),
{
    let (lo, hi) = depth_extent(shape.camera, sphere);
    let last = max_int(lo, hi - 1);
    lemma_slice_from_range(shape.bounds, lo, shape.bounds.len() - 2);
    lemma_slice_from_range(shape.bounds, last, shape.bounds.len() - 2);
    crate::depth::lemma_slice_monotonic(shape.bounds, lo, last);
}

/// Moving a light away from the camera never moves the first depth slice in
/// which it is listed toward the camera.
pub proof fn lemma_first_slice_monotonic(shape: GridShape, nearer: Sphere, farther: Sphere)
    requires
        shape.wf(),
        nearer.radius == farther.radius,
        nearer.center.z <= farther.center.z,
    ensures
        light_range(shape, nearer).min_z <= light_range(shape, farther).min_z,
{
    lemma_light_range_slices(shape, nearer);
    lemma_light_range_slices(shape, farther);
    crate::depth::lemma_slice_monotonic(
        shape.bounds,
        depth_extent(shape.camera, nearer).0,
        depth_extent(shape.camera, farther).0,
    );
}

/// The cell in which a point of the view is shaded: the tile onto which it
/// projects and the slice that holds its depth.
pub open spec fn cell_of_point(shape: GridShape, p: Vector3) -> (int, int, int) {
    let slice = slice_index(shape.bounds, p.z as int);
    match shape.camera.projection() {
        Projection::Perspective { half_width, half_height, focal } => (
            tile_of(p.x as int, p.z as int, half_width as int, focal as int, shape.dims.x as int),
            tile_of(p.y as int, p.z as int, half_height as int, focal as int, shape.dims.y as int),
            slice,
        ),
        Projection::Orthographic { .. } => (0, 0, slice),
    }
}

/// The tile before it is limited to the tiles there are.
pub open spec fn raw_tile(scaled: int, depth: int, half_extent: int, tiles: int) -> int {
    ((scaled + depth * half_extent) * tiles) / (2 * depth * half_extent)
}

/// A tile is at least `q` exactly when `(2 q - tiles) * half_extent * depth`
/// is at most `scaled * tiles`.
proof fn lemma_raw_tile_at_least(scaled: int, depth: int, half_extent: int, tiles: int, q: int)
    requires
        depth >= 1,
        half_extent >= 1,
    ensures
        q <= raw_tile(scaled, depth, half_extent, tiles) <==> ((2 * q - tiles) * half_extent)
            * depth <= scaled * tiles,
{
    let numerator = (scaled + depth * half_extent) * tiles;
    let denominator = 2 * depth * half_extent;
    assert(denominator >= 1) by (nonlinear_arith)
        requires
            denominator == 2 * depth * half_extent,
            depth >= 1,
            half_extent >= 1,
    ;
    crate::depth::lemma_floor_at_least(numerator, denominator, q);
    assert(q * denominator <= numerator <==> ((2 * q - tiles) * half_extent) * depth <= scaled
        * tiles) by (nonlinear_arith)
        requires
            numerator == (scaled + depth * half_extent) * tiles,
            denominator == 2 * depth * half_extent,
    ;
}

/// Right of the axis a tile moves toward the middle with depth, left of it
/// away from the middle: between two depths the tile lies between the
/// tiles at those depths.
proof fn lemma_raw_tile_between(
    scaled: int,
    lo: int,
    depth: int,
    hi: int,
    half_extent: int,
    tiles: int,
)
    requires
        1 <= lo <= depth <= hi,
        half_extent >= 1,
        tiles >= 1,
    ensures
        raw_tile(scaled, depth, half_extent, tiles) >= min_int(
            raw_tile(scaled, lo, half_extent, tiles),
            raw_tile(scaled, hi, half_extent, tiles),
        ),
        raw_tile(scaled, depth, half_extent, tiles) <= max_int(
            raw_tile(scaled, lo, half_extent, tiles),
            raw_tile(scaled, hi, half_extent, tiles),
        ),
{
    let at_lo = raw_tile(scaled, lo, half_extent, tiles);
    let at = raw_tile(scaled, depth, half_extent, tiles);
    let at_hi = raw_tile(scaled, hi, half_extent, tiles);
    let product = scaled * tiles;
    if scaled >= 0 {
        // The tile falls with depth.
        assert(product >= 0) by (nonlinear_arith)
            requires
                product == scaled * tiles,
                scaled >= 0,
                tiles >= 1,
        ;
        lemma_raw_tile_at_least(scaled, hi, half_extent, tiles, at_hi);
        lemma_raw_tile_at_least(scaled, depth, half_extent, tiles, at_hi);
        let c = (2 * at_hi - tiles) * half_extent;
        assert(c * depth <= product) by (nonlinear_arith)
            requires
                c * hi <= product,
                product >= 0,
                1 <= depth <= hi,
        ;
        lemma_raw_tile_at_least(scaled, depth, half_extent, tiles, at);
        lemma_raw_tile_at_least(scaled, lo, half_extent, tiles, at);
        let d = (2 * at - tiles) * half_extent;
        assert(d * lo <= product) by (nonlinear_arith)
            requires
                d * depth <= product,
                product >= 0,
                1 <= lo <= depth,
        ;
    } else {
        // The tile rises with depth.
        assert(product < 0) by (nonlinear_arith)
            requires
                product == scaled * tiles,
                scaled < 0,
                tiles >= 1,
        ;
        lemma_raw_tile_at_least(scaled, lo, half_extent, tiles, at_lo);
        lemma_raw_tile_at_least(scaled, depth, half_extent, tiles, at_lo);
        let c = (2 * at_lo - tiles) * half_extent;
        assert(c * depth <= product) by (nonlinear_arith)
            requires
                c * lo <= product,
                product < 0,
                1 <= lo <= depth,
        ;
        lemma_raw_tile_at_least(scaled, depth, half_extent, tiles, at);
        lemma_raw_tile_at_least(scaled, hi, half_extent, tiles, at);
        let d = (2 * at - tiles) * half_extent;
        assert(d * hi <= product) by (nonlinear_arith)
            requires
                d * depth <= product,
                product < 0,
                1 <= depth <= hi,
        ;
    }
}

/// At one depth a tile never moves left when the coordinate moves right.
proof fn lemma_raw_tile_rises(
    left: int,
    right: int,
    focal: int,
    depth: int,
    half_extent: int,
    tiles: int,
)
    requires
        left <= right,
        focal >= 0,
        depth >= 1,
        half_extent >= 1,
        tiles >= 1,
    ensures
        raw_tile(left * focal, depth, half_extent, tiles) <= raw_tile(
            right * focal,
            depth,
            half_extent,
            tiles,
        ),
{
    let reach = depth * half_extent;
    let denominator = 2 * depth * half_extent;
    assert(denominator >= 1) by (nonlinear_arith)
        requires
            denominator == 2 * depth * half_extent,
            depth >= 1,
            half_extent >= 1,
    ;
    assert((left * focal + reach) * tiles <= (right * focal + reach) * tiles) by (nonlinear_arith)
        requires
            left <= right,
            focal >= 0,
            tiles >= 1,
    ;
    vstd::arithmetic::div_mod::lemma_div_is_ordered(
        (left * focal + reach) * tiles,
        (right * focal + reach) * tiles,
        denominator,
    );
}

/// The tile of a coordinate within `radius` of `center`, at a depth
/// between `lo` and `hi`, lies in the range of tiles of the interval.
pub proof fn lemma_tile_in_range(
    coord: int,
    center: int,
    radius: int,
    lo: int,
    depth: int,
    hi: int,
    half_extent: int,
    focal: int,
    tiles: int,
)
    requires
        center - radius <= coord <= center + radius,
        1 <= lo <= depth <= hi,
        half_extent >= 1,
        focal >= 0,
        tiles >= 1,
    ensures
        tile_range(center, radius, lo, hi, half_extent, focal, tiles).0 <= tile_of(
            coord,
            depth,
            half_extent,
            focal,
            tiles,
        ) <= tile_range(center, radius, lo, hi, half_extent, focal, tiles).1,
{
    let left = center - radius;
    let right = center + radius;
    lemma_raw_tile_rises(left, coord, focal, depth, half_extent, tiles);
    lemma_raw_tile_rises(coord, right, focal, depth, half_extent, tiles);
    lemma_raw_tile_between(left * focal, lo, depth, hi, half_extent, tiles);
    lemma_raw_tile_between(right * focal, lo, depth, hi, half_extent, tiles);
}

/// A coordinate of a point of a ball is within the radius of the center.
proof fn lemma_ball_in_cube(sphere: Sphere, p: Vector3)
    requires
        sphere.contains_point(p),
    ensures
        sphere.center.x - sphere.radius <= p.x <= sphere.center.x + sphere.radius,
        sphere.center.y - sphere.radius <= p.y <= sphere.center.y + sphere.radius,
        sphere.center.z - sphere.radius <= p.z <= sphere.center.z + sphere.radius,
{
    let dx = p.x - sphere.center.x;
    let dy = p.y - sphere.center.y;
    let dz = p.z - sphere.center.z;
    let r = sphere.radius as int;
    assert(-r <= dx <= r && -r <= dy <= r && -r <= dz <= r) by (nonlinear_arith)
        requires
            dx * dx + dy * dy + dz * dz <= r * r,
            r >= 0,
    ;
}

/// No lit point is missed: a point of the ball of a light that the view
/// shows, short of the far end of the ball and of the view, is shaded in a
/// cell that lists the light.
pub proof fn lemma_light_covers_its_ball(shape: GridShape, light: VisibleLight, p: Vector3)
    requires
        shape.wf(),
        light.influence matches Influence::Sphere(sphere) && {
            &&& sphere.contains_point(p)
            &&& sphere.radius == 0 || p.z < sphere.center.z + sphere.radius
        },
        planes_contain(shape.camera.frustum_planes(), p),
        p.z < shape.camera.far(),
    ensures
        ({
            let cell = cell_of_point(shape, p);
            &&& shape.dims.has_cell(cell.0, cell.1, cell.2)
            &&& affects(shape, light, cell.0, cell.1, cell.2)
        }),
{
    let sphere = light.influence->Sphere_0;
    let planes = shape.camera.frustum_planes();
    // The ball is in view, since one of its points is.
    if planes_exclude(planes, BoundingVolume::Sphere(sphere)) {
        let i = choose|i: int|
            0 <= i < planes.len() && (#[trigger] planes[i]).volume_outside(
                BoundingVolume::Sphere(sphere),
            );
        lemma_sphere_outside_sound(planes[i], sphere, p);
        assert(planes[i].contains_point(p));
    }
    lemma_ball_in_cube(sphere, p);
    match shape.camera.projection() {
        Projection::Perspective { half_width, half_height, focal } => {
            lemma_perspective_planes_contain(
                half_width,
                half_height,
                focal,
                shape.camera.near(),
                shape.camera.far(),
                p,
            );
            let (lo, hi) = depth_extent(shape.camera, sphere);
            let last = max_int(lo, hi - 1);
            assert(lo <= p.z <= last);
            crate::depth::lemma_slice_monotonic(shape.bounds, lo, p.z as int);
            crate::depth::lemma_slice_monotonic(shape.bounds, p.z as int, last);
            lemma_light_range_slices(shape, sphere);
            lemma_slice_from_range(shape.bounds, p.z as int, shape.bounds.len() - 2);
            lemma_tile_in_range(
                p.x as int,
                sphere.center.x as int,
                sphere.radius as int,
                lo,
                p.z as int,
                hi,
                half_width as int,
                focal as int,
                shape.dims.x as int,
            );
            lemma_tile_in_range(
                p.y as int,
                sphere.center.y as int,
                sphere.radius as int,
                lo,
                p.z as int,
                hi,
                half_height as int,
                focal as int,
                shape.dims.y as int,
            );
            let cell = cell_of_point(shape, p);
            let range = light_range(shape, sphere);
            lemma_slice_from_range(shape.bounds, lo, shape.bounds.len() - 2);
            lemma_slice_from_range(shape.bounds, last, shape.bounds.len() - 2);
            assert(range.min_z == slice_index(shape.bounds, lo));
            assert(range.max_z == slice_index(shape.bounds, last));
            assert(range.contains(cell.0, cell.1, cell.2));
        },
        Projection::Orthographic { .. } => {
            let (lo, hi) = depth_extent(shape.camera, sphere);
            lemma_slice_from_range(shape.bounds, p.z as int, shape.bounds.len() - 2);
            lemma_slice_from_range(shape.bounds, lo, shape.bounds.len() - 2);
            lemma_slice_from_range(shape.bounds, max_int(lo, hi - 1), shape.bounds.len() - 2);
        },
    }
}

} // verus!
