//! The cluster grid of a view: screen tiles times depth slices, and for
//! each cell the list of lights that can reach it.

use vstd::prelude::*;
use crate::assign::{
    cells_of_sphere,
    lights_of_cell,
    push_everywhere,
    push_range,
    GridShape,
    Influence,
    VisibleLight,
};
use crate::camera::Camera;
use crate::depth::{is_spaced, DepthSlices, SliceMode, MAX_DIMENSION};
use crate::geometry::BoundingVolume;
use crate::numeric::{ceil_div_int, clamp_int};

verus! {

/// How a view asks for its grid to be laid out.
#[derive(Clone, Copy, Debug, PartialEq, Eq, Structural)]
pub enum ClusterConfig {
    /// One cell for the whole view.
    Single,
    /// The given number of cells along each axis.
    Fixed { x: u32, y: u32, z: u32 },
    /// As many screen tiles as it takes for a tile to be about `cell_pixels`
    /// wide and high, but between `min_tiles` and `max_tiles` along each
    /// screen axis, and `z_slices` depth slices.
    Automatic { cell_pixels: u32, z_slices: u32, min_tiles: u32, max_tiles: u32 },
}

/// The number of cells of a grid along each axis.
#[derive(Clone, Copy, Debug, PartialEq, Eq, Structural)]
pub struct GridDimensions {
    pub x: u32,
    pub y: u32,
    pub z: u32,
}

/// A cell count limited to what a grid can have along one axis.
pub open spec fn clamp_dimension(count: int) -> int {
    clamp_int(count, 1, MAX_DIMENSION as int)
}

/// The number of tiles that an automatic layout gives an axis of `pixels`
/// pixels.
pub open spec fn automatic_tiles(pixels: int, cell_pixels: int, min_tiles: int, max_tiles: int) -> int {
    let cell = if cell_pixels < 1 {
        1
    } else {
        cell_pixels
    };
    let lowest = clamp_dimension(min_tiles);
    let highest = clamp_int(max_tiles, lowest, MAX_DIMENSION as int);
    clamp_int(ceil_div_int(pixels, cell), lowest, highest)
}

/// The dimensions that a view of `width` by `height` pixels gets under
/// `config`.  An orthographic view always gets a single cell.
pub open spec fn resolved_dimensions(
    orthographic: bool,
    width: u32,
    height: u32,
    config: ClusterConfig,
) -> GridDimensions {
    if orthographic {
        GridDimensions { x: 1, y: 1, z: 1 }
    } else {
        match config {
            ClusterConfig::Single => GridDimensions { x: 1, y: 1, z: 1 },
            ClusterConfig::Fixed { x, y, z } => GridDimensions {
                x: clamp_dimension(x as int) as u32,
                y: clamp_dimension(y as int) as u32,
                z: clamp_dimension(z as int) as u32,
            },
            ClusterConfig::Automatic { cell_pixels, z_slices, min_tiles, max_tiles } => GridDimensions {
                x: automatic_tiles(
                    width as int,
                    cell_pixels as int,
                    min_tiles as int,
                    max_tiles as int,
                ) as u32,
                y: automatic_tiles(
                    height as int,
                    cell_pixels as int,
                    min_tiles as int,
                    max_tiles as int,
                ) as u32,
                z: clamp_dimension(z_slices as int) as u32,
            },
        }
    }
}

impl GridDimensions {
    /// Every axis has between one and `MAX_DIMENSION` cells.
    pub open spec fn wf(self) -> bool {
        &&& 1 <= self.x <= MAX_DIMENSION
        &&& 1 <= self.y <= MAX_DIMENSION
        &&& 1 <= self.z <= MAX_DIMENSION
    }

    /// The number of cells.
    pub open spec fn cell_count(self) -> int {
        self.x * self.y * self.z
    }

    /// The place of cell `(x, y, z)` in the table of cells: rows of `x`
    /// within layers of `y` within slices of `z`.
    pub open spec fn index_of(self, x: int, y: int, z: int) -> int {
        (z * self.y + y) * self.x + x
    }

    /// The tile column of the cell at `index`.
    pub open spec fn x_of(self, index: int) -> int {
        index % (self.x as int)
    }

    /// The tile row of the cell at `index`.
    pub open spec fn y_of(self, index: int) -> int {
        (index / (self.x as int)) % (self.y as int)
    }

    /// The depth slice of the cell at `index`.
    pub open spec fn z_of(self, index: int) -> int {
        (index / (self.x as int)) / (self.y as int)
    }

    /// Whether `(x, y, z)` names a cell.
    pub open spec fn has_cell(self, x: int, y: int, z: int) -> bool {
        0 <= x < self.x && 0 <= y < self.y && 0 <= z < self.z
    }

    /// The number of cells.
    pub fn cells(&self) -> (count: usize)
        requires
            self.wf(),
        ensures
            count == self.cell_count(),
            1 <= count <= 0x4000_0000,
    {
        proof {
            lemma_cell_count_range(*self);
        }
        (self.x as usize) * (self.y as usize) * (self.z as usize)
    }

    /// The place of cell `(x, y, z)` in the table of cells.
    pub fn cell_index(&self, x: u32, y: u32, z: u32) -> (index: usize)
        requires
            self.wf(),
            self.has_cell(x as int, y as int, z as int),
        ensures
            index == self.index_of(x as int, y as int, z as int),
            index < self.cell_count(),
    {
        proof {
            lemma_index_round_trip(*self, x as int, y as int, z as int);
            lemma_cell_count_range(*self);
        }
        assert(z * self.y + y < 0x10_0000) by (nonlinear_arith)
            requires
                0 <= y < self.y <= 0x400,
                0 <= z < self.z <= 0x400,
        ;
        let row: usize = (z as usize) * (self.y as usize) + (y as usize);
        assert(row * self.x + x < self.x * self.y * self.z) by (nonlinear_arith)
            requires
                row == z * self.y + y,
                0 <= x < self.x,
                0 <= y < self.y,
                0 <= z < self.z,
        ;
        row * (self.x as usize) + (x as usize)
    }

    /// The cell at `index` of the table of cells.
    pub fn coordinates(&self, index: usize) -> (cell: (u32, u32, u32))
        requires
            self.wf(),
            index < self.cell_count(),
        ensures
            cell.0 == self.x_of(index as int),
            cell.1 == self.y_of(index as int),
            cell.2 == self.z_of(index as int),
            self.has_cell(cell.0 as int, cell.1 as int, cell.2 as int),
            self.index_of(cell.0 as int, cell.1 as int, cell.2 as int) == index,
    {
        proof {
            lemma_coordinates_round_trip(*self, index as int);
        }
        let row: usize = index / (self.x as usize);
        ((index % (self.x as usize)) as u32, (row % (self.y as usize)) as u32, (row / (
        self.y as usize)) as u32)
    }
}

/// A grid has at least one cell and at most `MAX_DIMENSION` cubed.
pub proof fn lemma_cell_count_range(dims: GridDimensions)
    requires
        dims.wf(),
    ensures
        1 <= dims.cell_count() <= 0x4000_0000,
        1 <= dims.x * dims.y <= 0x10_0000,
{
    assert(1 <= dims.x * dims.y <= 0x10_0000) by (nonlinear_arith)
        requires
            1 <= dims.x <= 0x400,
            1 <= dims.y <= 0x400,
    ;
    assert(1 <= dims.x * dims.y * dims.z <= 0x4000_0000) by (nonlinear_arith)
        requires
            1 <= dims.x * dims.y <= 0x10_0000,
            1 <= dims.z <= 0x400,
    ;
}

/// The index of a cell names that cell and no other: decoding it gives the
/// cell back.
pub proof fn lemma_index_round_trip(dims: GridDimensions, x: int, y: int, z: int)
    requires
        dims.wf(),
        dims.has_cell(x, y, z),
    ensures
        0 <= dims.index_of(x, y, z) < dims.cell_count(),
        dims.x_of(dims.index_of(x, y, z)) == x,
        dims.y_of(dims.index_of(x, y, z)) == y,
        dims.z_of(dims.index_of(x, y, z)) == z,
{
    let nx = dims.x as int;
    let ny = dims.y as int;
    let row = z * ny + y;
    let index = row * nx + x;
    assert(0 <= row < ny * dims.z) by (nonlinear_arith)
        requires
            row == z * ny + y,
            0 <= y < ny,
            0 <= z < dims.z,
    ;
    assert(0 <= index < dims.x * dims.y * dims.z) by (nonlinear_arith)
        requires
            index == row * nx + x,
            0 <= row < ny * dims.z,
            0 <= x < nx,
            nx == dims.x,
            ny == dims.y,
    ;
    vstd::arithmetic::div_mod::lemma_fundamental_div_mod_converse(index, nx, row, x);
    vstd::arithmetic::div_mod::lemma_fundamental_div_mod_converse(row, ny, z, y);
}

/// Every index below the cell count is the index of the cell it decodes
/// to.
pub proof fn lemma_coordinates_round_trip(dims: GridDimensions, index: int)
    requires
        dims.wf(),
        0 <= index < dims.cell_count(),
    ensures
        dims.has_cell(dims.x_of(index), dims.y_of(index), dims.z_of(index)),
        dims.index_of(dims.x_of(index), dims.y_of(index), dims.z_of(index)) == index,
{
    let nx = dims.x as int;
    let ny = dims.y as int;
    let row = index / nx;
    vstd::arithmetic::div_mod::lemma_fundamental_div_mod(index, nx);
    vstd::arithmetic::div_mod::lemma_mod_bound(index, nx);
    assert(0 <= row < ny * dims.z) by (nonlinear_arith)
        requires
            index == nx * row + index % nx,
            0 <= index % nx < nx,
            0 <= index < dims.x * dims.y * dims.z,
            nx == dims.x,
            ny == dims.y,
    ;
    vstd::arithmetic::div_mod::lemma_fundamental_div_mod(row, ny);
    vstd::arithmetic::div_mod::lemma_mod_bound(row, ny);
    let z = row / ny;
    assert(0 <= z < dims.z) by (nonlinear_arith)
        requires
            row == ny * z + row % ny,
            0 <= row % ny < ny,
            0 <= row < ny * dims.z,
    ;
    assert((z * ny + row % ny) * nx + index % nx == index) by (nonlinear_arith)
        requires
            index == nx * row + index % nx,
            row == ny * z + row % ny,
    ;
}

/// An orthographic view has exactly one cell, whatever layout is asked
/// for.
pub proof fn lemma_orthographic_view_has_one_cell(width: u32, height: u32, config: ClusterConfig)
    ensures
        resolved_dimensions(true, width, height, config) == (GridDimensions { x: 1, y: 1, z: 1 }),
        resolved_dimensions(true, width, height, config).cell_count() == 1,
        resolved_dimensions(false, width, height, ClusterConfig::Single).cell_count() == 1,
{
}

/// Every layout resolves to dimensions that a grid can have.
pub proof fn lemma_resolved_dimensions_valid(
    orthographic: bool,
    width: u32,
    height: u32,
    config: ClusterConfig,
)
    ensures
        resolved_dimensions(orthographic, width, height, config).wf(),
{
}

impl ClusterConfig {
    /// Resolves the layout for a view of `width` by `height` pixels.
    pub fn dimensions_for(&self, orthographic: bool, width: u32, height: u32) -> (dims: GridDimensions)
        ensures
            dims == resolved_dimensions(orthographic, width, height, *self),
            dims.wf(),
    {
        if orthographic {
            return GridDimensions { x: 1, y: 1, z: 1 };
        }
        match self {
            ClusterConfig::Single => GridDimensions { x: 1, y: 1, z: 1 },
            ClusterConfig::Fixed { x, y, z } => GridDimensions {
                x: limit_dimension(*x),
                y: limit_dimension(*y),
                z: limit_dimension(*z),
            },
            ClusterConfig::Automatic { cell_pixels, z_slices, min_tiles, max_tiles } => GridDimensions {
                x: tiles_for(width, *cell_pixels, *min_tiles, *max_tiles),
                y: tiles_for(height, *cell_pixels, *min_tiles, *max_tiles),
                z: limit_dimension(*z_slices),
            },
        }
    }
}

/// Limits a cell count to what a grid can have along one axis.
pub fn limit_dimension(count: u32) -> (limited: u32)
    ensures
        limited == clamp_dimension(count as int),
        1 <= limited <= MAX_DIMENSION,
{
    if count < 1 {
        1
    } else if count > MAX_DIMENSION {
        MAX_DIMENSION
    } else {
        count
    }
}

/// The number of tiles that an automatic layout gives an axis of `pixels`
/// pixels.
pub fn tiles_for(pixels: u32, cell_pixels: u32, min_tiles: u32, max_tiles: u32) -> (tiles: u32)
    ensures
        tiles == automatic_tiles(
            pixels as int,
            cell_pixels as int,
            min_tiles as int,
            max_tiles as int,
        ),
        1 <= tiles <= MAX_DIMENSION,
{
    let cell: u32 = if cell_pixels < 1 {
        1
    } else {
        cell_pixels
    };
    let lowest: u32 = limit_dimension(min_tiles);
    let highest: u32 = if max_tiles < lowest {
        lowest
    } else if max_tiles > MAX_DIMENSION {
        MAX_DIMENSION
    } else {
        max_tiles
    };
    let wanted: u32 = if pixels == 0 {
        0
    } else {
        (pixels - 1) / cell + 1
    };
    proof {
        crate::depth::lemma_ceil_div_nonnegative(pixels as int, cell as int);
    }
    if wanted < lowest {
        lowest
    } else if wanted > highest {
        highest
    } else {
        wanted
    }
}

/// The grid of one view and the lights listed in each of its cells.
#[derive(Debug)]
pub struct ClusterGrid {
    camera: Camera,
    config: ClusterConfig,
    width: u32,
    height: u32,
    mode: SliceMode,
    dims: GridDimensions,
    slices: DepthSlices,
    cells: Vec<Vec<u32>>,
}

impl ClusterGrid {
    /// The view that the grid divides.
    pub closed spec fn camera(&self) -> Camera {
        self.camera
    }

    /// The layout that was asked for.
    pub closed spec fn config(&self) -> ClusterConfig {
        self.config
    }

    /// The width and height of the viewport in pixels.
    pub closed spec fn viewport(&self) -> (u32, u32) {
        (self.width, self.height)
    }

    /// The spacing of depth slices that was asked for.
    pub closed spec fn mode(&self) -> SliceMode {
        self.mode
    }

    /// The resolved number of cells along each axis.
    pub closed spec fn dims(&self) -> GridDimensions {
        self.dims
    }

    /// The table of depth slices.
    pub closed spec fn slices(&self) -> DepthSlices {
        self.slices
    }

    /// The list of each cell, by cell index.
    pub closed spec fn cells(&self) -> Seq<Seq<u32>> {
        Seq::new(self.cells@.len(), |i: int| self.cells@[i]@)
    }

    /// What decides where a light lands in this grid.
    pub open spec fn shape(&self) -> GridShape {
        GridShape { camera: self.camera(), dims: self.dims(), bounds: self.slices().bounds() }
    }

    /// The spacing of the depth slices: the one asked for, but for the
    /// single slice of an orthographic view, which has no spacing.
    pub open spec fn spacing(&self) -> SliceMode {
        if self.camera().is_orthographic() {
            SliceMode::Linear
        } else {
            self.mode()
        }
    }

    /// The dimensions are those that the layout resolves to, the depth
    /// slices cut the depth range of the camera into as many slices as the
    /// grid has layers, and there is a list for every cell.
    pub open spec fn wf(&self) -> bool {
        &&& self.camera().wf()
        &&& self.dims().wf()
        &&& self.dims() == resolved_dimensions(
            self.camera().is_orthographic(),
            self.viewport().0,
            self.viewport().1,
            self.config(),
        )
        &&& self.slices().wf()
        &&& self.slices().mode() == self.spacing()
        &&& is_spaced(
            self.slices().bounds(),
            self.spacing(),
            self.camera().near() as int,
            self.camera().far() as int,
            self.dims().z as int,
        )
        &&& self.cells().len() == self.dims().cell_count()
    }

    /// Whether every list is empty.
    pub open spec fn is_clear(&self) -> bool {
        forall|i: int| 0 <= i < self.cells().len() ==> (#[trigger] self.cells()[i]).len() == 0
    }

    /// Builds the grid of a view, with every list empty.
    pub fn new(camera: Camera, width: u32, height: u32, config: ClusterConfig, mode: SliceMode) -> (grid: ClusterGrid)
        requires
            camera.wf(),
        ensures
            grid.wf(),
            grid.camera() == camera,
            grid.viewport() == (width, height),
            grid.config() == config,
            grid.mode() == mode,
            grid.is_clear(),
    {
        let orthographic: bool = match camera.get_projection() {
            crate::camera::Projection::Orthographic { .. } => true,
            crate::camera::Projection::Perspective { .. } => false,
        };
        let dims = config.dimensions_for(orthographic, width, height);
        let near: u32 = camera.near_depth();
        let far: u32 = camera.far_depth();
        let slices = if orthographic {
            DepthSlices::linear(near, far, dims.z).unwrap()
        } else {
            match mode {
                SliceMode::Linear => DepthSlices::linear(near, far, dims.z).unwrap(),
                SliceMode::Exponential => DepthSlices::exponential(near, far, dims.z).unwrap(),
            }
        };
        let count: usize = dims.cells();
        let mut cells: Vec<Vec<u32>> = Vec::new();
        let mut i: usize = 0;
        while i < count
            invariant
                0 <= i <= count,
                cells@.len() == i,
                forall|j: int| 0 <= j < i ==> (#[trigger] cells@[j])@.len() == 0,
            decreases count - i,
        {
            cells.push(Vec::new());
            i += 1;
        }
        ClusterGrid { camera, config, width, height, mode, dims, slices, cells }
    }

    /// Rebuilds the grid for a changed view, viewport or layout.  Nothing of
    /// the grid before is kept.
    pub fn rebuild(
        &mut self,
        camera: Camera,
        width: u32,
        height: u32,
        config: ClusterConfig,
        mode: SliceMode,
    )
        requires
            camera.wf(),
        ensures
            final(self).wf(),
            final(self).camera() == camera,
            final(self).viewport() == (width, height),
            final(self).config() == config,
            final(self).mode() == mode,
            final(self).is_clear(),
    {
        *self = ClusterGrid::new(camera, width, height, config, mode);
    }

    /// Brings the grid up to date for a new frame.  It is rebuilt when the
    /// camera, the viewport, the layout or the spacing has changed; its
    /// lists are emptied either way.  Returns whether it was rebuilt.
    pub fn refresh(
        &mut self,
        camera: Camera,
        width: u32,
        height: u32,
        config: ClusterConfig,
        mode: SliceMode,
    ) -> (rebuilt: bool)
        requires
            old(self).wf(),
            camera.wf(),
        ensures
            final(self).wf(),
            final(self).camera() == camera,
            final(self).viewport() == (width, height),
            final(self).config() == config,
            final(self).mode() == mode,
            final(self).is_clear(),
            rebuilt == !(old(self).camera() == camera && old(self).viewport() == (width, height)
                && old(self).config() == config && old(self).mode() == mode),
            !rebuilt ==> final(self).shape() == old(self).shape(),
    {
        if self.camera.same_as(&camera) && self.width == width && self.height == height
            && self.config == config && self.mode == mode {
            clear_lists(&mut self.cells);
            false
        } else {
            *self = ClusterGrid::new(camera, width, height, config, mode);
            true
        }
    }

    /// Empties every list.
    pub fn clear(&mut self)
        requires
            old(self).wf(),
        ensures
            final(self).wf(),
            final(self).shape() == old(self).shape(),
            final(self).config() == old(self).config(),
            final(self).viewport() == old(self).viewport(),
            final(self).mode() == old(self).mode(),
            final(self).is_clear(),
    {
        clear_lists(&mut self.cells);
    }

    /// Lists the lights again: empties every list, then adds each light
    /// that can reach a cell to the list of that cell, in the order given.
    pub fn assign_lights(&mut self, lights: &Vec<VisibleLight>)
        requires
            old(self).wf(),
        ensures
            final(self).wf(),
            final(self).shape() == old(self).shape(),
            final(self).config() == old(self).config(),
            final(self).viewport() == old(self).viewport(),
            final(self).mode() == old(self).mode(),
            forall|i: int|
                0 <= i < final(self).cells().len() ==> #[trigger] final(self).cells()[i]
                    == lights_of_cell(
                    old(self).shape(),
                    lights@,
                    old(self).dims().x_of(i),
                    old(self).dims().y_of(i),
                    old(self).dims().z_of(i),
                ),
    {
        let frustum = self.camera.frustum();
        clear_lists(&mut self.cells);
        let ghost shape = self.shape();
        let mut next: usize = 0;
        while next < lights.len()
            invariant
                0 <= next <= lights@.len(),
                self.wf(),
                self.shape() == shape,
                self.config() == old(self).config(),
                self.viewport() == old(self).viewport(),
                self.mode() == old(self).mode(),
                frustum@ == self.camera.frustum_planes(),
                forall|i: int|
                    0 <= i < self.cells@.len() ==> (#[trigger] self.cells@[i])@ == lights_of_cell(
                        shape,
                        lights@.take(next as int),
                        shape.dims.x_of(i),
                        shape.dims.y_of(i),
                        shape.dims.z_of(i),
                    ),
            decreases lights@.len() - next,
        {
            let light = lights[next];
            proof {
                assert(lights@.take(next + 1).drop_last() =~= lights@.take(next as int));
                assert(lights@.take(next + 1).last() == light);
            }
            match light.influence {
                Influence::AllClusters => {
                    push_everywhere(&mut self.cells, light.index);
                },
                Influence::Sphere(sphere) => {
                    if !frustum.is_outside(&BoundingVolume::Sphere(sphere)) {
                        let range = cells_of_sphere(&self.camera, &self.dims, &self.slices, &sphere);
                        push_range(&mut self.cells, &self.dims, &range, light.index);
                    }
                },
            }
            next += 1;
        }
        proof {
            assert(lights@.take(next as int) =~= lights@);
        }
    }

    /// The resolved number of cells along each axis.
    pub fn dimensions(&self) -> (dims: GridDimensions)
        ensures
            dims == self.dims(),
    {
        self.dims
    }

    /// The number of cells.
    pub fn cell_count(&self) -> (count: usize)
        ensures
            count == self.cells().len(),
    {
        self.cells.len()
    }

    /// The list of the cell at `index`.
    pub fn cell(&self, index: usize) -> (list: &Vec<u32>)
        requires
            index < self.cells().len(),
        ensures
            list@ == self.cells()[index as int],
    {
        &self.cells[index]
    }

    /// The list of cell `(x, y, z)`.
    pub fn cell_at(&self, x: u32, y: u32, z: u32) -> (list: &Vec<u32>)
        requires
            self.wf(),
            self.dims().has_cell(x as int, y as int, z as int),
        ensures
            list@ == self.cells()[self.dims().index_of(x as int, y as int, z as int)],
    {
        let index: usize = self.dims.cell_index(x, y, z);
        &self.cells[index]
    }

    /// The view that the grid divides.
    pub fn view_camera(&self) -> (camera: Camera)
        ensures
            camera == self.camera(),
    {
        self.camera
    }

    /// The layout that was asked for.
    pub fn layout(&self) -> (config: ClusterConfig)
        ensures
            config == self.config(),
    {
        self.config
    }

    /// The width and height of the viewport in pixels.
    pub fn viewport_size(&self) -> (size: (u32, u32))
        ensures
            size == self.viewport(),
    {
        (self.width, self.height)
    }

    /// The table of depth slices.
    pub fn depth_slices(&self) -> (slices: &DepthSlices)
        ensures
            *slices == self.slices(),
    {
        &self.slices
    }
}

/// Empties every list.
fn clear_lists(cells: &mut Vec<Vec<u32>>)
    ensures
        final(cells)@.len() == old(cells)@.len(),
        forall|i: int| 0 <= i < old(cells)@.len() ==> (#[trigger] final(cells)@[i])@.len() == 0,
{
    let mut i: usize = 0;
    while i < cells.len()
        invariant
            0 <= i <= cells@.len(),
            cells@.len() == old(cells)@.len(),
            forall|j: int| 0 <= j < i ==> (#[trigger] cells@[j])@.len() == 0,
        decreases cells@.len() - i,
    {
        cells[i].clear();
        i += 1;
    }
}

} // verus!
