//! The view of a camera, in its own frame: the camera sits at the origin
//! and looks along `+z`, so the `z` coordinate of a point is its depth.

use vstd::prelude::*;
use crate::frustum::{box_planes, perspective_planes, Frustum};
use crate::geometry::Plane;

verus! {

/// How a camera maps its frame onto the screen.
#[derive(Clone, Copy, Debug, PartialEq, Eq, Structural)]
#[allow(inconsistent_fields)]
pub enum Projection {
    /// At depth `z` the view spans `|x| <= z * half_width / focal` and
    /// `|y| <= z * half_height / focal`.
    Perspective { half_width: u16, half_height: u16, focal: u16 },
    /// At every depth the view spans `|x| <= half_width` and
    /// `|y| <= half_height`.
    Orthographic { half_width: u32, half_height: u32 },
}

/// A projection with the depth range it shows.
#[derive(Clone, Copy, Debug)]
pub struct Camera {
    projection: Projection,
    near: u32,
    far: u32,
}

/// Whether a projection and a depth range make a camera: the depth range is
/// not empty, and a perspective view has a positive near depth and positive
/// extents.
pub open spec fn camera_valid(projection: Projection, near: u32, far: u32) -> bool {
    &&& near < far
    &&& projection matches Projection::Perspective { half_width, half_height, focal } ==> {
        &&& near >= 1
        &&& half_width >= 1
        &&& half_height >= 1
        &&& focal >= 1
    }
}

impl Camera {
    pub closed spec fn projection(&self) -> Projection {
        self.projection
    }

    pub closed spec fn near(&self) -> u32 {
        self.near
    }

    pub closed spec fn far(&self) -> u32 {
        self.far
    }

    /// Every camera is valid.
    pub open spec fn wf(&self) -> bool {
        camera_valid(self.projection(), self.near(), self.far())
    }

    /// Whether the camera has an orthographic projection.
    pub open spec fn is_orthographic(&self) -> bool {
        self.projection() is Orthographic
    }

    /// The planes of the view volume, in the camera's frame.
    /// Order: left, right, bottom, top, near, far.
    pub open spec fn frustum_planes(&self) -> Seq<Plane> {
        match self.projection() {
            Projection::Perspective { half_width, half_height, focal } => perspective_planes(
                half_width,
                half_height,
                focal,
                self.near(),
                self.far(),
            ),
            Projection::Orthographic { half_width, half_height } => box_planes(
                -half_width,
                half_width as int,
                -half_height,
                half_height as int,
                self.near() as int,
                self.far() as int,
            ),
        }
    }

    /// Makes a camera; `None` when the view would be degenerate.
    pub fn new(projection: Projection, near: u32, far: u32) -> (camera: Option<Camera>)
        ensures
            camera is Some <==> camera_valid(projection, near, far),
            camera matches Some(c) ==> {
                &&& c.wf()
                &&& c.projection() == projection
                &&& c.near() == near
                &&& c.far() == far
            },
    {
        if near >= far {
            return None;
        }
        match projection {
            Projection::Perspective { half_width, half_height, focal } => {
                if near < 1 || half_width < 1 || half_height < 1 || focal < 1 {
                    return None;
                }
            },
            Projection::Orthographic { .. } => {},
        }
        Some(Camera { projection, near, far })
    }

    pub fn get_projection(&self) -> (projection: Projection)
        ensures
            projection == self.projection(),
    {
        self.projection
    }

    pub fn near_depth(&self) -> (near: u32)
        ensures
            near == self.near(),
    {
        self.near
    }

    pub fn far_depth(&self) -> (far: u32)
        ensures
            far == self.far(),
    {
        self.far
    }

    /// Whether two cameras show the same view.
    pub fn same_as(&self, other: &Camera) -> (same: bool)
        ensures
            same == (*self == *other),
    {
        self.projection == other.projection && self.near == other.near && self.far == other.far
    }

    /// Builds the culling frustum of the view.
    pub fn frustum(&self) -> (frustum: Frustum)
        ensures
            frustum@ == self.frustum_planes(),
            frustum.wf(),
    {
        match self.projection {
            Projection::Perspective { half_width, half_height, focal } => Frustum::perspective(
                half_width,
                half_height,
                focal,
                self.near,
                self.far,
            ),
            Projection::Orthographic { half_width, half_height } => Frustum::from_box(
                -(half_width as i64),
                half_width as i64,
                -(half_height as i64),
                half_height as i64,
                self.near as i64,
                self.far as i64,
            ),
        }
    }
}

} // verus!
