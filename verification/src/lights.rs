//! The culling frusta of shadow-casting lights.
//!
//! A directional light has one frustum per cascade, the box of the
//! cascade.  A point light has six, one through each face of the cube
//! around it.  A spot light has one, a pyramid around its cone, in the
//! frame of the light: the light sits at the origin and shines along `+z`.

use vstd::prelude::*;
use crate::cascade::{Cascade, Cascades};
use crate::frustum::{
    box_planes,
    cube_face_planes,
    empty_planes,
    perspective_planes,
    CubeFace,
    Frustum,
};
use crate::geometry::{Vector3, Plane};

verus! {

/// The planes of the frustum of a cascade: the faces of its box, or planes
/// that hold nothing when the cascade is empty.
pub open spec fn cascade_planes(cascade: Cascade) -> Seq<Plane> {
    if cascade.is_empty() {
        empty_planes()
    } else {
        box_planes(
            cascade.min_x as int,
            cascade.max_x as int,
            cascade.min_y as int,
            cascade.max_y as int,
            cascade.min_z as int,
            cascade.max_z as int,
        )
    }
}

/// The faces of a cube in the order in which a point light lists its
/// frusta.
pub open spec fn cube_faces() -> Seq<CubeFace> {
    seq![
        CubeFace::PosX,
        CubeFace::NegX,
        CubeFace::PosY,
        CubeFace::NegY,
        CubeFace::PosZ,
        CubeFace::NegZ,
    ]
}

/// The planes of the frustum of a spot light whose outer cone angle has the
/// tangent `tan_num / tan_den` and which reaches as far as `range`: a
/// pyramid whose field of view is twice the cone angle.  A cone without
/// opening, or a tangent without denominator, gives planes that hold
/// nothing.
pub open spec fn spot_planes(tan_num: u16, tan_den: u16, range: u32) -> Seq<Plane> {
    if tan_num == 0 || tan_den == 0 {
        empty_planes()
    } else {
        perspective_planes(tan_num, tan_num, tan_den, 0, range)
    }
}

/// Builds the frustum of one cascade.
pub fn cascade_frustum(cascade: &Cascade) -> (frustum: Frustum)
    requires
        cascade.in_range(),
    ensures
        frustum@ == cascade_planes(*cascade),
        frustum.wf(),
{
    if cascade.texel_size == 0 {
        Frustum::empty()
    } else {
        Frustum::from_box(
            cascade.min_x,
            cascade.max_x,
            cascade.min_y,
            cascade.max_y,
            cascade.min_z,
            cascade.max_z,
        )
    }
}

/// Builds the frusta of a directional light, one per cascade.
pub fn directional_light_frusta(cascades: &Cascades) -> (frusta: Vec<Frustum>)
    requires
        cascades.wf(),
    ensures
        frusta@.len() == cascades@.len(),
        forall|i: int|
            0 <= i < frusta@.len() ==> (#[trigger] frusta@[i])@ == cascade_planes(cascades@[i])
                && frusta@[i].wf(),
{
    let list = cascades.as_vec();
    let mut frusta: Vec<Frustum> = Vec::new();
    let mut i: usize = 0;
    while i < list.len()
        invariant
            0 <= i <= list@.len(),
            list@ == cascades@,
            cascades.wf(),
            frusta@.len() == i,
            forall|j: int|
                0 <= j < i ==> (#[trigger] frusta@[j])@ == cascade_planes(cascades@[j])
                    && frusta@[j].wf(),
        decreases list@.len() - i,
    {
        assert(cascades@[i as int].in_range());
        frusta.push(cascade_frustum(&list[i]));
        i += 1;
    }
    frusta
}

/// Builds the six frusta of a point light at `center` that reaches as far
/// as `range`, in the order of [`cube_faces`].
pub fn point_light_frusta(center: &Vector3, range: u32) -> (frusta: Vec<Frustum>)
    ensures
        frusta@.len() == 6,
        forall|i: int|
            0 <= i < 6 ==> (#[trigger] frusta@[i])@ == cube_face_planes(
                *center,
                range,
                cube_faces()[i],
            ) && frusta@[i].wf(),
{
    let mut frusta: Vec<Frustum> = Vec::new();
    frusta.push(Frustum::cube_face(center, range, CubeFace::PosX));
    frusta.push(Frustum::cube_face(center, range, CubeFace::NegX));
    frusta.push(Frustum::cube_face(center, range, CubeFace::PosY));
    frusta.push(Frustum::cube_face(center, range, CubeFace::NegY));
    frusta.push(Frustum::cube_face(center, range, CubeFace::PosZ));
    frusta.push(Frustum::cube_face(center, range, CubeFace::NegZ));
    frusta
}

/// Builds the frustum of a spot light.
pub fn spot_light_frustum(tan_num: u16, tan_den: u16, range: u32) -> (frustum: Frustum)
    ensures
        frustum@ == spot_planes(tan_num, tan_den, range),
        frustum.wf(),
{
    if tan_num == 0 || tan_den == 0 {
        Frustum::empty()
    } else {
        Frustum::perspective(tan_num, tan_num, tan_den, 0, range)
    }
}

/// The frusta of a point light, kept with the position and range they were
/// built for so that they are never used for another.
#[derive(Debug)]
pub struct PointLightFrusta {
    center: Vector3,
    range: u32,
    faces: Vec<Frustum>,
}

impl PointLightFrusta {
    /// The position the frusta were built for.
    pub closed spec fn center(&self) -> Vector3 {
        self.center
    }

    /// The range the frusta were built for.
    pub closed spec fn range(&self) -> u32 {
        self.range
    }

    /// The planes of each of the six frusta.
    pub closed spec fn faces(&self) -> Seq<Seq<Plane>> {
        Seq::new(self.faces@.len(), |i: int| self.faces@[i]@)
    }

    /// The frusta are those of the position and range kept with them.
    pub open spec fn wf(&self) -> bool {
        &&& self.faces().len() == 6
        &&& forall|i: int|
            0 <= i < 6 ==> #[trigger] self.faces()[i] == cube_face_planes(
                self.center(),
                self.range(),
                cube_faces()[i],
            )
    }

    /// Builds the frusta of a light.
    pub fn new(center: Vector3, range: u32) -> (frusta: PointLightFrusta)
        ensures
            frusta.wf(),
            frusta.center() == center,
            frusta.range() == range,
    {
        let faces = point_light_frusta(&center, range);
        PointLightFrusta { center, range, faces }
    }

    /// Brings the frusta up to date with the light: they are built again
    /// when the light has moved or its range has changed, and only then.
    /// Returns whether they were built again.
    pub fn update(&mut self, center: Vector3, range: u32) -> (rebuilt: bool)
        requires
            old(self).wf(),
        ensures
            final(self).wf(),
            final(self).center() == center,
            final(self).range() == range,
            rebuilt == (old(self).center() != center || old(self).range() != range),
    {
        if self.center.x == center.x && self.center.y == center.y && self.center.z == center.z
            && self.range == range {
            false
        } else {
            self.faces = point_light_frusta(&center, range);
            self.center = center;
            self.range = range;
            true
        }
    }

    /// The six frusta, in the order of [`cube_faces`].
    pub fn frusta(&self) -> (faces: &Vec<Frustum>)
        ensures
            faces@.len() == self.faces().len(),
            forall|i: int| 0 <= i < faces@.len() ==> (#[trigger] faces@[i])@ == self.faces()[i],
    {
        &self.faces
    }
}

/// The frustum of a spot light, kept with the cone and range it was built
/// for so that it is never used for another.
#[derive(Debug)]
pub struct SpotLightFrustum {
    tan_num: u16,
    tan_den: u16,
    range: u32,
    frustum: Frustum,
}

impl SpotLightFrustum {
    /// The tangent of the outer cone angle, as numerator and denominator.
    pub closed spec fn tangent(&self) -> (u16, u16) {
        (self.tan_num, self.tan_den)
    }

    /// The range the frustum was built for.
    pub closed spec fn range(&self) -> u32 {
        self.range
    }

    /// The planes of the frustum.
    pub closed spec fn planes(&self) -> Seq<Plane> {
        self.frustum@
    }

    /// The frustum is that of the cone and range kept with it.
    pub open spec fn wf(&self) -> bool {
        self.planes() == spot_planes(self.tangent().0, self.tangent().1, self.range())
    }

    /// Builds the frustum of a light.
    pub fn new(tan_num: u16, tan_den: u16, range: u32) -> (kept: SpotLightFrustum)
        ensures
            kept.wf(),
            kept.tangent() == (tan_num, tan_den),
            kept.range() == range,
    {
        SpotLightFrustum {
            tan_num,
            tan_den,
            range,
            frustum: spot_light_frustum(tan_num, tan_den, range),
        }
    }

    /// Brings the frustum up to date with the light: it is built again
    /// when the cone or the range has changed, and only then.  Returns
    /// whether it was built again.
    pub fn update(&mut self, tan_num: u16, tan_den: u16, range: u32) -> (rebuilt: bool)
        requires
            old(self).wf(),
        ensures
            final(self).wf(),
            final(self).tangent() == (tan_num, tan_den),
            final(self).range() == range,
            rebuilt == (old(self).tangent() != (tan_num, tan_den) || old(self).range() != range),
    {
        if self.tan_num == tan_num && self.tan_den == tan_den && self.range == range {
            false
        } else {
            self.frustum = spot_light_frustum(tan_num, tan_den, range);
            self.tan_num = tan_num;
            self.tan_den = tan_den;
            self.range = range;
            true
        }
    }

    /// The frustum.
    pub fn frustum(&self) -> (frustum: &Frustum)
        ensures
            frustum@ == self.planes(),
    {
        &self.frustum
    }
}

} // verus!
