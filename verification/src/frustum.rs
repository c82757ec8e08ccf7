//! Culling volumes: an ordered list of half-spaces, and the frusta of
//! cameras and lights built from integer parameters.

use vstd::prelude::*;
use crate::geometry::{Aabb, BoundingVolume, Vector3, Plane, Sphere};

verus! {

/// The intersection of six or more half-spaces.
#[derive(Clone, Debug)]
pub struct Frustum {
    planes: Vec<Plane>,
}

impl View for Frustum {
    type V = Seq<Plane>;

    closed spec fn view(&self) -> Seq<Plane> {
        self.planes@
    }
}

/// One face of the cube around a point light.
#[derive(Clone, Copy, Debug, PartialEq, Eq, Structural)]
pub enum CubeFace {
    PosX,
    NegX,
    PosY,
    NegY,
    PosZ,
    NegZ,
}

impl CubeFace {
    /// The unit vector through the middle of the face.
    pub open spec fn forward(self) -> Vector3 {
        match self {
            CubeFace::PosX => vector_of(1, 0, 0),
            CubeFace::NegX => vector_of(-1, 0, 0),
            CubeFace::PosY => vector_of(0, 1, 0),
            CubeFace::NegY => vector_of(0, -1, 0),
            CubeFace::PosZ => vector_of(0, 0, 1),
            CubeFace::NegZ => vector_of(0, 0, -1),
        }
    }

    /// The first unit vector across the face.
    pub open spec fn side_a(self) -> Vector3 {
        match self {
            CubeFace::PosX | CubeFace::NegX => vector_of(0, 1, 0),
            CubeFace::PosY | CubeFace::NegY => vector_of(0, 0, 1),
            CubeFace::PosZ | CubeFace::NegZ => vector_of(1, 0, 0),
        }
    }

    /// The second unit vector across the face.
    pub open spec fn side_b(self) -> Vector3 {
        match self {
            CubeFace::PosX | CubeFace::NegX => vector_of(0, 0, 1),
            CubeFace::PosY | CubeFace::NegY => vector_of(1, 0, 0),
            CubeFace::PosZ | CubeFace::NegZ => vector_of(0, 1, 0),
        }
    }

    fn forward_vector(&self) -> (v: Vector3)
        ensures
            v == self.forward(),
    {
        match self {
            CubeFace::PosX => Vector3 { x: 1, y: 0, z: 0 },
            CubeFace::NegX => Vector3 { x: -1, y: 0, z: 0 },
            CubeFace::PosY => Vector3 { x: 0, y: 1, z: 0 },
            CubeFace::NegY => Vector3 { x: 0, y: -1, z: 0 },
            CubeFace::PosZ => Vector3 { x: 0, y: 0, z: 1 },
            CubeFace::NegZ => Vector3 { x: 0, y: 0, z: -1 },
        }
    }

    fn side_a_vector(&self) -> (v: Vector3)
        ensures
            v == self.side_a(),
    {
        match self {
            CubeFace::PosX | CubeFace::NegX => Vector3 { x: 0, y: 1, z: 0 },
            CubeFace::PosY | CubeFace::NegY => Vector3 { x: 0, y: 0, z: 1 },
            CubeFace::PosZ | CubeFace::NegZ => Vector3 { x: 1, y: 0, z: 0 },
        }
    }

    fn side_b_vector(&self) -> (v: Vector3)
        ensures
            v == self.side_b(),
    {
        match self {
            CubeFace::PosX | CubeFace::NegX => Vector3 { x: 0, y: 0, z: 1 },
            CubeFace::PosY | CubeFace::NegY => Vector3 { x: 1, y: 0, z: 0 },
            CubeFace::PosZ | CubeFace::NegZ => Vector3 { x: 0, y: 1, z: 0 },
        }
    }
}

/// One row of a projection matrix.
#[derive(Clone, Copy, Debug, PartialEq, Eq, Structural)]
pub struct Row4 {
    pub x: i32,
    pub y: i32,
    pub z: i32,
    pub w: i32,
}

/// A matrix that takes a point `p` to the clip coordinates
/// `(x . p, y . p, z . p, w . p)`, where each row is applied to
/// `(p.x, p.y, p.z, 1)`.
#[derive(Clone, Copy, Debug, PartialEq, Eq, Structural)]
pub struct ProjectionMatrix {
    pub x: Row4,
    pub y: Row4,
    pub z: Row4,
    pub w: Row4,
}

impl Row4 {
    /// The row applied to `(p.x, p.y, p.z, 1)`.
    pub open spec fn applied(self, p: Vector3) -> int {
        self.x * p.x + self.y * p.y + self.z * p.z + self.w
    }
}

/// The plane on whose inner side `a . p + sign * (b . p) >= 0`, for `sign`
/// one or minus one.
pub open spec fn combined_plane(a: Row4, b: Row4, sign: int) -> Plane {
    plane_of(a.x + sign * b.x, a.y + sign * b.y, a.z + sign * b.z, a.w + sign * b.w)
}

/// Whether the coefficients of `a . p + sign * (b . p)` are 32-bit numbers.
pub open spec fn combination_fits(a: Row4, b: Row4, sign: int) -> bool {
    &&& i32::MIN <= a.x + sign * b.x <= i32::MAX
    &&& i32::MIN <= a.y + sign * b.y <= i32::MAX
    &&& i32::MIN <= a.z + sign * b.z <= i32::MAX
}

/// Whether the planes of the view volume of a matrix can be written down
/// with 32-bit normals.
pub open spec fn matrix_fits(m: ProjectionMatrix) -> bool {
    &&& combination_fits(m.w, m.x, 1)
    &&& combination_fits(m.w, m.x, -1)
    &&& combination_fits(m.w, m.y, 1)
    &&& combination_fits(m.w, m.y, -1)
    &&& combination_fits(m.w, m.z, -1)
}

/// The six planes of the view volume of a projection matrix: the points
/// whose clip coordinates satisfy `-w <= x <= w`, `-w <= y <= w` and
/// `0 <= z <= w`.  Order: left, right, bottom, top, near, far.
pub open spec fn matrix_planes(m: ProjectionMatrix) -> Seq<Plane> {
    seq![
        combined_plane(m.w, m.x, 1),
        combined_plane(m.w, m.x, -1),
        combined_plane(m.w, m.y, 1),
        combined_plane(m.w, m.y, -1),
        plane_of(m.z.x as int, m.z.y as int, m.z.z as int, m.z.w as int),
        combined_plane(m.w, m.z, -1),
    ]
}

/// The plane `x * p.x + y * p.y + z * p.z + d >= 0`.
pub open spec fn plane_of(x: int, y: int, z: int, d: int) -> Plane {
    Plane { normal: Vector3 { x: x as i32, y: y as i32, z: z as i32 }, d: d as i64 }
}

/// The vector with the given coordinates.
pub open spec fn vector_of(x: int, y: int, z: int) -> Vector3 {
    Vector3 { x: x as i32, y: y as i32, z: z as i32 }
}

/// The plane with the given normal on which the points `p` with
/// `normal . (p - origin) + lift == 0` lie.
pub open spec fn plane_about(normal: Vector3, origin: Vector3, lift: int) -> Plane {
    Plane { normal, d: (lift - normal.dot_product(origin)) as i64 }
}

/// The six planes of a symmetric perspective frustum that looks along `+z`
/// from the origin.  At depth `z` it spans `|x| <= z * half_width / focal`
/// and `|y| <= z * half_height / focal`; in depth it spans `[near, far]`.
/// Order: left, right, bottom, top, near, far.
pub open spec fn perspective_planes(
    half_width: u16,
    half_height: u16,
    focal: u16,
    near: u32,
    far: u32,
) -> Seq<Plane> {
    seq![
        plane_of(focal as int, 0, half_width as int, 0),
        plane_of(-focal, 0, half_width as int, 0),
        plane_of(0, focal as int, half_height as int, 0),
        plane_of(0, -focal, half_height as int, 0),
        plane_of(0, 0, 1, -near),
        plane_of(0, 0, -1, far as int),
    ]
}

/// The six planes of the box `[min_x, max_x] x [min_y, max_y] x [min_z, max_z]`.
/// Order: left, right, bottom, top, near, far.
pub open spec fn box_planes(
    min_x: int,
    max_x: int,
    min_y: int,
    max_y: int,
    min_z: int,
    max_z: int,
) -> Seq<Plane> {
    seq![
        plane_of(1, 0, 0, -min_x),
        plane_of(-1, 0, 0, max_x),
        plane_of(0, 1, 0, -min_y),
        plane_of(0, -1, 0, max_y),
        plane_of(0, 0, 1, -min_z),
        plane_of(0, 0, -1, max_z),
    ]
}

/// The six planes of an axis-aligned box.
pub open spec fn orthographic_planes(bounds: Aabb) -> Seq<Plane> {
    box_planes(
        bounds.min.x as int,
        bounds.max.x as int,
        bounds.min.y as int,
        bounds.max.y as int,
        bounds.min.z as int,
        bounds.max.z as int,
    )
}

/// The difference of two of the unit vectors of a cube face.
pub open spec fn vector_sub(a: Vector3, b: Vector3) -> Vector3 {
    Vector3 { x: (a.x - b.x) as i32, y: (a.y - b.y) as i32, z: (a.z - b.z) as i32 }
}

/// The sum of two of the unit vectors of a cube face.
pub open spec fn vector_add(a: Vector3, b: Vector3) -> Vector3 {
    Vector3 { x: (a.x + b.x) as i32, y: (a.y + b.y) as i32, z: (a.z + b.z) as i32 }
}

/// The six planes of the quarter-turn frustum that looks from `center`
/// through one face of the cube around it, as far as `range`.
/// Order: the two sides across `side_a`, the two across `side_b`, near, far.
pub open spec fn cube_face_planes(center: Vector3, range: u32, face: CubeFace) -> Seq<Plane> {
    let f = face.forward();
    let a = face.side_a();
    let b = face.side_b();
    seq![
        plane_about(vector_add(f, a), center, 0),
        plane_about(vector_sub(f, a), center, 0),
        plane_about(vector_add(f, b), center, 0),
        plane_about(vector_sub(f, b), center, 0),
        plane_about(f, center, 0),
        plane_about(vector_sub(vector_of(0, 0, 0), f), center, range as int),
    ]
}

/// Six planes that no point satisfies.
pub open spec fn empty_planes() -> Seq<Plane> {
    Seq::new(6, |i: int| plane_of(0, 0, 0, -1))
}

/// Whether `p` is in every one of the half-spaces.
pub open spec fn planes_contain(planes: Seq<Plane>, p: Vector3) -> bool {
    forall|i: int| 0 <= i < planes.len() ==> (#[trigger] planes[i]).contains_point(p)
}

/// Whether some single plane has the whole volume strictly outside it.
pub open spec fn planes_exclude(planes: Seq<Plane>, volume: BoundingVolume) -> bool {
    exists|i: int| 0 <= i < planes.len() && (#[trigger] planes[i]).volume_outside(volume)
}

impl Frustum {
    /// A frustum has at least six planes.
    pub open spec fn wf(self) -> bool {
        self@.len() >= 6
    }

    /// Whether `p` is in every half-space.
    pub open spec fn contains_point(self, p: Vector3) -> bool {
        planes_contain(self@, p)
    }

    /// Whether some single plane has the whole volume strictly outside it.
    pub open spec fn excludes(self, volume: BoundingVolume) -> bool {
        planes_exclude(self@, volume)
    }

    /// A volume is visible when no single plane has it wholly outside.
    pub open spec fn intersects(self, volume: BoundingVolume) -> bool {
        !self.excludes(volume)
    }

    /// Builds a frustum from its planes; `None` when there are fewer than
    /// six.
    pub fn from_planes(planes: Vec<Plane>) -> (frustum: Option<Frustum>)
        ensures
            frustum is Some <==> planes@.len() >= 6,
            frustum matches Some(f) ==> f@ == planes@ && f.wf(),
    {
        if planes.len() >= 6 {
            Some(Frustum { planes })
        } else {
            None
        }
    }

    /// The planes in order.
    pub fn planes(&self) -> (planes: &Vec<Plane>)
        ensures
            planes@ == self@,
    {
        &self.planes
    }

    /// The frustum that contains nothing.
    pub fn empty() -> (frustum: Frustum)
        ensures
            frustum@ == empty_planes(),
            frustum.wf(),
    {
        let nothing = Plane { normal: Vector3 { x: 0, y: 0, z: 0 }, d: -1 };
        let planes = vec![nothing, nothing, nothing, nothing, nothing, nothing];
        assert(planes@ =~= empty_planes());
        Frustum { planes }
    }

    /// The symmetric perspective frustum of [`perspective_planes`].
    pub fn perspective(half_width: u16, half_height: u16, focal: u16, near: u32, far: u32) -> (frustum: Frustum)
        ensures
            frustum@ == perspective_planes(half_width, half_height, focal, near, far),
            frustum.wf(),
    {
        let f: i32 = focal as i32;
        let w: i32 = half_width as i32;
        let h: i32 = half_height as i32;
        let left = Plane { normal: Vector3 { x: f, y: 0, z: w }, d: 0 };
        let right = Plane { normal: Vector3 { x: -f, y: 0, z: w }, d: 0 };
        let bottom = Plane { normal: Vector3 { x: 0, y: f, z: h }, d: 0 };
        let top = Plane { normal: Vector3 { x: 0, y: -f, z: h }, d: 0 };
        let front = Plane { normal: Vector3 { x: 0, y: 0, z: 1 }, d: -(near as i64) };
        let back = Plane { normal: Vector3 { x: 0, y: 0, z: -1 }, d: far as i64 };
        let planes = vec![left, right, bottom, top, front, back];
        assert(planes@ =~= perspective_planes(half_width, half_height, focal, near, far));
        Frustum { planes }
    }

    /// The view volume of a projection matrix, by [`matrix_planes`]; `None`
    /// when a plane would need a normal beyond 32 bits.
    pub fn from_view_projection(m: &ProjectionMatrix) -> (frustum: Option<Frustum>)
        ensures
            frustum is Some <==> matrix_fits(*m),
            frustum matches Some(f) ==> f@ == matrix_planes(*m) && f.wf(),
    {
        let left = combine(&m.w, &m.x, false);
        let right = combine(&m.w, &m.x, true);
        let bottom = combine(&m.w, &m.y, false);
        let top = combine(&m.w, &m.y, true);
        let back = combine(&m.w, &m.z, true);
        match (left, right, bottom, top, back) {
            (Some(left), Some(right), Some(bottom), Some(top), Some(back)) => {
                let front = Plane {
                    normal: Vector3 { x: m.z.x, y: m.z.y, z: m.z.z },
                    d: m.z.w as i64,
                };
                let planes = vec![left, right, bottom, top, front, back];
                assert(planes@ =~= matrix_planes(*m));
                Some(Frustum { planes })
            },
            _ => None,
        }
    }

    /// The box-shaped frustum of [`orthographic_planes`].
    pub fn orthographic(bounds: &Aabb) -> (frustum: Frustum)
        ensures
            frustum@ == orthographic_planes(*bounds),
            frustum.wf(),
    {
        Frustum::from_box(
            bounds.min.x as i64,
            bounds.max.x as i64,
            bounds.min.y as i64,
            bounds.max.y as i64,
            bounds.min.z as i64,
            bounds.max.z as i64,
        )
    }

    /// The box-shaped frustum of [`box_planes`].
    pub fn from_box(
        min_x: i64,
        max_x: i64,
        min_y: i64,
        max_y: i64,
        min_z: i64,
        max_z: i64,
    ) -> (frustum: Frustum)
        requires
            min_x > i64::MIN,
            min_y > i64::MIN,
            min_z > i64::MIN,
        ensures
            frustum@ == box_planes(
                min_x as int,
                max_x as int,
                min_y as int,
                max_y as int,
                min_z as int,
                max_z as int,
            ),
            frustum.wf(),
    {
        let left = Plane { normal: Vector3 { x: 1, y: 0, z: 0 }, d: -min_x };
        let right = Plane { normal: Vector3 { x: -1, y: 0, z: 0 }, d: max_x };
        let bottom = Plane { normal: Vector3 { x: 0, y: 1, z: 0 }, d: -min_y };
        let top = Plane { normal: Vector3 { x: 0, y: -1, z: 0 }, d: max_y };
        let front = Plane { normal: Vector3 { x: 0, y: 0, z: 1 }, d: -min_z };
        let back = Plane { normal: Vector3 { x: 0, y: 0, z: -1 }, d: max_z };
        let planes = vec![left, right, bottom, top, front, back];
        assert(planes@ =~= box_planes(
            min_x as int,
            max_x as int,
            min_y as int,
            max_y as int,
            min_z as int,
            max_z as int,
        ));
        Frustum { planes }
    }

    /// The frustum of [`cube_face_planes`].
    pub fn cube_face(center: &Vector3, range: u32, face: CubeFace) -> (frustum: Frustum)
        ensures
            frustum@ == cube_face_planes(*center, range, face),
            frustum.wf(),
    {
        let f = face.forward_vector();
        let a = face.side_a_vector();
        let b = face.side_b_vector();
        let side_a_low = plane_through(Vector3 { x: f.x + a.x, y: f.y + a.y, z: f.z + a.z }, center, 0);
        let side_a_high = plane_through(Vector3 { x: f.x - a.x, y: f.y - a.y, z: f.z - a.z }, center, 0);
        let side_b_low = plane_through(Vector3 { x: f.x + b.x, y: f.y + b.y, z: f.z + b.z }, center, 0);
        let side_b_high = plane_through(Vector3 { x: f.x - b.x, y: f.y - b.y, z: f.z - b.z }, center, 0);
        let front = plane_through(f, center, 0);
        let back = plane_through(Vector3 { x: -f.x, y: -f.y, z: -f.z }, center, range);
        let planes = vec![side_a_low, side_a_high, side_b_low, side_b_high, front, back];
        assert(planes@ =~= cube_face_planes(*center, range, face));
        Frustum { planes }
    }

    /// Tests whether `p` is inside the frustum.
    pub fn has_point(&self, p: &Vector3) -> (inside: bool)
        ensures
            inside == self.contains_point(*p),
    {
        let mut i: usize = 0;
        while i < self.planes.len()
            invariant
                i <= self.planes.len(),
                forall|j: int| 0 <= j < i ==> (#[trigger] self@[j]).contains_point(*p),
            decreases self.planes.len() - i,
        {
            if !self.planes[i].has_point(p) {
                assert(!self@[i as int].contains_point(*p));
                return false;
            }
            i += 1;
        }
        true
    }

    /// Tests whether some plane has the whole volume outside it.
    pub fn is_outside(&self, volume: &BoundingVolume) -> (outside: bool)
        ensures
            outside == self.excludes(*volume),
    {
        let mut i: usize = 0;
        while i < self.planes.len()
            invariant
                i <= self.planes.len(),
                forall|j: int| 0 <= j < i ==> !(#[trigger] self@[j]).volume_outside(*volume),
            decreases self.planes.len() - i,
        {
            if self.planes[i].is_volume_outside(volume) {
                assert(self@[i as int].volume_outside(*volume));
                return true;
            }
            i += 1;
        }
        false
    }

    /// Tests whether the volume is visible in the frustum.
    pub fn intersects_volume(&self, volume: &BoundingVolume) -> (visible: bool)
        ensures
            visible == self.intersects(*volume),
    {
        !self.is_outside(volume)
    }

    /// Tests whether the ball is visible in the frustum.
    pub fn intersects_sphere(&self, sphere: &Sphere) -> (visible: bool)
        ensures
            visible == self.intersects(BoundingVolume::Sphere(*sphere)),
    {
        !self.is_outside(&BoundingVolume::Sphere(*sphere))
    }
}

/// Builds the plane of [`plane_about`] for a normal whose coordinates are
/// `-1`, `0` or `1`.
fn plane_through(normal: Vector3, origin: &Vector3, lift: u32) -> (plane: Plane)
    requires
        -1 <= normal.x <= 1,
        -1 <= normal.y <= 1,
        -1 <= normal.z <= 1,
    ensures
        plane == plane_about(normal, *origin, lift as int),
{
    let dot: i128 = normal.dot(origin);
    assert(-0x1_8000_0000 <= normal.dot_product(*origin) <= 0x1_8000_0000) by (nonlinear_arith)
        requires
            -1 <= normal.x <= 1,
            -1 <= normal.y <= 1,
            -1 <= normal.z <= 1,
            -0x8000_0000 <= origin.x <= 0x7fff_ffff,
            -0x8000_0000 <= origin.y <= 0x7fff_ffff,
            -0x8000_0000 <= origin.z <= 0x7fff_ffff,
            normal.dot_product(*origin) == normal.x * origin.x + normal.y * origin.y + normal.z
                * origin.z,
    ;
    Plane { normal, d: ((lift as i128) - dot) as i64 }
}

/// How far `p` lies from `origin` along a unit vector of a cube face.
pub open spec fn offset_along(axis: Vector3, origin: Vector3, p: Vector3) -> int {
    axis.dot_product(p) - axis.dot_product(origin)
}

/// The height of a point over a plane written out by its coefficients.
pub proof fn lemma_height_of(x: int, y: int, z: int, d: int, p: Vector3)
    requires
        i32::MIN <= x <= i32::MAX,
        i32::MIN <= y <= i32::MAX,
        i32::MIN <= z <= i32::MAX,
        i64::MIN <= d <= i64::MAX,
    ensures
        plane_of(x, y, z, d).height(p) == x * p.x + y * p.y + z * p.z + d,
{
}

/// The height of a point over a plane about an origin is the offset of the
/// point from the origin along the normal, plus the lift.
proof fn lemma_height_about(normal: Vector3, origin: Vector3, lift: int, p: Vector3)
    requires
        -1 <= normal.x <= 1,
        -1 <= normal.y <= 1,
        -1 <= normal.z <= 1,
        0 <= lift <= u32::MAX,
    ensures
        plane_about(normal, origin, lift).height(p) == offset_along(normal, origin, p) + lift,
{
    assert(-0x1_8000_0000 <= normal.dot_product(origin) <= 0x1_8000_0000) by (nonlinear_arith)
        requires
            -1 <= normal.x <= 1,
            -1 <= normal.y <= 1,
            -1 <= normal.z <= 1,
            -0x8000_0000 <= origin.x <= 0x7fff_ffff,
            -0x8000_0000 <= origin.y <= 0x7fff_ffff,
            -0x8000_0000 <= origin.z <= 0x7fff_ffff,
            normal.dot_product(origin) == normal.x * origin.x + normal.y * origin.y + normal.z
                * origin.z,
    ;
}

/// The offset along the sum or difference of two unit vectors of a cube
/// face is the sum or difference of the offsets along each.
proof fn lemma_offset_along_sum(f: Vector3, a: Vector3, origin: Vector3, p: Vector3)
    requires
        -1 <= f.x + a.x <= 1 && -1 <= f.x - a.x <= 1,
        -1 <= f.y + a.y <= 1 && -1 <= f.y - a.y <= 1,
        -1 <= f.z + a.z <= 1 && -1 <= f.z - a.z <= 1,
    ensures
        offset_along(vector_add(f, a), origin, p) == offset_along(f, origin, p) + offset_along(
            a,
            origin,
            p,
        ),
        offset_along(vector_sub(f, a), origin, p) == offset_along(f, origin, p) - offset_along(
            a,
            origin,
            p,
        ),
{
    assert((f.x + a.x) * p.x == f.x * p.x + a.x * p.x) by (nonlinear_arith);
    assert((f.y + a.y) * p.y == f.y * p.y + a.y * p.y) by (nonlinear_arith);
    assert((f.z + a.z) * p.z == f.z * p.z + a.z * p.z) by (nonlinear_arith);
    assert((f.x + a.x) * origin.x == f.x * origin.x + a.x * origin.x) by (nonlinear_arith);
    assert((f.y + a.y) * origin.y == f.y * origin.y + a.y * origin.y) by (nonlinear_arith);
    assert((f.z + a.z) * origin.z == f.z * origin.z + a.z * origin.z) by (nonlinear_arith);
    assert((f.x - a.x) * p.x == f.x * p.x - a.x * p.x) by (nonlinear_arith);
    assert((f.y - a.y) * p.y == f.y * p.y - a.y * p.y) by (nonlinear_arith);
    assert((f.z - a.z) * p.z == f.z * p.z - a.z * p.z) by (nonlinear_arith);
    assert((f.x - a.x) * origin.x == f.x * origin.x - a.x * origin.x) by (nonlinear_arith);
    assert((f.y - a.y) * origin.y == f.y * origin.y - a.y * origin.y) by (nonlinear_arith);
    assert((f.z - a.z) * origin.z == f.z * origin.z - a.z * origin.z) by (nonlinear_arith);
}

/// The empty frustum holds no point and excludes every volume.
pub proof fn lemma_empty_planes_hold_nothing(p: Vector3, volume: BoundingVolume)
    ensures
        !planes_contain(empty_planes(), p),
        planes_exclude(empty_planes(), volume),
{
    let plane = empty_planes()[0];
    assert(plane == plane_of(0, 0, 0, -1));
    lemma_height_of(0, 0, 0, -1, p);
    assert(plane.height(p) == -1);
    assert(!plane.contains_point(p));
    match volume {
        BoundingVolume::Sphere(sphere) => {
            lemma_height_of(0, 0, 0, -1, sphere.center);
            assert(plane.height(sphere.center) == -1);
            assert(sphere.radius * sphere.radius * 0 == 0);
            assert(plane.normal.norm_squared() == 0);
            assert(plane.sphere_outside(sphere));
        },
        BoundingVolume::Aabb(aabb) => {
            lemma_height_of(0, 0, 0, -1, aabb.support(plane.normal));
            assert(plane.height(aabb.support(plane.normal)) == -1);
        },
        BoundingVolume::OrientedBox(oriented) => {
            lemma_height_of(0, 0, 0, -1, oriented.center);
            assert(plane.height(oriented.center) == -1);
            assert(oriented.reach(plane.normal) == 0);
        },
    }
    assert(plane.volume_outside(volume));
}

/// A perspective frustum holds the points between its near and far depth
/// whose offset from the axis is at most the depth times the slope of the
/// view.
pub proof fn lemma_perspective_planes_contain(
    half_width: u16,
    half_height: u16,
    focal: u16,
    near: u32,
    far: u32,
    p: Vector3,
)
    ensures
        planes_contain(perspective_planes(half_width, half_height, focal, near, far), p) <==> {
            &&& near <= p.z <= far
            &&& -(half_width * p.z) <= focal * p.x <= half_width * p.z
            &&& -(half_height * p.z) <= focal * p.y <= half_height * p.z
        },
{
    let planes = perspective_planes(half_width, half_height, focal, near, far);
    let inside = {
        &&& near <= p.z <= far
        &&& -(half_width * p.z) <= focal * p.x <= half_width * p.z
        &&& -(half_height * p.z) <= focal * p.y <= half_height * p.z
    };
    lemma_height_of(focal as int, 0, half_width as int, 0, p);
    lemma_height_of(-focal, 0, half_width as int, 0, p);
    lemma_height_of(0, focal as int, half_height as int, 0, p);
    lemma_height_of(0, -focal, half_height as int, 0, p);
    lemma_height_of(0, 0, 1, -near, p);
    lemma_height_of(0, 0, -1, far as int, p);
    assert(planes[0].height(p) == focal * p.x + half_width * p.z);
    assert(planes[1].height(p) == (-focal) * p.x + half_width * p.z);
    assert((-focal) * p.x == -(focal * p.x)) by (nonlinear_arith);
    assert(planes[2].height(p) == focal * p.y + half_height * p.z);
    assert(planes[3].height(p) == (-focal) * p.y + half_height * p.z);
    assert((-focal) * p.y == -(focal * p.y)) by (nonlinear_arith);
    assert(planes[4].height(p) == p.z - near);
    assert(planes[5].height(p) == far - p.z);
    if planes_contain(planes, p) {
        assert(planes[0].contains_point(p));
        assert(planes[1].contains_point(p));
        assert(planes[2].contains_point(p));
        assert(planes[3].contains_point(p));
        assert(planes[4].contains_point(p));
        assert(planes[5].contains_point(p));
    }
    if inside {
        assert forall|i: int| 0 <= i < planes.len() implies (#[trigger] planes[i]).contains_point(
            p,
        ) by {
            assert(i == 0 || i == 1 || i == 2 || i == 3 || i == 4 || i == 5);
        }
    }
}

/// A box frustum holds exactly the points of the box.
pub proof fn lemma_box_planes_contain(
    min_x: i64,
    max_x: i64,
    min_y: i64,
    max_y: i64,
    min_z: i64,
    max_z: i64,
    p: Vector3,
)
    requires
        min_x > i64::MIN,
        min_y > i64::MIN,
        min_z > i64::MIN,
    ensures
        planes_contain(
            box_planes(
                min_x as int,
                max_x as int,
                min_y as int,
                max_y as int,
                min_z as int,
                max_z as int,
            ),
            p,
        ) <==> {
            &&& min_x <= p.x <= max_x
            &&& min_y <= p.y <= max_y
            &&& min_z <= p.z <= max_z
        },
{
    let planes = box_planes(
        min_x as int,
        max_x as int,
        min_y as int,
        max_y as int,
        min_z as int,
        max_z as int,
    );
    let inside = {
        &&& min_x <= p.x <= max_x
        &&& min_y <= p.y <= max_y
        &&& min_z <= p.z <= max_z
    };
    lemma_height_of(1, 0, 0, -min_x, p);
    lemma_height_of(-1, 0, 0, max_x as int, p);
    lemma_height_of(0, 1, 0, -min_y, p);
    lemma_height_of(0, -1, 0, max_y as int, p);
    lemma_height_of(0, 0, 1, -min_z, p);
    lemma_height_of(0, 0, -1, max_z as int, p);
    assert(planes[0].height(p) == p.x - min_x);
    assert(planes[1].height(p) == max_x - p.x);
    assert(planes[2].height(p) == p.y - min_y);
    assert(planes[3].height(p) == max_y - p.y);
    assert(planes[4].height(p) == p.z - min_z);
    assert(planes[5].height(p) == max_z - p.z);
    if planes_contain(planes, p) {
        assert(planes[0].contains_point(p));
        assert(planes[1].contains_point(p));
        assert(planes[2].contains_point(p));
        assert(planes[3].contains_point(p));
        assert(planes[4].contains_point(p));
        assert(planes[5].contains_point(p));
    }
    if inside {
        assert forall|i: int| 0 <= i < planes.len() implies (#[trigger] planes[i]).contains_point(
            p,
        ) by {
            assert(i == 0 || i == 1 || i == 2 || i == 3 || i == 4 || i == 5);
        }
    }
}

/// The frustum through a cube face holds the points that lie ahead of the
/// light, no farther ahead than its range, and no farther to either side
/// than they lie ahead: a quarter turn wide and high.
pub proof fn lemma_cube_face_planes_contain(center: Vector3, range: u32, face: CubeFace, p: Vector3)
    ensures
        planes_contain(cube_face_planes(center, range, face), p) <==> {
            let ahead = offset_along(face.forward(), center, p);
            let aside = offset_along(face.side_a(), center, p);
            let above = offset_along(face.side_b(), center, p);
            &&& 0 <= ahead <= range
            &&& -ahead <= aside <= ahead
            &&& -ahead <= above <= ahead
        },
{
    let planes = cube_face_planes(center, range, face);
    let f = face.forward();
    let a = face.side_a();
    let b = face.side_b();
    let ahead = offset_along(f, center, p);
    let aside = offset_along(a, center, p);
    let above = offset_along(b, center, p);
    let inside = {
        &&& 0 <= ahead <= range
        &&& -ahead <= aside <= ahead
        &&& -ahead <= above <= ahead
    };
    let back = vector_sub(vector_of(0, 0, 0), f);
    lemma_offset_along_sum(f, a, center, p);
    lemma_offset_along_sum(f, b, center, p);
    lemma_offset_along_sum(vector_of(0, 0, 0), f, center, p);
    lemma_height_about(vector_add(f, a), center, 0, p);
    lemma_height_about(vector_sub(f, a), center, 0, p);
    lemma_height_about(vector_add(f, b), center, 0, p);
    lemma_height_about(vector_sub(f, b), center, 0, p);
    lemma_height_about(f, center, 0, p);
    lemma_height_about(back, center, range as int, p);
    assert(offset_along(vector_of(0, 0, 0), center, p) == 0);
    assert(planes[0].height(p) == ahead + aside);
    assert(planes[1].height(p) == ahead - aside);
    assert(planes[2].height(p) == ahead + above);
    assert(planes[3].height(p) == ahead - above);
    assert(planes[4].height(p) == ahead);
    assert(planes[5].height(p) == range - ahead);
    if planes_contain(planes, p) {
        assert(planes[0].contains_point(p));
        assert(planes[1].contains_point(p));
        assert(planes[2].contains_point(p));
        assert(planes[3].contains_point(p));
        assert(planes[4].contains_point(p));
        assert(planes[5].contains_point(p));
    }
    if inside {
        assert forall|i: int| 0 <= i < planes.len() implies (#[trigger] planes[i]).contains_point(
            p,
        ) by {
            assert(i == 0 || i == 1 || i == 2 || i == 3 || i == 4 || i == 5);
        }
    }
}

/// Builds the plane of [`combined_plane`], with `sign` minus one when
/// `negate` is set and one otherwise; `None` when its normal does not fit.
fn combine(a: &Row4, b: &Row4, negate: bool) -> (plane: Option<Plane>)
    ensures
        plane is Some <==> combination_fits(*a, *b, if negate { -1int } else { 1int }),
        plane matches Some(p) ==> p == combined_plane(*a, *b, if negate { -1int } else { 1int }),
{
    let sign: i64 = if negate { -1 } else { 1 };
    assert(sign * b.x == if negate { -b.x } else { b.x as int }) by (nonlinear_arith)
        requires
            sign == if negate { -1int } else { 1int },
    ;
    assert(sign * b.y == if negate { -b.y } else { b.y as int }) by (nonlinear_arith)
        requires
            sign == if negate { -1int } else { 1int },
    ;
    assert(sign * b.z == if negate { -b.z } else { b.z as int }) by (nonlinear_arith)
        requires
            sign == if negate { -1int } else { 1int },
    ;
    assert(sign * b.w == if negate { -b.w } else { b.w as int }) by (nonlinear_arith)
        requires
            sign == if negate { -1int } else { 1int },
    ;
    let x: i64 = (a.x as i64) + sign * (b.x as i64);
    let y: i64 = (a.y as i64) + sign * (b.y as i64);
    let z: i64 = (a.z as i64) + sign * (b.z as i64);
    let d: i64 = (a.w as i64) + sign * (b.w as i64);
    if x < i32::MIN as i64 || x > i32::MAX as i64 || y < i32::MIN as i64 || y > i32::MAX as i64
        || z < i32::MIN as i64 || z > i32::MAX as i64 {
        None
    } else {
        Some(Plane { normal: Vector3 { x: x as i32, y: y as i32, z: z as i32 }, d })
    }
}

/// The height of a point over a combined plane is the combination of the
/// two rows applied to the point.
proof fn lemma_combined_height(a: Row4, b: Row4, sign: int, p: Vector3)
    requires
        sign == 1 || sign == -1,
        combination_fits(a, b, sign),
    ensures
        combined_plane(a, b, sign).height(p) == a.applied(p) + sign * b.applied(p),
{
    lemma_height_of(a.x + sign * b.x, a.y + sign * b.y, a.z + sign * b.z, a.w + sign * b.w, p);
    assert((a.x + sign * b.x) * p.x == a.x * p.x + sign * (b.x * p.x)) by (nonlinear_arith);
    assert((a.y + sign * b.y) * p.y == a.y * p.y + sign * (b.y * p.y)) by (nonlinear_arith);
    assert((a.z + sign * b.z) * p.z == a.z * p.z + sign * (b.z * p.z)) by (nonlinear_arith);
    let bx = b.x * p.x;
    let by = b.y * p.y;
    let bz = b.z * p.z;
    assert(sign * (bx + by + bz + b.w) == sign * bx + sign * by + sign * bz + sign * b.w)
        by (nonlinear_arith);
}

/// The frustum of a projection matrix holds exactly the points that the
/// matrix takes into the clip volume.
pub proof fn lemma_matrix_planes_contain(m: ProjectionMatrix, p: Vector3)
    requires
        matrix_fits(m),
    ensures
        planes_contain(matrix_planes(m), p) <==> {
            &&& -m.w.applied(p) <= m.x.applied(p) <= m.w.applied(p)
            &&& -m.w.applied(p) <= m.y.applied(p) <= m.w.applied(p)
            &&& 0 <= m.z.applied(p) <= m.w.applied(p)
        },
{
    let planes = matrix_planes(m);
    let inside = {
        &&& -m.w.applied(p) <= m.x.applied(p) <= m.w.applied(p)
        &&& -m.w.applied(p) <= m.y.applied(p) <= m.w.applied(p)
        &&& 0 <= m.z.applied(p) <= m.w.applied(p)
    };
    lemma_combined_height(m.w, m.x, 1, p);
    lemma_combined_height(m.w, m.x, -1, p);
    lemma_combined_height(m.w, m.y, 1, p);
    lemma_combined_height(m.w, m.y, -1, p);
    lemma_combined_height(m.w, m.z, -1, p);
    lemma_height_of(m.z.x as int, m.z.y as int, m.z.z as int, m.z.w as int, p);
    assert(planes[0].height(p) == m.w.applied(p) + m.x.applied(p));
    assert(planes[1].height(p) == m.w.applied(p) - m.x.applied(p));
    assert(planes[2].height(p) == m.w.applied(p) + m.y.applied(p));
    assert(planes[3].height(p) == m.w.applied(p) - m.y.applied(p));
    assert(planes[4].height(p) == m.z.applied(p));
    assert(planes[5].height(p) == m.w.applied(p) - m.z.applied(p));
    if planes_contain(planes, p) {
        assert(planes[0].contains_point(p));
        assert(planes[1].contains_point(p));
        assert(planes[2].contains_point(p));
        assert(planes[3].contains_point(p));
        assert(planes[4].contains_point(p));
        assert(planes[5].contains_point(p));
    }
    if inside {
        assert forall|i: int| 0 <= i < planes.len() implies (#[trigger] planes[i]).contains_point(
            p,
        ) by {
            assert(i == 0 || i == 1 || i == 2 || i == 3 || i == 4 || i == 5);
        }
    }
}

} // verus!
