//! Points, planes and bounding volumes on integer coordinates.
//!
//! Every quantity is an integer, so every test in this module is exact.  A
//! plane keeps its normal unnormalised; what would be a signed distance with
//! a unit normal is here the *height* `normal . p + d`, which has the same
//! sign.

use vstd::prelude::*;
use crate::numeric::isqrt;

verus! {

/// A point or direction with integer coordinates.
#[derive(Clone, Copy, Debug, PartialEq, Eq, Structural)]
pub struct Vector3 {
    pub x: i32,
    pub y: i32,
    pub z: i32,
}

/// The product of two 32-bit integers, which always fits 64 bits.
pub fn mul_i32(a: i32, b: i32) -> (product: i64)
    ensures
        product == a * b,
        -0x4000_0000_0000_0000 <= product <= 0x4000_0000_0000_0000,
{
    assert(-0x4000_0000_0000_0000 <= a * b <= 0x4000_0000_0000_0000) by (nonlinear_arith)
        requires
            -0x8000_0000 <= a <= 0x7fff_ffff,
            -0x8000_0000 <= b <= 0x7fff_ffff,
    ;
    (a as i64) * (b as i64)
}

impl Vector3 {
    /// The dot product of two vectors.
    pub open spec fn dot_product(self, other: Vector3) -> int {
        self.x * other.x + self.y * other.y + self.z * other.z
    }

    /// The squared length of the vector.
    pub open spec fn norm_squared(self) -> int {
        self.dot_product(self)
    }

    /// Whether each coordinate is at most the matching coordinate of `other`.
    pub open spec fn le_each(self, other: Vector3) -> bool {
        self.x <= other.x && self.y <= other.y && self.z <= other.z
    }

    pub fn new(x: i32, y: i32, z: i32) -> (v: Vector3)
        ensures
            v == (Vector3 { x, y, z }),
    {
        Vector3 { x, y, z }
    }

    /// Computes the dot product exactly.
    pub fn dot(&self, other: &Vector3) -> (value: i128)
        ensures
            value == self.dot_product(*other),
            -0xc000_0000_0000_0000 <= value <= 0xc000_0000_0000_0000,
    {
        let a: i64 = mul_i32(self.x, other.x);
        let b: i64 = mul_i32(self.y, other.y);
        let c: i64 = mul_i32(self.z, other.z);
        (a as i128) + (b as i128) + (c as i128)
    }
}

/// A squared length is never negative.
pub proof fn lemma_norm_squared_nonnegative(v: Vector3)
    ensures
        v.norm_squared() >= 0,
{
    assert(v.x * v.x >= 0) by (nonlinear_arith);
    assert(v.y * v.y >= 0) by (nonlinear_arith);
    assert(v.z * v.z >= 0) by (nonlinear_arith);
}

/// A ball: every point within `radius` of `center`.
#[derive(Clone, Copy, Debug, PartialEq, Eq, Structural)]
pub struct Sphere {
    pub center: Vector3,
    pub radius: u32,
}

impl Sphere {
    /// Whether `p` lies in the closed ball.
    pub open spec fn contains_point(self, p: Vector3) -> bool {
        let dx = p.x - self.center.x;
        let dy = p.y - self.center.y;
        let dz = p.z - self.center.z;
        dx * dx + dy * dy + dz * dz <= self.radius * self.radius
    }
}

/// An axis-aligned box given by its two extreme corners.
#[derive(Clone, Copy, Debug, PartialEq, Eq, Structural)]
pub struct Aabb {
    pub min: Vector3,
    pub max: Vector3,
}

impl Aabb {
    /// Whether `p` lies in the closed box.
    pub open spec fn contains_point(self, p: Vector3) -> bool {
        self.min.le_each(p) && p.le_each(self.max)
    }

    /// The corner of the box that reaches farthest along `direction`.
    pub open spec fn support(self, direction: Vector3) -> Vector3 {
        Vector3 {
            x: if direction.x >= 0 { self.max.x } else { self.min.x },
            y: if direction.y >= 0 { self.max.y } else { self.min.y },
            z: if direction.z >= 0 { self.max.z } else { self.min.z },
        }
    }
}

/// A box with arbitrary orientation: the points
/// `center + a * half_axes[0] + b * half_axes[1] + c * half_axes[2]`
/// with `a`, `b`, `c` in `[-1, 1]`.
#[derive(Clone, Copy, Debug, PartialEq, Eq, Structural)]
pub struct OrientedBox {
    pub center: Vector3,
    pub half_u: Vector3,
    pub half_v: Vector3,
    pub half_w: Vector3,
}

/// The absolute value of an integer.
pub open spec fn abs_int(v: int) -> int {
    if v < 0 {
        -v
    } else {
        v
    }
}

impl OrientedBox {
    /// How far the box reaches from its center along `direction`, scaled by
    /// the length of `direction`.
    pub open spec fn reach(self, direction: Vector3) -> int {
        abs_int(direction.dot_product(self.half_u)) + abs_int(direction.dot_product(self.half_v))
            + abs_int(direction.dot_product(self.half_w))
    }
}

/// The closed shapes that bound an entity for culling.
#[derive(Clone, Copy, Debug, PartialEq, Eq, Structural)]
pub enum BoundingVolume {
    Sphere(Sphere),
    Aabb(Aabb),
    OrientedBox(OrientedBox),
}

/// A half-space: the points `p` with `normal . p + d >= 0`.
#[derive(Clone, Copy, Debug, PartialEq, Eq, Structural)]
pub struct Plane {
    pub normal: Vector3,
    pub d: i64,
}

impl Plane {
    /// `normal . p + d`: positive on the inner side, negative outside.
    pub open spec fn height(self, p: Vector3) -> int {
        self.normal.dot_product(p) + self.d
    }

    /// Whether `p` is on the inner side of the plane or on it.
    pub open spec fn contains_point(self, p: Vector3) -> bool {
        self.height(p) >= 0
    }

    /// Whether the whole ball lies strictly outside the half-space.
    ///
    /// With `h` the height of the center this is `h + radius * |normal| < 0`,
    /// written without the square root.
    pub open spec fn sphere_outside(self, sphere: Sphere) -> bool {
        let h = self.height(sphere.center);
        h < 0 && h * h > sphere.radius * sphere.radius * self.normal.norm_squared()
    }

    /// Whether the whole box lies strictly outside the half-space: even its
    /// corner nearest the inner side is outside.
    pub open spec fn aabb_outside(self, aabb: Aabb) -> bool {
        self.height(aabb.support(self.normal)) < 0
    }

    /// Whether the whole oriented box lies strictly outside the half-space.
    pub open spec fn oriented_box_outside(self, oriented: OrientedBox) -> bool {
        self.height(oriented.center) + oriented.reach(self.normal) < 0
    }

    /// Whether the whole volume lies strictly outside the half-space.
    pub open spec fn volume_outside(self, volume: BoundingVolume) -> bool {
        match volume {
            BoundingVolume::Sphere(sphere) => self.sphere_outside(sphere),
            BoundingVolume::Aabb(aabb) => self.aabb_outside(aabb),
            BoundingVolume::OrientedBox(oriented) => self.oriented_box_outside(oriented),
        }
    }

    pub fn new(normal: Vector3, d: i64) -> (plane: Plane)
        ensures
            plane == (Plane { normal, d }),
    {
        Plane { normal, d }
    }

    /// Computes the height of `p` over the plane.
    pub fn evaluate(&self, p: &Vector3) -> (h: i128)
        ensures
            h == self.height(*p),
            -0x1_4000_0000_0000_0000 <= h <= 0x1_4000_0000_0000_0000,
    {
        let dot: i128 = self.normal.dot(p);
        dot + (self.d as i128)
    }

    /// Tests whether `p` is in the half-space.
    pub fn has_point(&self, p: &Vector3) -> (inside: bool)
        ensures
            inside == self.contains_point(*p),
    {
        self.evaluate(p) >= 0
    }

    /// Tests whether the ball lies wholly outside the half-space.
    pub fn is_sphere_outside(&self, sphere: &Sphere) -> (outside: bool)
        ensures
            outside == self.sphere_outside(*sphere),
    {
        let h: i128 = self.evaluate(&sphere.center);
        if h >= 0 {
            return false;
        }
        let depth: u128 = (-h) as u128;
        let norm: i128 = self.normal.dot(&self.normal);
        proof {
            lemma_norm_squared_nonnegative(self.normal);
        }
        let nn: u128 = norm as u128;
        let r: u128 = sphere.radius as u128;
        assert(r * r <= 0xffff_fffe_0000_0001) by (nonlinear_arith)
            requires
                r <= 0xffff_ffff,
        ;
        let rr: u128 = r * r;
        assert(rr * nn <= u128::MAX) by (nonlinear_arith)
            requires
                rr <= 0xffff_fffe_0000_0001,
                nn <= 0xc000_0000_0000_0000,
        ;
        let bound: u128 = rr * nn;
        let root: u128 = isqrt(bound);
        proof {
            // depth > root  <==>  depth * depth > bound
            assert(depth > root ==> depth * depth > bound) by (nonlinear_arith)
                requires
                    bound < (root + 1) * (root + 1),
                    0 <= root,
            ;
            assert(depth <= root ==> depth * depth <= bound) by (nonlinear_arith)
                requires
                    root * root <= bound,
                    0 <= depth,
            ;
            assert(h * h == depth * depth) by (nonlinear_arith)
                requires
                    depth == -h,
            ;
        }
        depth > root
    }

    /// Tests whether the box lies wholly outside the half-space.
    pub fn is_aabb_outside(&self, aabb: &Aabb) -> (outside: bool)
        ensures
            outside == self.aabb_outside(*aabb),
    {
        let corner = Vector3 {
            x: if self.normal.x >= 0 { aabb.max.x } else { aabb.min.x },
            y: if self.normal.y >= 0 { aabb.max.y } else { aabb.min.y },
            z: if self.normal.z >= 0 { aabb.max.z } else { aabb.min.z },
        };
        self.evaluate(&corner) < 0
    }

    /// Tests whether the oriented box lies wholly outside the half-space.
    pub fn is_oriented_box_outside(&self, oriented: &OrientedBox) -> (outside: bool)
        ensures
            outside == self.oriented_box_outside(*oriented),
    {
        let h: i128 = self.evaluate(&oriented.center);
        let u: i128 = self.normal.dot(&oriented.half_u);
        let v: i128 = self.normal.dot(&oriented.half_v);
        let w: i128 = self.normal.dot(&oriented.half_w);
        let au: i128 = if u < 0 { -u } else { u };
        let av: i128 = if v < 0 { -v } else { v };
        let aw: i128 = if w < 0 { -w } else { w };
        h + au + av + aw < 0
    }

    /// Tests whether the volume lies wholly outside the half-space.
    pub fn is_volume_outside(&self, volume: &BoundingVolume) -> (outside: bool)
        ensures
            outside == self.volume_outside(*volume),
    {
        match volume {
            BoundingVolume::Sphere(sphere) => self.is_sphere_outside(sphere),
            BoundingVolume::Aabb(aabb) => self.is_aabb_outside(aabb),
            BoundingVolume::OrientedBox(oriented) => self.is_oriented_box_outside(oriented),
        }
    }
}

/// `(a * b)^2 == a^2 * b^2`.
proof fn lemma_square_of_product(a: int, b: int)
    ensures
        (a * b) * (a * b) == (a * a) * (b * b),
{
    assert((a * b) * (a * b) == (a * a) * (b * b)) by (nonlinear_arith);
}

/// `(a * b) * (c * d) == (a * d) * (c * b)`.
proof fn lemma_swap_factors(a: int, b: int, c: int, d: int)
    ensures
        (a * b) * (c * d) == (a * d) * (c * b),
{
    assert((a * b) * (c * d) == (a * d) * (c * b)) by (nonlinear_arith);
}

/// The Cauchy-Schwarz inequality in three dimensions:
/// `(a . b)^2 <= |a|^2 * |b|^2`.
pub proof fn lemma_cauchy_schwarz(ax: int, ay: int, az: int, bx: int, by: int, bz: int)
    ensures
        (ax * bx + ay * by + az * bz) * (ax * bx + ay * by + az * bz) <= (ax * ax + ay * ay + az
            * az) * (bx * bx + by * by + bz * bz),
{
    // The nine products of one coordinate of each vector.
    let xx = ax * bx;
    let xy = ax * by;
    let xz = ax * bz;
    let yx = ay * bx;
    let yy = ay * by;
    let yz = ay * bz;
    let zx = az * bx;
    let zy = az * by;
    let zz = az * bz;
    let dot = xx + yy + zz;
    let na = ax * ax + ay * ay + az * az;
    let nb = bx * bx + by * by + bz * bz;
    // |a|^2 |b|^2 is the sum of the squares of the nine products.
    lemma_square_of_product(ax, bx);
    lemma_square_of_product(ax, by);
    lemma_square_of_product(ax, bz);
    lemma_square_of_product(ay, bx);
    lemma_square_of_product(ay, by);
    lemma_square_of_product(ay, bz);
    lemma_square_of_product(az, bx);
    lemma_square_of_product(az, by);
    lemma_square_of_product(az, bz);
    let sq_ax = ax * ax;
    let sq_ay = ay * ay;
    let sq_az = az * az;
    let sq_bx = bx * bx;
    let sq_by = by * by;
    let sq_bz = bz * bz;
    assert((sq_ax + sq_ay + sq_az) * (sq_bx + sq_by + sq_bz) == sq_ax * sq_bx + sq_ax * sq_by + sq_ax * sq_bz + sq_ay * sq_bx + sq_ay * sq_by + sq_ay
        * sq_bz + sq_az * sq_bx + sq_az * sq_by + sq_az * sq_bz) by (nonlinear_arith);
    assert(na * nb == xx * xx + xy * xy + xz * xz + yx * yx + yy * yy + yz * yz + zx * zx + zy
        * zy + zz * zz);
    // (a . b)^2 expanded over the diagonal products.
    assert(dot * dot == xx * xx + yy * yy + zz * zz + 2 * (xx * yy) + 2 * (xx * zz) + 2 * (yy
        * zz)) by (nonlinear_arith)
        requires
            dot == xx + yy + zz,
    ;
    // The squares of the three coordinates of the cross product.
    let cx = yz - zy;
    let cy = zx - xz;
    let cz = xy - yx;
    assert(cx * cx == yz * yz + zy * zy - 2 * (yz * zy)) by (nonlinear_arith)
        requires
            cx == yz - zy,
    ;
    assert(cy * cy == zx * zx + xz * xz - 2 * (zx * xz)) by (nonlinear_arith)
        requires
            cy == zx - xz,
    ;
    assert(cz * cz == xy * xy + yx * yx - 2 * (xy * yx)) by (nonlinear_arith)
        requires
            cz == xy - yx,
    ;
    lemma_swap_factors(ay, bz, az, by);
    assert(yz * zy == yy * zz);
    lemma_swap_factors(az, bx, ax, bz);
    assert(zx * xz == zz * xx);
    lemma_swap_factors(ax, by, ay, bx);
    assert(xy * yx == xx * yy);
    assert(zz * xx == xx * zz) by (nonlinear_arith);
    // Lagrange's identity: |a|^2 |b|^2 = (a . b)^2 + |a x b|^2.
    assert(na * nb == dot * dot + cx * cx + cy * cy + cz * cz);
    assert(cx * cx >= 0) by (nonlinear_arith);
    assert(cy * cy >= 0) by (nonlinear_arith);
    assert(cz * cz >= 0) by (nonlinear_arith);
}

/// Culling a ball against a plane is sound: when the ball is reported
/// outside, no point of the ball is in the half-space.
pub proof fn lemma_sphere_outside_sound(plane: Plane, sphere: Sphere, p: Vector3)
    requires
        plane.sphere_outside(sphere),
        sphere.contains_point(p),
    ensures
        !plane.contains_point(p),
{
    let n = plane.normal;
    let c = sphere.center;
    let ux = p.x - c.x;
    let uy = p.y - c.y;
    let uz = p.z - c.z;
    let h = plane.height(c);
    let t = n.x * ux + n.y * uy + n.z * uz;
    let nn = n.norm_squared();
    let uu = ux * ux + uy * uy + uz * uz;
    let rr = sphere.radius * sphere.radius;
    lemma_cauchy_schwarz(n.x as int, n.y as int, n.z as int, ux, uy, uz);
    lemma_norm_squared_nonnegative(n);
    assert(t * t <= nn * uu);
    assert(nn * uu <= rr * nn) by (nonlinear_arith)
        requires
            uu <= rr,
            nn >= 0,
    ;
    assert(t < -h) by (nonlinear_arith)
        requires
            t * t < h * h,
            h < 0,
    ;
    assert(plane.height(p) == h + t) by (nonlinear_arith)
        requires
            plane.height(p) == n.x * p.x + n.y * p.y + n.z * p.z + plane.d,
            h == n.x * c.x + n.y * c.y + n.z * c.z + plane.d,
            t == n.x * ux + n.y * uy + n.z * uz,
            ux == p.x - c.x,
            uy == p.y - c.y,
            uz == p.z - c.z,
    ;
}

/// Culling a ball against a plane is complete at the center: a ball whose
/// center is in the half-space is never reported outside.
pub proof fn lemma_sphere_center_inside(plane: Plane, sphere: Sphere)
    requires
        plane.contains_point(sphere.center),
    ensures
        !plane.sphere_outside(sphere),
{
}

/// Culling an axis-aligned box against a plane is sound: when the box is
/// reported outside, no point of the box is in the half-space.
pub proof fn lemma_aabb_outside_sound(plane: Plane, aabb: Aabb, p: Vector3)
    requires
        plane.aabb_outside(aabb),
        aabb.contains_point(p),
    ensures
        !plane.contains_point(p),
{
    let n = plane.normal;
    let s = aabb.support(n);
    assert(n.x * p.x <= n.x * s.x) by (nonlinear_arith)
        requires
            aabb.min.x <= p.x <= aabb.max.x,
            s.x == if n.x >= 0 { aabb.max.x } else { aabb.min.x },
    ;
    assert(n.y * p.y <= n.y * s.y) by (nonlinear_arith)
        requires
            aabb.min.y <= p.y <= aabb.max.y,
            s.y == if n.y >= 0 { aabb.max.y } else { aabb.min.y },
    ;
    assert(n.z * p.z <= n.z * s.z) by (nonlinear_arith)
        requires
            aabb.min.z <= p.z <= aabb.max.z,
            s.z == if n.z >= 0 { aabb.max.z } else { aabb.min.z },
    ;
}

/// Culling an axis-aligned box is exact: a box that is not reported outside
/// has a corner in the half-space.
pub proof fn lemma_aabb_not_outside_witness(plane: Plane, aabb: Aabb)
    requires
        aabb.min.le_each(aabb.max),
        !plane.aabb_outside(aabb),
    ensures
        aabb.contains_point(aabb.support(plane.normal)),
        plane.contains_point(aabb.support(plane.normal)),
{
}

/// Culling an oriented box against a plane is sound at the corners: when the
/// box is reported outside, each of its eight corners
/// `center + a * half_u + b * half_v + c * half_w` with `a`, `b`, `c` in
/// `{-1, 1}` has negative height.
pub proof fn lemma_oriented_box_outside_sound(
    plane: Plane,
    oriented: OrientedBox,
    a: int,
    b: int,
    c: int,
)
    requires
        plane.oriented_box_outside(oriented),
        a == 1 || a == -1,
        b == 1 || b == -1,
        c == 1 || c == -1,
    ensures
        plane.height(oriented.center) + a * plane.normal.dot_product(oriented.half_u) + b
            * plane.normal.dot_product(oriented.half_v) + c * plane.normal.dot_product(
            oriented.half_w,
        ) < 0,
{
    let u = plane.normal.dot_product(oriented.half_u);
    let v = plane.normal.dot_product(oriented.half_v);
    let w = plane.normal.dot_product(oriented.half_w);
    assert(a * u <= abs_int(u)) by (nonlinear_arith)
        requires
            a == 1 || a == -1,
    ;
    assert(b * v <= abs_int(v)) by (nonlinear_arith)
        requires
            b == 1 || b == -1,
    ;
    assert(c * w <= abs_int(w)) by (nonlinear_arith)
        requires
            c == 1 || c == -1,
    ;
}

} // verus!
