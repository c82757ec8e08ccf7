//! Cascaded shadow maps of a directional light: how the depth range of a
//! view is split, and the box that each split's shadow map covers.
//!
//! The box of a cascade lives in the frame of the light, where `z` runs
//! along the light's direction.  The corners of each slice of the view are
//! given in that frame.

use vstd::prelude::*;
use crate::geometry::{Aabb, Vector3};
use crate::numeric::{ceil_div_int, div_ceil, div_floor, lemma_quotient_magnitude, max_int};

verus! {

/// The part of the depth range that one cascade covers.
#[derive(Clone, Copy, Debug, PartialEq, Eq, Structural)]
pub struct DepthRange {
    pub near: u32,
    pub far: u32,
}

/// Whether `splits / denominator` is a sequence of split fractions: at
/// least one, each in `(0, 1]`, strictly increasing, the last equal to one.
pub open spec fn valid_splits(splits: Seq<u32>, denominator: u32) -> bool {
    &&& splits.len() >= 1
    &&& denominator >= 1
    &&& splits[0] >= 1
    &&& forall|i: int, j: int| 0 <= i < j < splits.len() ==> splits[i] < splits[j]
    &&& splits[splits.len() - 1] == denominator
}

/// The depth at which the cascade with split fraction
/// `numerator / denominator` ends, rounded down to a whole depth.
pub open spec fn far_bound(camera_far: int, numerator: int, denominator: int) -> int {
    (camera_far * numerator) / denominator
}

/// The split fractions of the cascades of one light, as numerators over a
/// common denominator.
#[derive(Clone, Debug)]
pub struct CascadeShadowConfig {
    splits: Vec<u32>,
    denominator: u32,
}

impl CascadeShadowConfig {
    /// The numerators of the split fractions.
    pub closed spec fn splits(&self) -> Seq<u32> {
        self.splits@
    }

    /// The denominator of the split fractions.
    pub closed spec fn denominator(&self) -> u32 {
        self.denominator
    }

    /// The fractions are valid.
    pub open spec fn wf(&self) -> bool {
        valid_splits(self.splits(), self.denominator())
    }

    /// The depth range of cascade `i`: it starts where the cascade before
    /// it ends, the first one at the near depth of the camera.
    pub open spec fn range(&self, camera_near: u32, camera_far: u32, i: int) -> DepthRange {
        DepthRange {
            near: if i == 0 {
                camera_near
            } else {
                far_bound(
                    camera_far as int,
                    self.splits()[i - 1] as int,
                    self.denominator() as int,
                ) as u32
            },
            far: far_bound(camera_far as int, self.splits()[i] as int, self.denominator() as int) as u32,
        }
    }

    /// Takes split fractions; `None` unless they are valid.
    pub fn new(splits: Vec<u32>, denominator: u32) -> (config: Option<CascadeShadowConfig>)
        ensures
            config is Some <==> valid_splits(splits@, denominator),
            config matches Some(c) ==> c.wf() && c.splits() == splits@ && c.denominator()
                == denominator,
    {
        let len: usize = splits.len();
        if len < 1 || denominator < 1 {
            return None;
        }
        if splits[0] < 1 || splits[len - 1] != denominator {
            return None;
        }
        let mut i: usize = 1;
        while i < len
            invariant
                1 <= i <= len,
                len == splits@.len(),
                forall|a: int, b: int| 0 <= a < b < i ==> splits@[a] < splits@[b],
            decreases len - i,
        {
            if splits[i - 1] >= splits[i] {
                return None;
            }
            i += 1;
        }
        Some(CascadeShadowConfig { splits, denominator })
    }

    /// The number of cascades.
    pub fn cascade_count(&self) -> (count: usize)
        ensures
            count == self.splits().len(),
    {
        self.splits.len()
    }

    /// The depth range of each cascade for a camera that shows depths from
    /// `camera_near` to `camera_far`.
    pub fn ranges(&self, camera_near: u32, camera_far: u32) -> (ranges: Vec<DepthRange>)
        requires
            self.wf(),
        ensures
            ranges@.len() == self.splits().len(),
            forall|i: int|
                0 <= i < ranges@.len() ==> #[trigger] ranges@[i] == self.range(
                    camera_near,
                    camera_far,
                    i,
                ),
    {
        let mut ranges: Vec<DepthRange> = Vec::new();
        let mut previous: u32 = camera_near;
        let mut i: usize = 0;
        while i < self.splits.len()
            invariant
                0 <= i <= self.splits@.len(),
                self.wf(),
                ranges@.len() == i,
                previous == self.range(camera_near, camera_far, i as int).near,
                forall|j: int|
                    0 <= j < i ==> #[trigger] ranges@[j] == self.range(camera_near, camera_far, j),
            decreases self.splits@.len() - i,
        {
            let numerator: u32 = self.splits[i];
            proof {
                lemma_far_bound_tracks_fraction(
                    camera_far as int,
                    numerator as int,
                    self.denominator as int,
                );
            }
            assert(camera_far * numerator <= 0xffff_fffe_0000_0001) by (nonlinear_arith)
                requires
                    camera_far <= 0xffff_ffff,
                    numerator <= 0xffff_ffff,
            ;
            let far: u32 = (((camera_far as u64) * (numerator as u64)) / (self.denominator as u64)) as u32;
            ranges.push(DepthRange { near: previous, far });
            previous = far;
            i += 1;
        }
        ranges
    }
}

/// The far bound of a cascade is its fraction of the far depth of the
/// camera, rounded down: it is within one depth unit of
/// `camera_far * numerator / denominator`, and never past the far depth.
pub proof fn lemma_far_bound_tracks_fraction(camera_far: int, numerator: int, denominator: int)
    requires
        0 <= camera_far,
        0 <= numerator <= denominator,
        1 <= denominator,
    ensures
        far_bound(camera_far, numerator, denominator) * denominator <= camera_far * numerator,
        camera_far * numerator < (far_bound(camera_far, numerator, denominator) + 1) * denominator,
        0 <= far_bound(camera_far, numerator, denominator) <= camera_far,
        numerator == denominator ==> far_bound(camera_far, numerator, denominator) == camera_far,
{
    let product = camera_far * numerator;
    let bound = product / denominator;
    vstd::arithmetic::div_mod::lemma_fundamental_div_mod(product, denominator);
    vstd::arithmetic::div_mod::lemma_mod_bound(product, denominator);
    assert(bound * denominator <= product && product < (bound + 1) * denominator)
        by (nonlinear_arith)
        requires
            product == denominator * bound + product % denominator,
            0 <= product % denominator < denominator,
    ;
    assert(0 <= product <= camera_far * denominator) by (nonlinear_arith)
        requires
            product == camera_far * numerator,
            0 <= camera_far,
            0 <= numerator <= denominator,
    ;
    assert(0 <= bound <= camera_far) by (nonlinear_arith)
        requires
            bound * denominator <= product,
            product < (bound + 1) * denominator,
            0 <= product <= camera_far * denominator,
            denominator >= 1,
    ;
    if numerator == denominator {
        assert(bound == camera_far) by (nonlinear_arith)
            requires
                product == camera_far * denominator,
                product < (bound + 1) * denominator,
                bound <= camera_far,
                denominator >= 1,
        ;
    }
}

/// The cascades tile the depth range: each cascade starts where the one
/// before it ends, the first starts at the near depth of the camera, the
/// last ends at its far depth, and no cascade ends before the one before
/// it.
pub proof fn lemma_ranges_tile(config: CascadeShadowConfig, camera_near: u32, camera_far: u32, i: int)
    requires
        config.wf(),
        0 <= i < config.splits().len(),
    ensures
        i == 0 ==> config.range(camera_near, camera_far, i).near == camera_near,
        i > 0 ==> config.range(camera_near, camera_far, i).near == config.range(
            camera_near,
            camera_far,
            i - 1,
        ).far,
        i > 0 ==> config.range(camera_near, camera_far, i - 1).far <= config.range(
            camera_near,
            camera_far,
            i,
        ).far,
        i == config.splits().len() - 1 ==> config.range(camera_near, camera_far, i).far
            == camera_far,
{
    let den = config.denominator() as int;
    let far = camera_far as int;
    lemma_far_bound_tracks_fraction(far, config.splits()[i] as int, den);
    if i > 0 {
        let a = config.splits()[i - 1] as int;
        let b = config.splits()[i] as int;
        lemma_far_bound_tracks_fraction(far, a, den);
        let fa = far_bound(far, a, den);
        let fb = far_bound(far, b, den);
        assert(fa <= fb) by (nonlinear_arith)
            requires
                fa * den <= far * a,
                far * b < (fb + 1) * den,
                a <= b,
                0 <= far,
                den >= 1,
        ;
    }
}

/// `value` moved down to a multiple of `texel`.
pub open spec fn snapped(value: int, texel: int) -> int {
    (value / texel) * texel
}

/// The size of a texel of a square shadow map of `resolution` texels a side
/// that covers `side`: `side / resolution`, rounded up to a whole unit.
pub open spec fn texel_for(side: int, resolution: int) -> int {
    ceil_div_int(side, resolution)
}

/// The box of `bounds` grown to hold `p`.
pub open spec fn extended(bounds: Aabb, p: Vector3) -> Aabb {
    Aabb {
        min: Vector3 {
            x: if p.x < bounds.min.x { p.x } else { bounds.min.x },
            y: if p.y < bounds.min.y { p.y } else { bounds.min.y },
            z: if p.z < bounds.min.z { p.z } else { bounds.min.z },
        },
        max: Vector3 {
            x: if p.x > bounds.max.x { p.x } else { bounds.max.x },
            y: if p.y > bounds.max.y { p.y } else { bounds.max.y },
            z: if p.z > bounds.max.z { p.z } else { bounds.max.z },
        },
    }
}

/// The tightest axis-aligned box around the points, of which there is at
/// least one.
pub open spec fn bounding_box_of(points: Seq<Vector3>) -> Aabb
    decreases points.len(),
{
    if points.len() <= 1 {
        Aabb { min: points[0], max: points[0] }
    } else {
        extended(bounding_box_of(points.drop_last()), points.last())
    }
}

/// One cascade: the depths of the view that it covers, the box of its
/// shadow map in the frame of the light, and the size of a texel of the
/// map.  A texel size of zero marks a cascade that covers nothing.
#[derive(Clone, Copy, Debug, PartialEq, Eq, Structural)]
pub struct Cascade {
    pub near: u32,
    pub far: u32,
    pub min_x: i64,
    pub min_y: i64,
    pub min_z: i64,
    pub max_x: i64,
    pub max_y: i64,
    pub max_z: i64,
    pub texel_size: u32,
}

/// The cascade that covers nothing.
pub open spec fn empty_cascade(range: DepthRange) -> Cascade {
    Cascade {
        near: range.near,
        far: range.far,
        min_x: 0,
        min_y: 0,
        min_z: 0,
        max_x: 0,
        max_y: 0,
        max_z: 0,
        texel_size: 0,
    }
}

/// The cascade for the slice of the view between the depths of `range`,
/// whose corners have the bounding box `bounds` in the frame of the light.
///
/// The shadow map is square, so a texel is as large as the wider side of
/// the box needs.  The box is moved so that its lower corner lies on a
/// multiple of the texel size in `x` and `y`.  A slice without depth or
/// without extent, or a map without texels, gives the empty cascade.
pub open spec fn cascade_of(range: DepthRange, bounds: Aabb, resolution: u32) -> Cascade {
    let side = max_int(bounds.max.x - bounds.min.x, bounds.max.y - bounds.min.y);
    if range.near >= range.far || side <= 0 || resolution == 0 {
        empty_cascade(range)
    } else {
        let texel = texel_for(side, resolution as int);
        let origin_x = snapped(bounds.min.x as int, texel);
        let origin_y = snapped(bounds.min.y as int, texel);
        Cascade {
            near: range.near,
            far: range.far,
            min_x: origin_x as i64,
            min_y: origin_y as i64,
            min_z: bounds.min.z as i64,
            max_x: (bounds.max.x - (bounds.min.x - origin_x)) as i64,
            max_y: (bounds.max.y - (bounds.min.y - origin_y)) as i64,
            max_z: bounds.max.z as i64,
            texel_size: texel as u32,
        }
    }
}

impl Cascade {
    /// Whether the cascade covers nothing.
    pub open spec fn is_empty(self) -> bool {
        self.texel_size == 0
    }

    /// Whether the planes of the box can be written down: the negative of
    /// each lower bound is a 64-bit number.
    pub open spec fn in_range(self) -> bool {
        self.min_x > i64::MIN && self.min_y > i64::MIN && self.min_z > i64::MIN
    }

    /// Makes the cascade that covers nothing.
    pub fn empty(range: DepthRange) -> (cascade: Cascade)
        ensures
            cascade == empty_cascade(range),
    {
        Cascade {
            near: range.near,
            far: range.far,
            min_x: 0,
            min_y: 0,
            min_z: 0,
            max_x: 0,
            max_y: 0,
            max_z: 0,
            texel_size: 0,
        }
    }

    /// Fits the cascade of [`cascade_of`] around a box.
    pub fn fit(range: DepthRange, bounds: &Aabb, resolution: u32) -> (cascade: Cascade)
        ensures
            cascade == cascade_of(range, *bounds, resolution),
            cascade.in_range(),
    {
        let width: i64 = (bounds.max.x as i64) - (bounds.min.x as i64);
        let height: i64 = (bounds.max.y as i64) - (bounds.min.y as i64);
        let side: i64 = if width >= height { width } else { height };
        if range.near >= range.far || side <= 0 || resolution == 0 {
            return Cascade::empty(range);
        }
        let texel: i128 = div_ceil(side as i128, resolution as i128);
        proof {
            crate::depth::lemma_ceil_div_nonnegative(side as int, resolution as int);
            crate::depth::lemma_ceil_well_placed(side as int, resolution as int);
            assert(texel >= 1) by (nonlinear_arith)
                requires
                    texel * resolution >= side,
                    side >= 1,
                    resolution >= 1,
                    texel >= 0,
            ;
            lemma_snapped_range(bounds.min.x as int, texel as int);
            lemma_snapped_range(bounds.min.y as int, texel as int);
        }
        let origin_x: i64 = snap_to_texel(bounds.min.x, texel as u32);
        let origin_y: i64 = snap_to_texel(bounds.min.y, texel as u32);
        Cascade {
            near: range.near,
            far: range.far,
            min_x: origin_x,
            min_y: origin_y,
            min_z: bounds.min.z as i64,
            max_x: (bounds.max.x as i64) - ((bounds.min.x as i64) - origin_x),
            max_y: (bounds.max.y as i64) - ((bounds.min.y as i64) - origin_y),
            max_z: bounds.max.z as i64,
            texel_size: texel as u32,
        }
    }
}

/// Moves `value` down to a multiple of `texel`.  Without a texel size there
/// is nothing to snap to, and the value stays where it is.
pub fn snap_to_texel(value: i32, texel: u32) -> (moved: i64)
    ensures
        texel >= 1 ==> moved == snapped(value as int, texel as int),
        texel >= 1 ==> value - texel < moved <= value,
        texel == 0 ==> moved == value,
{
    if texel == 0 {
        return value as i64;
    }
    let quotient: i128 = div_floor(value as i128, texel as i128);
    proof {
        lemma_snapped_range(value as int, texel as int);
        lemma_quotient_magnitude(value as int, texel as int);
    }
    (quotient * (texel as i128)) as i64
}

/// A snapped value is a multiple of the texel size, at most the value, and
/// less than one texel below it.
pub proof fn lemma_snapped_range(value: int, texel: int)
    requires
        texel >= 1,
    ensures
        value - texel < snapped(value, texel) <= value,
        snapped(value, texel) % texel == 0,
{
    vstd::arithmetic::div_mod::lemma_fundamental_div_mod(value, texel);
    vstd::arithmetic::div_mod::lemma_mod_bound(value, texel);
    let q = value / texel;
    assert(q * texel == texel * q) by (nonlinear_arith);
    vstd::arithmetic::div_mod::lemma_fundamental_div_mod_converse(q * texel, texel, q, 0);
}

/// Snapping is idempotent: a value that was snapped stays where it is when
/// snapped again.
pub proof fn lemma_snap_idempotent(value: int, texel: int)
    requires
        texel >= 1,
    ensures
        snapped(snapped(value, texel), texel) == snapped(value, texel),
{
    let q = value / texel;
    assert(q * texel == texel * q) by (nonlinear_arith);
    vstd::arithmetic::div_mod::lemma_fundamental_div_mod_converse(q * texel, texel, q, 0);
}

/// The lower corner of a cascade lies on the texel grid: snapping it again
/// by the texel size of the cascade leaves it where it is.
pub proof fn lemma_cascade_origin_is_snapped(range: DepthRange, bounds: Aabb, resolution: u32)
    requires
        !cascade_of(range, bounds, resolution).is_empty(),
    ensures
        ({
            let cascade = cascade_of(range, bounds, resolution);
            &&& snapped(cascade.min_x as int, cascade.texel_size as int) == cascade.min_x
            &&& snapped(cascade.min_y as int, cascade.texel_size as int) == cascade.min_y
            &&& cascade.max_x - cascade.min_x == bounds.max.x - bounds.min.x
            &&& cascade.max_y - cascade.min_y == bounds.max.y - bounds.min.y
        }),
{
    let side = max_int(bounds.max.x - bounds.min.x, bounds.max.y - bounds.min.y);
    let texel = texel_for(side, resolution as int);
    crate::depth::lemma_ceil_div_nonnegative(side, resolution as int);
    crate::depth::lemma_ceil_well_placed(side, resolution as int);
    assert(texel >= 1) by (nonlinear_arith)
        requires
            texel * resolution >= side,
            side >= 1,
            resolution >= 1,
            texel >= 0,
    ;
    lemma_snapped_range(bounds.min.x as int, texel);
    lemma_snapped_range(bounds.min.y as int, texel);
    lemma_snap_idempotent(bounds.min.x as int, texel);
    lemma_snap_idempotent(bounds.min.y as int, texel);
}

/// Computes the tightest box around the points; `None` when there is no
/// point.
pub fn bounding_box(points: &Vec<Vector3>) -> (bounds: Option<Aabb>)
    ensures
        bounds is Some <==> points@.len() >= 1,
        bounds matches Some(b) ==> b == bounding_box_of(points@),
{
    if points.len() == 0 {
        return None;
    }
    let mut bounds = Aabb { min: points[0], max: points[0] };
    let mut i: usize = 1;
    assert(points@.take(1).len() == 1);
    while i < points.len()
        invariant
            1 <= i <= points@.len(),
            bounds == bounding_box_of(points@.take(i as int)),
        decreases points@.len() - i,
    {
        let p = points[i];
        proof {
            assert(points@.take(i + 1).drop_last() =~= points@.take(i as int));
            assert(points@.take(i + 1).last() == p);
        }
        bounds = Aabb {
            min: Vector3 {
                x: if p.x < bounds.min.x { p.x } else { bounds.min.x },
                y: if p.y < bounds.min.y { p.y } else { bounds.min.y },
                z: if p.z < bounds.min.z { p.z } else { bounds.min.z },
            },
            max: Vector3 {
                x: if p.x > bounds.max.x { p.x } else { bounds.max.x },
                y: if p.y > bounds.max.y { p.y } else { bounds.max.y },
                z: if p.z > bounds.max.z { p.z } else { bounds.max.z },
            },
        };
        i += 1;
    }
    assert(points@.take(i as int) =~= points@);
    Some(bounds)
}

/// The bounding box holds every point, and each of its faces touches one.
pub proof fn lemma_bounding_box_is_tight(points: Seq<Vector3>)
    requires
        points.len() >= 1,
    ensures
        forall|i: int|
            0 <= i < points.len() ==> bounding_box_of(points).contains_point(#[trigger] points[i]),
        exists|i: int| 0 <= i < points.len() && (#[trigger] points[i]).x == bounding_box_of(points).min.x,
        exists|i: int| 0 <= i < points.len() && (#[trigger] points[i]).y == bounding_box_of(points).min.y,
        exists|i: int| 0 <= i < points.len() && (#[trigger] points[i]).z == bounding_box_of(points).min.z,
        exists|i: int| 0 <= i < points.len() && (#[trigger] points[i]).x == bounding_box_of(points).max.x,
        exists|i: int| 0 <= i < points.len() && (#[trigger] points[i]).y == bounding_box_of(points).max.y,
        exists|i: int| 0 <= i < points.len() && (#[trigger] points[i]).z == bounding_box_of(points).max.z,
    decreases points.len(),
{
    let b = bounding_box_of(points);
    if points.len() == 1 {
        assert(points[0].x == b.min.x);
    } else {
        let rest = points.drop_last();
        let last = points[points.len() - 1];
        let inner = bounding_box_of(rest);
        lemma_bounding_box_is_tight(rest);
        assert forall|i: int| 0 <= i < points.len() implies b.contains_point(
            #[trigger] points[i],
        ) by {
            if i < rest.len() {
                assert(inner.contains_point(rest[i]));
            }
        }
        let ax = choose|i: int| 0 <= i < rest.len() && (#[trigger] rest[i]).x == inner.min.x;
        let ay = choose|i: int| 0 <= i < rest.len() && (#[trigger] rest[i]).y == inner.min.y;
        let az = choose|i: int| 0 <= i < rest.len() && (#[trigger] rest[i]).z == inner.min.z;
        let bx = choose|i: int| 0 <= i < rest.len() && (#[trigger] rest[i]).x == inner.max.x;
        let by = choose|i: int| 0 <= i < rest.len() && (#[trigger] rest[i]).y == inner.max.y;
        let bz = choose|i: int| 0 <= i < rest.len() && (#[trigger] rest[i]).z == inner.max.z;
        let top = points.len() - 1;
        assert(points[if last.x < inner.min.x { top } else { ax }].x == b.min.x);
        assert(points[if last.y < inner.min.y { top } else { ay }].y == b.min.y);
        assert(points[if last.z < inner.min.z { top } else { az }].z == b.min.z);
        assert(points[if last.x > inner.max.x { top } else { bx }].x == b.max.x);
        assert(points[if last.y > inner.max.y { top } else { by }].y == b.max.y);
        assert(points[if last.z > inner.max.z { top } else { bz }].z == b.max.z);
    }
}

/// The cascade of split `i` of a light: empty when the light has no
/// direction or the corners of the slice are missing, else fitted around
/// the corners.
pub open spec fn cascade_for(
    config: CascadeShadowConfig,
    direction: Vector3,
    camera_near: u32,
    camera_far: u32,
    corners: Seq<Seq<Vector3>>,
    resolution: u32,
    i: int,
) -> Cascade {
    let range = config.range(camera_near, camera_far, i);
    if direction == (Vector3 { x: 0, y: 0, z: 0 }) || i >= corners.len() || corners[i].len() == 0 {
        empty_cascade(range)
    } else {
        cascade_of(range, bounding_box_of(corners[i]), resolution)
    }
}

/// The cascades of one light for one view.
#[derive(Clone, Debug)]
pub struct Cascades {
    cascades: Vec<Cascade>,
}

impl View for Cascades {
    type V = Seq<Cascade>;

    closed spec fn view(&self) -> Seq<Cascade> {
        self.cascades@
    }
}

impl Cascades {
    /// The planes of the box of every cascade can be written down.
    pub open spec fn wf(&self) -> bool {
        forall|i: int| 0 <= i < self@.len() ==> (#[trigger] self@[i]).in_range()
    }

    /// No cascades yet.
    pub fn new() -> (cascades: Cascades)
        ensures
            cascades@.len() == 0,
            cascades.wf(),
    {
        Cascades { cascades: Vec::new() }
    }

    /// The cascades in order, nearest first.
    pub fn as_vec(&self) -> (cascades: &Vec<Cascade>)
        ensures
            cascades@ == self@,
    {
        &self.cascades
    }

    /// Builds the cascades anew; what was there before is dropped.
    ///
    /// `corners[i]` holds the corners of the slice of the view that
    /// cascade `i` covers, in the frame of the light.
    pub fn rebuild(
        &mut self,
        config: &CascadeShadowConfig,
        direction: &Vector3,
        camera_near: u32,
        camera_far: u32,
        corners: &Vec<Vec<Vector3>>,
        resolution: u32,
    )
        requires
            config.wf(),
        ensures
            final(self).wf(),
            final(self)@.len() == config.splits().len(),
            forall|i: int|
                0 <= i < config.splits().len() ==> #[trigger] final(self)@[i] == cascade_for(
                    *config,
                    *direction,
                    camera_near,
                    camera_far,
                    Seq::new(corners@.len(), |k: int| corners@[k]@),
                    resolution,
                    i,
                ),
    {
        let ranges = config.ranges(camera_near, camera_far);
        let ghost given = Seq::new(corners@.len(), |k: int| corners@[k]@);
        let aimless: bool = direction.x == 0 && direction.y == 0 && direction.z == 0;
        let mut built: Vec<Cascade> = Vec::new();
        let mut i: usize = 0;
        while i < ranges.len()
            invariant
                0 <= i <= ranges@.len(),
                config.wf(),
                ranges@.len() == config.splits().len(),
                forall|j: int|
                    0 <= j < ranges@.len() ==> #[trigger] ranges@[j] == config.range(
                        camera_near,
                        camera_far,
                        j,
                    ),
                given == Seq::new(corners@.len(), |k: int| corners@[k]@),
                aimless == (*direction == (Vector3 { x: 0, y: 0, z: 0 })),
                built@.len() == i,
                forall|j: int| 0 <= j < i ==> (#[trigger] built@[j]).in_range(),
                forall|j: int|
                    0 <= j < i ==> #[trigger] built@[j] == cascade_for(
                        *config,
                        *direction,
                        camera_near,
                        camera_far,
                        given,
                        resolution,
                        j,
                    ),
            decreases ranges@.len() - i,
        {
            let range = ranges[i];
            let cascade = if aimless || i >= corners.len() {
                Cascade::empty(range)
            } else {
                match bounding_box(&corners[i]) {
                    Some(bounds) => Cascade::fit(range, &bounds, resolution),
                    None => Cascade::empty(range),
                }
            };
            built.push(cascade);
            i += 1;
        }
        self.cascades = built;
    }
}

} // verus!
