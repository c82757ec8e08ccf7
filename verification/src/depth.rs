//! Depth slicing: how the depth range of a view is cut into slices.
//!
//! A slicing is a table of lower bounds.  Slice `k` holds the depths from
//! `bounds[k]` (included) up to `bounds[k + 1]` (excluded); depths before the
//! first slice fall into slice `0` and depths past the last one into the
//! last.

use vstd::prelude::*;
use vstd::arithmetic::power::{lemma_pow0, lemma_pow_adds, lemma_pow_positive, pow};
use crate::bignum::{
    lemma_pow_base_monotonic,
    lemma_pow_base_strictly_monotonic,
    lemma_pow_step,
    BigNat,
};
use crate::numeric::{ceil_div_int, clamp_int, lemma_quotient_magnitude};

verus! {

/// The largest number of slices, and of tiles along either screen axis.
pub const MAX_DIMENSION: u32 = 1024;

/// How slice boundaries are spaced between the near and the far depth.
#[derive(Clone, Copy, Debug, PartialEq, Eq, Structural)]
pub enum SliceMode {
    /// Slices of equal depth.
    Linear,
    /// Slices whose depth grows by a constant factor, finer near the
    /// camera.
    Exponential,
}

/// The largest `k` in `1..=top` with `bounds[k] <= depth`, or `0` when there
/// is none.
pub open spec fn slice_from(bounds: Seq<u32>, depth: int, top: int) -> int
    decreases top,
{
    if top <= 0 {
        0
    } else if bounds[top] <= depth {
        top
    } else {
        slice_from(bounds, depth, top - 1)
    }
}

/// The slice that holds `depth`, in a table of `bounds.len() - 1` slices.
pub open spec fn slice_index(bounds: Seq<u32>, depth: int) -> int {
    slice_from(bounds, depth, bounds.len() - 2)
}

/// The lower bound of slice `k` out of `count` equal slices of `[near, far]`:
/// the least depth `z` with `count * (z - near) >= k * (far - near)`.
pub open spec fn linear_bound(near: int, far: int, count: int, k: int) -> int {
    near + ceil_div_int(k * (far - near), count)
}

/// `far^k * near^(count - k)`: the `count`-th power of the depth at which
/// slice `k` starts when each slice is deeper than the one before it by the
/// same factor, `(far / near)^(1 / count)`.
pub open spec fn exponential_threshold(near: int, far: int, count: int, k: int) -> int {
    pow(far, k as nat) * pow(near, (count - k) as nat)
}

/// Whether `bound` is the first whole depth of exponential slice `k`: the
/// least depth in `[near, far]` whose `count`-th power reaches the
/// threshold of the slice.
pub open spec fn is_exponential_bound(near: int, far: int, count: int, k: int, bound: int) -> bool {
    &&& near <= bound <= far
    &&& pow(bound, count as nat) >= exponential_threshold(near, far, count, k)
    &&& bound > near ==> pow(bound - 1, count as nat) < exponential_threshold(near, far, count, k)
}

/// Whether `bounds` is the table that cuts `[near, far]` into `count`
/// slices spaced as `mode` says.
pub open spec fn is_spaced(bounds: Seq<u32>, mode: SliceMode, near: int, far: int, count: int) -> bool {
    &&& bounds.len() == count + 1
    &&& mode == SliceMode::Linear ==> forall|k: int|
        0 <= k <= count ==> #[trigger] bounds[k] == linear_bound(near, far, count, k)
    &&& mode == SliceMode::Exponential ==> forall|k: int|
        0 <= k <= count ==> is_exponential_bound(near, far, count, k, #[trigger] bounds[k] as int)
}

/// Whether every bound is at most the next one.
pub open spec fn nondecreasing(bounds: Seq<u32>) -> bool {
    forall|i: int, j: int| 0 <= i <= j < bounds.len() ==> bounds[i] <= bounds[j]
}

/// A validated table of slice bounds.
#[derive(Clone, Debug)]
pub struct DepthSlices {
    mode: SliceMode,
    bounds: Vec<u32>,
}

impl DepthSlices {
    /// The table: the lower bound of each slice, then the far depth.
    pub closed spec fn bounds(&self) -> Seq<u32> {
        self.bounds@
    }

    /// The spacing the table was built for.
    pub closed spec fn mode(&self) -> SliceMode {
        self.mode
    }

    /// The number of slices.
    pub open spec fn count(&self) -> int {
        self.bounds().len() - 1
    }

    /// The depth at which the first slice starts.
    pub open spec fn near(&self) -> int {
        self.bounds()[0] as int
    }

    /// The depth at which the last slice ends.
    pub open spec fn far(&self) -> int {
        self.bounds()[self.count()] as int
    }

    /// A table holds between one and `MAX_DIMENSION` slices over a
    /// non-empty depth range, and its bounds never decrease.
    pub open spec fn wf(&self) -> bool {
        &&& 1 <= self.count() <= MAX_DIMENSION
        &&& nondecreasing(self.bounds())
        &&& self.near() < self.far()
    }

    /// The slice that holds `depth`.
    pub open spec fn slice_of(&self, depth: int) -> int {
        slice_index(self.bounds(), depth)
    }

    /// Cuts `[near, far]` into `count` slices of equal depth.
    ///
    /// `None` when the range is empty or `count` is out of range.
    pub fn linear(near: u32, far: u32, count: u32) -> (slices: Option<DepthSlices>)
        ensures
            slices is Some <==> near < far && 1 <= count <= MAX_DIMENSION,
            slices matches Some(s) ==> {
                &&& s.wf()
                &&& s.mode() == SliceMode::Linear
                &&& s.count() == count
                &&& forall|k: int|
                    0 <= k <= count ==> #[trigger] s.bounds()[k] == linear_bound(
                        near as int,
                        far as int,
                        count as int,
                        k,
                    )
            },
    {
        if near >= far || count < 1 || count > MAX_DIMENSION {
            return None;
        }
        let span: u64 = (far - near) as u64;
        let n: u64 = count as u64;
        let mut bounds: Vec<u32> = Vec::new();
        let mut k: u64 = 0;
        while k <= n
            invariant
                0 <= k <= n + 1,
                n == count,
                1 <= count <= MAX_DIMENSION,
                near < far,
                span == far - near,
                bounds@.len() == k,
                forall|j: int|
                    0 <= j < k ==> #[trigger] bounds@[j] == linear_bound(
                        near as int,
                        far as int,
                        count as int,
                        j,
                    ),
            decreases n + 1 - k,
        {
            proof {
                lemma_linear_bound_range(near as int, far as int, count as int, k as int);
            }
            assert(k * span <= 0x400 * 0xffff_ffff) by (nonlinear_arith)
                requires
                    k <= 0x400,
                    span <= 0xffff_ffff,
            ;
            let scaled: u64 = k * span;
            let step: u64 = if scaled == 0 {
                0
            } else {
                (scaled - 1) / n + 1
            };
            proof {
                lemma_ceil_div_nonnegative(scaled as int, n as int);
            }
            bounds.push(near + (step as u32));
            k += 1;
        }
        proof {
            lemma_linear_bound_range(near as int, far as int, count as int, 0);
            lemma_linear_bound_range(near as int, far as int, count as int, count as int);
            assert forall|i: int, j: int| 0 <= i <= j < bounds@.len() implies bounds@[i]
                <= bounds@[j] by {
                lemma_linear_bound_monotonic(near as int, far as int, count as int, i, j);
            }
        }
        Some(DepthSlices { mode: SliceMode::Linear, bounds })
    }

    /// Cuts `[near, far]` into `count` slices, each deeper than the one
    /// before it by the same factor.  A depth `z` falls into the slice
    /// `floor(count * log(z / near) / log(far / near))`, which is the
    /// largest `k` with `far^k * near^(count - k) <= z^count`.
    ///
    /// `None` when the range is empty, starts at depth zero, or `count` is
    /// out of range.  The cost grows with the cube of `count`.
    pub fn exponential(near: u32, far: u32, count: u32) -> (slices: Option<DepthSlices>)
        ensures
            slices is Some <==> 1 <= near < far && 1 <= count <= MAX_DIMENSION,
            slices matches Some(s) ==> {
                &&& s.wf()
                &&& s.mode() == SliceMode::Exponential
                &&& s.count() == count
                &&& forall|k: int|
                    0 <= k <= count ==> is_exponential_bound(
                        near as int,
                        far as int,
                        count as int,
                        k,
                        #[trigger] s.bounds()[k] as int,
                    )
            },
    {
        if near < 1 || near >= far || count < 1 || count > MAX_DIMENSION {
            return None;
        }
        let mut bounds: Vec<u32> = Vec::new();
        let mut k: u32 = 0;
        while k <= count
            invariant
                0 <= k <= count + 1,
                1 <= near < far,
                1 <= count <= MAX_DIMENSION,
                bounds@.len() == k,
                forall|j: int|
                    0 <= j < k ==> is_exponential_bound(
                        near as int,
                        far as int,
                        count as int,
                        j,
                        #[trigger] bounds@[j] as int,
                    ),
            decreases count + 1 - k,
        {
            let target = BigNat::power_product(far, k, near, count - k);
            let ghost goal = exponential_threshold(near as int, far as int, count as int, k as int);
            let mut lo: u32 = near - 1;
            let mut hi: u32 = far;
            proof {
                lemma_threshold_range(near as int, far as int, count as int, k as int);
            }
            while hi - lo > 1
                invariant
                    near - 1 <= lo < hi <= far,
                    1 <= near,
                    0 <= k <= count,
                    1 <= count <= MAX_DIMENSION,
                    target.value() == goal,
                    target.width() == count + 1,
                    pow(hi as int, count as nat) >= goal,
                    lo >= near ==> pow(lo as int, count as nat) < goal,
                decreases hi - lo,
            {
                let mid: u32 = lo + (hi - lo) / 2;
                let power = BigNat::power_product(mid, count, 1, 0);
                proof {
                    lemma_pow0(1);
                }
                if power.at_least(&target) {
                    hi = mid;
                } else {
                    lo = mid;
                }
            }
            bounds.push(hi);
            k += 1;
        }
        proof {
            assert forall|i: int, j: int| 0 <= i <= j < bounds@.len() implies bounds@[i]
                <= bounds@[j] by {
                lemma_exponential_bounds_ordered(
                    near as int,
                    far as int,
                    count as int,
                    i,
                    j,
                    bounds@[i] as int,
                    bounds@[j] as int,
                );
            }
            lemma_exponential_bound_ends(
                near as int,
                far as int,
                count as int,
                bounds@[0] as int,
                bounds@[count as int] as int,
            );
        }
        Some(DepthSlices { mode: SliceMode::Exponential, bounds })
    }

    /// Takes a table of bounds computed elsewhere.
    ///
    /// `None` unless the table holds between one and `MAX_DIMENSION` slices,
    /// never decreases and ends past its start.
    pub fn from_bounds(mode: SliceMode, bounds: Vec<u32>) -> (slices: Option<DepthSlices>)
        ensures
            slices is Some <==> {
                &&& 2 <= bounds@.len() <= MAX_DIMENSION + 1
                &&& nondecreasing(bounds@)
                &&& bounds@[0] < bounds@[bounds@.len() - 1]
            },
            slices matches Some(s) ==> s.wf() && s.mode() == mode && s.bounds() == bounds@,
    {
        let len: usize = bounds.len();
        if len < 2 || len > (MAX_DIMENSION as usize) + 1 {
            return None;
        }
        let mut i: usize = 1;
        while i < len
            invariant
                1 <= i <= len,
                len == bounds@.len(),
                forall|a: int, b: int| 0 <= a <= b < i ==> bounds@[a] <= bounds@[b],
            decreases len - i,
        {
            if bounds[i - 1] > bounds[i] {
                return None;
            }
            i += 1;
        }
        if bounds[0] >= bounds[len - 1] {
            return None;
        }
        Some(DepthSlices { mode, bounds })
    }

    /// The number of slices.
    pub fn slice_count(&self) -> (count: u32)
        requires
            self.wf(),
        ensures
            count == self.count(),
    {
        (self.bounds.len() - 1) as u32
    }

    /// The spacing the table was built for.
    pub fn slice_mode(&self) -> (mode: SliceMode)
        ensures
            mode == self.mode(),
    {
        self.mode
    }

    /// The table of bounds.
    pub fn table(&self) -> (bounds: &Vec<u32>)
        ensures
            bounds@ == self.bounds(),
    {
        &self.bounds
    }

    /// Finds the slice that holds `depth`.
    pub fn find_slice(&self, depth: i64) -> (slice: u32)
        requires
            self.wf(),
        ensures
            slice == self.slice_of(depth as int),
            slice < self.count(),
    {
        let mut k: usize = self.bounds.len() - 2;
        while k > 0 && (self.bounds[k] as i64) > depth
            invariant
                0 <= k <= self.bounds@.len() - 2,
                self.wf(),
                slice_from(self.bounds@, depth as int, k as int) == slice_index(
                    self.bounds@,
                    depth as int,
                ),
            decreases k,
        {
            k -= 1;
        }
        k as u32
    }
}

/// The ceiling of a non-negative quotient, as unsigned division computes
/// it.
pub proof fn lemma_ceil_div_nonnegative(a: int, b: int)
    requires
        a >= 0,
        b > 0,
    ensures
        ceil_div_int(a, b) == if a == 0 {
            0
        } else {
            (a - 1) / b + 1
        },
        0 <= ceil_div_int(a, b) <= a,
{
    if a == 0 {
        assert(0int / b == 0) by (nonlinear_arith)
            requires
                b > 0,
        ;
    } else {
        crate::numeric::lemma_floor_div_negative(-a, b);
        lemma_quotient_magnitude(a - 1, b);
    }
}

/// A linear bound lies between the near and the far depth, and the first
/// and last bounds are those depths.
pub proof fn lemma_linear_bound_range(near: int, far: int, count: int, k: int)
    requires
        near < far,
        0 <= k <= count,
        1 <= count,
    ensures
        near <= linear_bound(near, far, count, k) <= far,
        k == 0 ==> linear_bound(near, far, count, k) == near,
        k == count ==> linear_bound(near, far, count, k) == far,
{
    let span = far - near;
    let a = k * span;
    assert(0 <= a <= count * span) by (nonlinear_arith)
        requires
            a == k * span,
            0 <= k <= count,
            span > 0,
    ;
    lemma_ceil_well_placed(a, count);
    let q = ceil_div_int(a, count);
    assert(q <= span) by (nonlinear_arith)
        requires
            (q - 1) * count < a,
            a <= count * span,
            count >= 1,
    ;
    assert(q >= 0) by (nonlinear_arith)
        requires
            q * count >= a,
            a >= 0,
            count >= 1,
    ;
    if k == 0 {
        assert(q == 0) by (nonlinear_arith)
            requires
                (q - 1) * count < a,
                a == 0,
                q >= 0,
                count >= 1,
        ;
    }
    if k == count {
        assert(q == span) by (nonlinear_arith)
            requires
                q * count >= a,
                a == count * span,
                q <= span,
                count >= 1,
        ;
    }
}

/// The ceiling `q` of `a / b` is the least integer with `q * b >= a`.
pub proof fn lemma_ceil_well_placed(a: int, b: int)
    requires
        b > 0,
    ensures
        ceil_div_int(a, b) * b >= a,
        (ceil_div_int(a, b) - 1) * b < a,
{
    let na = -a;
    vstd::arithmetic::div_mod::lemma_fundamental_div_mod(na, b);
    vstd::arithmetic::div_mod::lemma_mod_bound(na, b);
    assert((-(na / b)) * b >= a && (-(na / b) - 1) * b < a) by (nonlinear_arith)
        requires
            na == b * (na / b) + na % b,
            0 <= na % b < b,
            na == -a,
    ;
}

/// Linear bounds never decrease.
pub proof fn lemma_linear_bound_monotonic(near: int, far: int, count: int, i: int, j: int)
    requires
        near < far,
        1 <= count,
        0 <= i <= j <= count,
    ensures
        linear_bound(near, far, count, i) <= linear_bound(near, far, count, j),
{
    let span = far - near;
    let a = i * span;
    let b = j * span;
    assert(a <= b) by (nonlinear_arith)
        requires
            a == i * span,
            b == j * span,
            i <= j,
            span > 0,
    ;
    lemma_ceil_well_placed(a, count);
    lemma_ceil_well_placed(b, count);
    let qa = ceil_div_int(a, count);
    let qb = ceil_div_int(b, count);
    assert(qa <= qb) by (nonlinear_arith)
        requires
            (qa - 1) * count < a,
            qb * count >= b,
            a <= b,
            count >= 1,
    ;
}

/// The threshold of every exponential slice lies between `near^count` and
/// `far^count`, and thresholds never decrease from one slice to the next.
pub proof fn lemma_threshold_range(near: int, far: int, count: int, k: int)
    requires
        1 <= near <= far,
        0 <= k <= count,
    ensures
        pow(near, count as nat) <= exponential_threshold(near, far, count, k) <= pow(
            far,
            count as nat,
        ),
        k < count ==> exponential_threshold(near, far, count, k) <= exponential_threshold(
            near,
            far,
            count,
            k + 1,
        ),
        exponential_threshold(near, far, count, 0) == pow(near, count as nat),
        exponential_threshold(near, far, count, count) == pow(far, count as nat),
{
    let head = k as nat;
    let tail = (count - k) as nat;
    lemma_pow_adds(far, head, tail);
    lemma_pow_adds(near, head, tail);
    lemma_pow_base_monotonic(near, far, head);
    lemma_pow_base_monotonic(near, far, tail);
    lemma_pow_positive(near, head);
    lemma_pow_positive(near, tail);
    let fh = pow(far, head);
    let nh = pow(near, head);
    let ft = pow(far, tail);
    let nt = pow(near, tail);
    assert(nh * nt <= fh * nt <= fh * ft) by (nonlinear_arith)
        requires
            0 < nh <= fh,
            0 < nt <= ft,
    ;
    if k < count {
        let rest = (count - k - 1) as nat;
        lemma_pow_step(near, rest);
        lemma_pow_step(far, head);
        lemma_pow_positive(near, rest);
        let nr = pow(near, rest);
        assert(fh * (nr * near) <= (fh * far) * nr) by (nonlinear_arith)
            requires
                0 < fh,
                0 < nr,
                0 < near <= far,
        ;
    }
    lemma_pow0(far);
    lemma_pow0(near);
    assert(1 * pow(near, count as nat) == pow(near, count as nat));
    assert(pow(far, count as nat) * 1 == pow(far, count as nat));
}

/// Thresholds never decrease over any number of slices.
pub proof fn lemma_threshold_monotonic(near: int, far: int, count: int, i: int, j: int)
    requires
        1 <= near <= far,
        0 <= i <= j <= count,
    ensures
        exponential_threshold(near, far, count, i) <= exponential_threshold(near, far, count, j),
    decreases j - i,
{
    if i < j {
        lemma_threshold_range(near, far, count, i);
        lemma_threshold_monotonic(near, far, count, i + 1, j);
    }
}

/// The first whole depths of exponential slices come in the order of the
/// slices.
pub proof fn lemma_exponential_bounds_ordered(
    near: int,
    far: int,
    count: int,
    i: int,
    j: int,
    first: int,
    second: int,
)
    requires
        1 <= near <= far,
        0 <= i <= j <= count,
        is_exponential_bound(near, far, count, i, first),
        is_exponential_bound(near, far, count, j, second),
    ensures
        first <= second,
{
    if second < first {
        lemma_threshold_monotonic(near, far, count, i, j);
        lemma_pow_base_monotonic(second, first - 1, count as nat);
    }
}

/// The first exponential slice starts at the near depth and the bound
/// after the last one is the far depth.
pub proof fn lemma_exponential_bound_ends(near: int, far: int, count: int, first: int, last: int)
    requires
        1 <= near <= far,
        1 <= count,
        is_exponential_bound(near, far, count, 0, first),
        is_exponential_bound(near, far, count, count, last),
    ensures
        first == near,
        last == far,
{
    lemma_threshold_range(near, far, count, 0);
    if first > near {
        lemma_pow_base_monotonic(near, first - 1, count as nat);
    }
    if last < far {
        lemma_pow_base_strictly_monotonic(last, far, count as nat);
    }
}

/// In a table that never decreases, a depth falls into slice `k` or a later
/// one exactly when it has reached the bound of slice `k`.
pub proof fn lemma_slice_reaches(bounds: Seq<u32>, depth: int, k: int)
    requires
        nondecreasing(bounds),
        1 <= k <= bounds.len() - 2,
    ensures
        slice_index(bounds, depth) >= k <==> bounds[k] <= depth,
{
    lemma_slice_from_reaches(bounds, depth, bounds.len() - 2, k);
}

proof fn lemma_slice_from_reaches(bounds: Seq<u32>, depth: int, top: int, k: int)
    requires
        nondecreasing(bounds),
        1 <= k <= top <= bounds.len() - 1,
    ensures
        slice_from(bounds, depth, top) >= k <==> bounds[k] <= depth,
        0 <= slice_from(bounds, depth, top) <= top,
    decreases top,
{
    if bounds[top] <= depth {
    } else if top > k {
        lemma_slice_from_reaches(bounds, depth, top - 1, k);
    } else {
        lemma_slice_from_range(bounds, depth, top - 1);
    }
}

/// A slice index found below `top` is between `0` and `top`.
pub proof fn lemma_slice_from_range(bounds: Seq<u32>, depth: int, top: int)
    ensures
        0 <= slice_from(bounds, depth, top) <= if top < 0 {
            0
        } else {
            top
        },
    decreases top,
{
    if top > 0 {
        lemma_slice_from_range(bounds, depth, top - 1);
    }
}

/// A deeper point never falls into an earlier slice.
pub proof fn lemma_slice_monotonic(bounds: Seq<u32>, nearer: int, farther: int)
    requires
        nearer <= farther,
    ensures
        slice_index(bounds, nearer) <= slice_index(bounds, farther),
{
    lemma_slice_from_monotonic(bounds, nearer, farther, bounds.len() - 2);
}

proof fn lemma_slice_from_monotonic(bounds: Seq<u32>, nearer: int, farther: int, top: int)
    requires
        nearer <= farther,
    ensures
        slice_from(bounds, nearer, top) <= slice_from(bounds, farther, top),
    decreases top,
{
    if top > 0 {
        lemma_slice_from_monotonic(bounds, nearer, farther, top - 1);
        lemma_slice_from_range(bounds, nearer, top - 1);
    }
}

/// A quotient rounded up is at most `m` exactly when the numerator is at
/// most `m` times the divisor.
pub proof fn lemma_ceil_at_most(a: int, b: int, m: int)
    requires
        b > 0,
    ensures
        ceil_div_int(a, b) <= m <==> a <= m * b,
{
    lemma_ceil_well_placed(a, b);
    let q = ceil_div_int(a, b);
    assert(q <= m ==> a <= m * b) by (nonlinear_arith)
        requires
            q * b >= a,
            (q - 1) * b < a,
            b > 0,
    {
        if q <= m {
            assert(q * b <= m * b);
        }
    }
    assert(a <= m * b ==> q <= m) by (nonlinear_arith)
        requires
            (q - 1) * b < a,
            b > 0,
    {
        if a <= m * b && q > m {
            assert((q - 1) * b >= m * b);
        }
    }
}

/// A quotient rounded down is at least `k` exactly when the numerator is
/// at least `k` times the divisor.
pub proof fn lemma_floor_at_least(a: int, b: int, k: int)
    requires
        b > 0,
    ensures
        k <= a / b <==> k * b <= a,
{
    vstd::arithmetic::div_mod::lemma_fundamental_div_mod(a, b);
    vstd::arithmetic::div_mod::lemma_mod_bound(a, b);
    let q = a / b;
    let r = a % b;
    assert(k <= q ==> k * b <= a) by (nonlinear_arith)
        requires
            a == b * q + r,
            0 <= r < b,
    {
        if k <= q {
            assert(k * b <= q * b);
        }
    }
    assert(k * b <= a ==> k <= q) by (nonlinear_arith)
        requires
            a == b * q + r,
            0 <= r < b,
    {
        if k * b <= a && k > q {
            assert(k * b >= (q + 1) * b);
        }
    }
}

/// A table of linear slices never decreases.
pub proof fn lemma_linear_table_nondecreasing(bounds: Seq<u32>, near: int, far: int, count: int)
    requires
        near < far,
        1 <= count,
        is_spaced(bounds, SliceMode::Linear, near, far, count),
    ensures
        nondecreasing(bounds),
{
    assert forall|i: int, j: int| 0 <= i <= j < bounds.len() implies bounds[i] <= bounds[j] by {
        lemma_linear_bound_monotonic(near, far, count, i, j);
    }
}

/// In a table of linear slices a depth falls into slice `k` or a later one
/// exactly when `k <= count * (depth - near) / (far - near)`.
pub proof fn lemma_linear_slice_reaches(
    bounds: Seq<u32>,
    near: int,
    far: int,
    count: int,
    depth: int,
    k: int,
)
    requires
        near < far,
        1 <= k <= count - 1,
        is_spaced(bounds, SliceMode::Linear, near, far, count),
    ensures
        slice_index(bounds, depth) >= k <==> k <= (count * (depth - near)) / (far - near),
{
    let span = far - near;
    lemma_linear_table_nondecreasing(bounds, near, far, count);
    lemma_slice_reaches(bounds, depth, k);
    assert(bounds[k] == linear_bound(near, far, count, k));
    lemma_ceil_at_most(k * span, count, depth - near);
    lemma_floor_at_least(count * (depth - near), span, k);
    assert((depth - near) * count == count * (depth - near)) by (nonlinear_arith);
}

/// In a table of linear slices a depth falls into the slice
/// `floor(count * (depth - near) / (far - near))`, limited to the slices
/// there are.
pub proof fn lemma_linear_slice_formula(
    bounds: Seq<u32>,
    near: int,
    far: int,
    count: int,
    depth: int,
)
    requires
        near < far,
        1 <= count,
        is_spaced(bounds, SliceMode::Linear, near, far, count),
    ensures
        slice_index(bounds, depth) == clamp_int(
            (count * (depth - near)) / (far - near),
            0,
            count - 1,
        ),
{
    let quotient = (count * (depth - near)) / (far - near);
    let wanted = clamp_int(quotient, 0, count - 1);
    let found = slice_index(bounds, depth);
    lemma_slice_from_range(bounds, depth, bounds.len() - 2);
    if wanted >= 1 {
        lemma_linear_slice_reaches(bounds, near, far, count, depth, wanted);
    }
    if found >= 1 {
        lemma_linear_slice_reaches(bounds, near, far, count, depth, found);
    }
}

/// A table of exponential slices never decreases.
pub proof fn lemma_exponential_table_nondecreasing(
    bounds: Seq<u32>,
    near: int,
    far: int,
    count: int,
)
    requires
        1 <= near <= far,
        1 <= count,
        is_spaced(bounds, SliceMode::Exponential, near, far, count),
    ensures
        nondecreasing(bounds),
{
    assert forall|i: int, j: int| 0 <= i <= j < bounds.len() implies bounds[i] <= bounds[j] by {
        lemma_exponential_bounds_ordered(
            near,
            far,
            count,
            i,
            j,
            bounds[i] as int,
            bounds[j] as int,
        );
    }
}

/// In a table of exponential slices a depth falls into slice `k` or a
/// later one exactly when `(depth / near)^count >= (far / near)^k`, which is
/// when `count * log(depth / near) / log(far / near) >= k`.
pub proof fn lemma_exponential_slice_formula(
    bounds: Seq<u32>,
    near: int,
    far: int,
    count: int,
    depth: int,
    k: int,
)
    requires
        1 <= near < far,
        1 <= k <= count - 1,
        0 <= depth,
        is_spaced(bounds, SliceMode::Exponential, near, far, count),
    ensures
        slice_index(bounds, depth) >= k <==> pow(depth, count as nat) >= pow(far, k as nat) * pow(
            near,
            (count - k) as nat,
        ),
{
    lemma_exponential_table_nondecreasing(bounds, near, far, count);
    lemma_slice_reaches(bounds, depth, k);
    let bound = bounds[k] as int;
    assert(is_exponential_bound(near, far, count, k, bound));
    if bound <= depth {
        lemma_pow_base_monotonic(bound, depth, count as nat);
    } else {
        lemma_threshold_range(near, far, count, k);
        if depth < near {
            lemma_pow_base_strictly_monotonic(depth, near, count as nat);
        } else {
            lemma_pow_base_monotonic(depth, bound - 1, count as nat);
        }
    }
}

} // verus!
