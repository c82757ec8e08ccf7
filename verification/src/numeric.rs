//! Integer helpers shared by the geometry: rounding division, clamping and
//! an exact integer square root.

use vstd::prelude::*;

verus! {

/// `value` limited to the closed range `[lo, hi]`.
pub open spec fn clamp_int(value: int, lo: int, hi: int) -> int {
    if value < lo {
        lo
    } else if value > hi {
        hi
    } else {
        value
    }
}

/// The smaller of two integers.
pub open spec fn min_int(a: int, b: int) -> int {
    if a <= b {
        a
    } else {
        b
    }
}

/// The larger of two integers.
pub open spec fn max_int(a: int, b: int) -> int {
    if a >= b {
        a
    } else {
        b
    }
}

/// `a / b` rounded up, for `b > 0`: the least `q` with `q * b >= a`.
pub open spec fn ceil_div_int(a: int, b: int) -> int {
    -((-a) / b)
}

/// Whether `root` is the integer square root of `n`: the largest integer
/// whose square does not exceed `n`.
pub open spec fn is_isqrt(n: int, root: int) -> bool {
    &&& 0 <= root
    &&& root * root <= n
    &&& n < (root + 1) * (root + 1)
}

/// `a / b` rounded toward negative infinity.
pub fn div_floor(a: i128, b: i128) -> (q: i128)
    requires
        b > 0,
    ensures
        q == a / b,
{
    if a >= 0 {
        a / b
    } else {
        let n: i128 = -(a + 1);
        let m: i128 = n / b;
        proof {
            lemma_floor_div_negative(a as int, b as int);
        }
        -m - 1
    }
}

/// Floor division of a negative numerator, stated over a non-negative one.
pub proof fn lemma_floor_div_negative(a: int, b: int)
    requires
        a < 0,
        b > 0,
    ensures
        a / b == -((-(a + 1)) / b) - 1,
{
    let n = -(a + 1);
    let m = n / b;
    let r = n % b;
    vstd::arithmetic::div_mod::lemma_fundamental_div_mod(n, b);
    vstd::arithmetic::div_mod::lemma_mod_bound(n, b);
    // n == b * m + r, so a == -n - 1 == b * (-m - 1) + (b - 1 - r)
    assert(a == b * (-m - 1) + (b - 1 - r)) by (nonlinear_arith)
        requires
            n == b * m + r,
            a == -n - 1,
    ;
    vstd::arithmetic::div_mod::lemma_fundamental_div_mod_converse(a, b, -m - 1, b - 1 - r);
}

/// `a / b` rounded toward positive infinity.
pub fn div_ceil(a: i128, b: i128) -> (q: i128)
    requires
        b > 0,
        a > i128::MIN,
    ensures
        q == ceil_div_int(a as int, b as int),
        q * b >= a,
        (q - 1) * b < a,
{
    let f: i128 = div_floor(-a, b);
    proof {
        let na = -(a as int);
        let bi = b as int;
        vstd::arithmetic::div_mod::lemma_fundamental_div_mod(na, bi);
        vstd::arithmetic::div_mod::lemma_mod_bound(na, bi);
        assert((-(na / bi)) * bi >= a && (-(na / bi) - 1) * bi < a) by (nonlinear_arith)
            requires
                na == bi * (na / bi) + na % bi,
                0 <= na % bi < bi,
                na == -a,
        ;
        lemma_quotient_magnitude(na, bi);
    }
    -f
}

/// A quotient by a positive divisor is no larger in magnitude than the
/// numerator.
pub proof fn lemma_quotient_magnitude(a: int, b: int)
    requires
        b > 0,
    ensures
        a >= 0 ==> 0 <= a / b <= a,
        a < 0 ==> a <= a / b < 0,
{
    vstd::arithmetic::div_mod::lemma_fundamental_div_mod(a, b);
    vstd::arithmetic::div_mod::lemma_mod_bound(a, b);
    let q = a / b;
    let r = a % b;
    assert((a >= 0 ==> 0 <= q <= a) && (a < 0 ==> a <= q < 0)) by (nonlinear_arith)
        requires
            a == b * q + r,
            0 <= r < b,
            b > 0,
    ;
}

/// The integer square root of `n`.
pub fn isqrt(n: u128) -> (root: u128)
    ensures
        is_isqrt(n as int, root as int),
        root < 0x1_0000_0000_0000_0000,
{
    let mut lo: u128 = 0;
    let mut hi: u128 = 0x1_0000_0000_0000_0000;
    assert(n < hi * hi) by (nonlinear_arith)
        requires
            hi == 0x1_0000_0000_0000_0000u128,
            n <= u128::MAX,
    ;
    while hi - lo > 1
        invariant
            lo < hi <= 0x1_0000_0000_0000_0000,
            lo * lo <= n,
            n < hi * hi,
        decreases hi - lo,
    {
        let mid: u128 = lo + (hi - lo) / 2;
        assert(mid * mid <= u128::MAX) by (nonlinear_arith)
            requires
                mid < 0x1_0000_0000_0000_0000u128,
        ;
        if mid * mid <= n {
            lo = mid;
        } else {
            hi = mid;
        }
    }
    lo
}

} // verus!
