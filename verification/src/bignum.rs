//! Natural numbers of any size, enough to compare products of powers
//! exactly.

use vstd::prelude::*;
use vstd::arithmetic::power::{lemma_pow0, lemma_pow_positive, pow};

verus! {

/// The base of one limb.
pub open spec fn limb_base() -> int {
    0x1_0000_0000
}

/// The number whose base-2^32 digits are `limbs`, lowest digit first.
pub open spec fn limbs_value(limbs: Seq<u32>) -> int
    decreases limbs.len(),
{
    if limbs.len() == 0 {
        0
    } else {
        limbs_value(limbs.drop_last()) + limbs.last() * pow(limb_base(), (limbs.len() - 1) as nat)
    }
}

/// `pow(b, e + 1) == pow(b, e) * b`.
pub proof fn lemma_pow_step(b: int, e: nat)
    ensures
        pow(b, e + 1) == pow(b, e) * b,
{
    reveal(pow);
    assert(pow(b, e + 1) == b * pow(b, e));
    assert(b * pow(b, e) == pow(b, e) * b) by (nonlinear_arith);
}

/// A power grows with its base.
pub proof fn lemma_pow_base_monotonic(a: int, b: int, e: nat)
    requires
        0 <= a <= b,
    ensures
        0 <= pow(a, e) <= pow(b, e),
    decreases e,
{
    if e == 0 {
        lemma_pow0(a);
        lemma_pow0(b);
    } else {
        lemma_pow_base_monotonic(a, b, (e - 1) as nat);
        lemma_pow_step(a, (e - 1) as nat);
        lemma_pow_step(b, (e - 1) as nat);
        let pa = pow(a, (e - 1) as nat);
        let pb = pow(b, (e - 1) as nat);
        assert(0 <= pa * a <= pb * b) by (nonlinear_arith)
            requires
                0 <= pa <= pb,
                0 <= a <= b,
        ;
    }
}

/// A power of a positive base grows strictly with the base.
pub proof fn lemma_pow_base_strictly_monotonic(a: int, b: int, e: nat)
    requires
        0 <= a < b,
        e >= 1,
    ensures
        pow(a, e) < pow(b, e),
    decreases e,
{
    lemma_pow_step(a, (e - 1) as nat);
    lemma_pow_step(b, (e - 1) as nat);
    lemma_pow_base_monotonic(a, b, (e - 1) as nat);
    lemma_pow_positive(b, (e - 1) as nat);
    let pa = pow(a, (e - 1) as nat);
    let pb = pow(b, (e - 1) as nat);
    assert(pa * a < pb * b) by (nonlinear_arith)
        requires
            0 <= pa <= pb,
            0 < pb,
            0 <= a < b,
    ;
}

/// A number of `n` limbs is below `base^n`.
pub proof fn lemma_limbs_value_bound(limbs: Seq<u32>)
    ensures
        0 <= limbs_value(limbs) < pow(limb_base(), limbs.len()),
    decreases limbs.len(),
{
    if limbs.len() == 0 {
        lemma_pow0(limb_base());
    } else {
        let rest = limbs.drop_last();
        let top = limbs.last() as int;
        let weight = pow(limb_base(), rest.len());
        lemma_limbs_value_bound(rest);
        lemma_pow_step(limb_base(), rest.len());
        lemma_pow_positive(limb_base(), rest.len());
        assert(0 <= top * weight && limbs_value(rest) + top * weight < weight * limb_base())
            by (nonlinear_arith)
            requires
                0 <= top <= limb_base() - 1,
                0 <= limbs_value(rest) < weight,
        ;
    }
}

/// A natural number held as base-2^32 digits.
pub struct BigNat {
    limbs: Vec<u32>,
}

impl BigNat {
    /// The number held.
    pub closed spec fn value(&self) -> int {
        limbs_value(self.limbs@)
    }

    /// The number of digits held, leading zeros included.
    pub closed spec fn width(&self) -> nat {
        self.limbs@.len()
    }

    /// The number one, in one digit.
    pub fn one() -> (n: BigNat)
        ensures
            n.value() == 1,
            n.width() == 1,
    {
        let mut limbs: Vec<u32> = Vec::new();
        limbs.push(1);
        proof {
            lemma_pow0(limb_base());
            assert(limbs@.drop_last() =~= Seq::<u32>::empty());
            reveal_with_fuel(limbs_value, 2);
        }
        BigNat { limbs }
    }

    /// The product with a single digit, in one digit more.
    pub fn times(&self, factor: u32) -> (product: BigNat)
        ensures
            product.value() == self.value() * factor,
            product.width() == self.width() + 1,
    {
        let mut out: Vec<u32> = Vec::new();
        let mut carry: u64 = 0;
        let mut i: usize = 0;
        proof {
            lemma_pow0(limb_base());
            assert(self.limbs@.take(0) =~= Seq::<u32>::empty());
        }
        while i < self.limbs.len()
            invariant
                0 <= i <= self.limbs@.len(),
                out@.len() == i,
                carry < limb_base(),
                limbs_value(out@) + carry * pow(limb_base(), i as nat) == limbs_value(
                    self.limbs@.take(i as int),
                ) * factor,
            decreases self.limbs@.len() - i,
        {
            let digit: u64 = self.limbs[i] as u64;
            assert(digit * (factor as u64) + carry <= 0xffff_ffff_0000_0000) by (nonlinear_arith)
                requires
                    digit <= 0xffff_ffff,
                    factor <= 0xffff_ffff,
                    carry <= 0xffff_ffff,
            ;
            let total: u64 = digit * (factor as u64) + carry;
            let low: u32 = (total % 0x1_0000_0000) as u32;
            let high: u64 = total / 0x1_0000_0000;
            proof {
                let weight = pow(limb_base(), i as nat);
                let before = self.limbs@.take(i as int);
                let after = self.limbs@.take(i + 1);
                assert(after.drop_last() =~= before);
                assert(after.last() == self.limbs@[i as int]);
                assert(out@.push(low).drop_last() =~= out@);
                lemma_pow_step(limb_base(), i as nat);
                assert(limbs_value(after) == limbs_value(before) + digit * weight);
                assert(limbs_value(out@.push(low)) == limbs_value(out@) + low * weight);
                assert(total == high * limb_base() + low);
                assert(limbs_value(out@) + low * weight + high * (weight * limb_base()) == (
                limbs_value(before) + digit * weight) * factor) by (nonlinear_arith)
                    requires
                        limbs_value(out@) + carry * weight == limbs_value(before) * factor,
                        digit * factor + carry == high * limb_base() + low,
                ;
            }
            out.push(low);
            carry = high;
            i += 1;
        }
        proof {
            assert(self.limbs@.take(i as int) =~= self.limbs@);
            assert(out@.push(carry as u32).drop_last() =~= out@);
        }
        out.push(carry as u32);
        BigNat { limbs: out }
    }

    /// Whether this number is at least `other`, for numbers of one width.
    pub fn at_least(&self, other: &BigNat) -> (result: bool)
        requires
            self.width() == other.width(),
        ensures
            result == (self.value() >= other.value()),
    {
        let mut i: usize = self.limbs.len();
        proof {
            assert(self.limbs@.take(i as int) =~= self.limbs@);
            assert(other.limbs@.take(i as int) =~= other.limbs@);
        }
        while i > 0
            invariant
                0 <= i <= self.limbs@.len(),
                self.limbs@.len() == other.limbs@.len(),
                limbs_value(self.limbs@) - limbs_value(other.limbs@) == limbs_value(
                    self.limbs@.take(i as int),
                ) - limbs_value(other.limbs@.take(i as int)),
            decreases i,
        {
            i -= 1;
            let a: u32 = self.limbs[i];
            let b: u32 = other.limbs[i];
            proof {
                let mine = self.limbs@.take(i + 1);
                let theirs = other.limbs@.take(i + 1);
                assert(mine.drop_last() =~= self.limbs@.take(i as int));
                assert(theirs.drop_last() =~= other.limbs@.take(i as int));
                let weight = pow(limb_base(), i as nat);
                lemma_limbs_value_bound(mine.drop_last());
                lemma_limbs_value_bound(theirs.drop_last());
                assert(limbs_value(mine) == limbs_value(mine.drop_last()) + a * weight);
                assert(limbs_value(theirs) == limbs_value(theirs.drop_last()) + b * weight);
                if a > b {
                    assert(a * weight >= b * weight + weight) by (nonlinear_arith)
                        requires
                            a >= b + 1,
                            weight >= 0,
                    ;
                } else if a < b {
                    assert(b * weight >= a * weight + weight) by (nonlinear_arith)
                        requires
                            b >= a + 1,
                            weight >= 0,
                    ;
                }
            }
            if a > b {
                return true;
            }
            if a < b {
                return false;
            }
        }
        proof {
            assert(self.limbs@.take(0) =~= Seq::<u32>::empty());
            assert(other.limbs@.take(0) =~= Seq::<u32>::empty());
        }
        true
    }

    /// `a^i * b^j`, in `i + j + 1` digits.
    pub fn power_product(a: u32, i: u32, b: u32, j: u32) -> (product: BigNat)
        ensures
            product.value() == pow(a as int, i as nat) * pow(b as int, j as nat),
            product.width() == i + j + 1,
    {
        let mut product = BigNat::one();
        let mut done: u32 = 0;
        proof {
            lemma_pow0(a as int);
        }
        while done < i
            invariant
                0 <= done <= i,
                product.value() == pow(a as int, done as nat),
                product.width() == done + 1,
            decreases i - done,
        {
            proof {
                lemma_pow_step(a as int, done as nat);
            }
            product = product.times(a);
            done += 1;
        }
        let mut more: u32 = 0;
        proof {
            lemma_pow0(b as int);
        }
        while more < j
            invariant
                0 <= more <= j,
                done == i,
                product.value() == pow(a as int, i as nat) * pow(b as int, more as nat),
                product.width() == i + more + 1,
            decreases j - more,
        {
            proof {
                lemma_pow_step(b as int, more as nat);
                let pa = pow(a as int, i as nat);
                let pb = pow(b as int, more as nat);
                assert((pa * pb) * b == pa * (pb * b)) by (nonlinear_arith);
            }
            product = product.times(b);
            more += 1;
        }
        product
    }
}

} // verus!
