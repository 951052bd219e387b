//! The value type: one backend big integer, viewed in contracts as the
//! mathematical integer it holds, together with the operator suite.

use crate::backend::{
    bi_add, bi_clone, bi_div, bi_eq, bi_from_u64, bi_lt, bi_mul, bi_neg, bi_one, bi_rem,
    bi_set_zero, bi_shl, bi_shr, bi_sub, bi_zero, bigint_val,
};
use crate::math::{trunc_div, trunc_rem};
use num_bigint::BigInt;
use vstd::arithmetic::power2::pow2;
use vstd::prelude::*;

verus! {

/// An arbitrary-precision signed integer backed by the backend's
/// representation.  Its view is the integer it holds.
pub struct Bn {
    pub(crate) v: BigInt,
}

impl View for Bn {
    type V = int;

    open(crate) spec fn view(&self) -> int {
        bigint_val(self.v)
    }
}

impl Clone for Bn {
    fn clone(&self) -> (r: Self)
        ensures
            r@ == self@,
    {
        Bn { v: bi_clone(&self.v) }
    }
}

impl PartialEq for Bn {
    fn eq(&self, other: &Self) -> (r: bool) {
        bi_eq(&self.v, &other.v)
    }
}

impl Eq for Bn {

}

impl vstd::std_specs::cmp::PartialEqSpecImpl for Bn {
    open spec fn obeys_eq_spec() -> bool {
        true
    }

    open spec fn eq_spec(&self, other: &Self) -> bool {
        self@ == other@
    }
}

impl PartialOrd for Bn {
    fn partial_cmp(&self, other: &Self) -> (r: Option<core::cmp::Ordering>) {
        if bi_lt(&self.v, &other.v) {
            Some(core::cmp::Ordering::Less)
        } else if bi_eq(&self.v, &other.v) {
            Some(core::cmp::Ordering::Equal)
        } else {
            Some(core::cmp::Ordering::Greater)
        }
    }
}

impl vstd::std_specs::cmp::PartialOrdSpecImpl for Bn {
    open spec fn obeys_partial_cmp_spec() -> bool {
        true
    }

    open spec fn partial_cmp_spec(&self, other: &Self) -> Option<core::cmp::Ordering> {
        if self@ < other@ {
            Some(core::cmp::Ordering::Less)
        } else if self@ == other@ {
            Some(core::cmp::Ordering::Equal)
        } else {
            Some(core::cmp::Ordering::Greater)
        }
    }
}

impl Default for Bn {
    fn default() -> (r: Self)
        ensures
            r@ == 0,
    {
        Bn { v: bi_zero() }
    }
}

impl Bn {
    /// The value zero.
    pub fn zero() -> (r: Self)
        ensures
            r@ == 0,
    {
        Bn { v: bi_zero() }
    }

    /// The value one.
    pub fn one() -> (r: Self)
        ensures
            r@ == 1,
    {
        Bn { v: bi_one() }
    }

    /// Whether this value equals zero.
    pub fn is_zero(&self) -> (r: bool)
        ensures
            r == (self@ == 0),
    {
        let z = bi_zero();
        bi_eq(&self.v, &z)
    }

    /// Whether this value equals one.
    pub fn is_one(&self) -> (r: bool)
        ensures
            r == (self@ == 1),
    {
        let o = bi_one();
        bi_eq(&self.v, &o)
    }

    /// A value from an unsigned machine integer.
    pub fn from_usize(d: usize) -> (r: Self)
        ensures
            r@ == d,
    {
        Bn { v: bi_from_u64(d as u64) }
    }

    /// The sum `self + rhs`.
    pub fn add(&self, rhs: &Self) -> (r: Self)
        ensures
            r@ == self@ + rhs@,
    {
        Bn { v: bi_add(&self.v, &rhs.v) }
    }

    /// The difference `self - rhs`.
    pub fn sub(&self, rhs: &Self) -> (r: Self)
        ensures
            r@ == self@ - rhs@,
    {
        Bn { v: bi_sub(&self.v, &rhs.v) }
    }

    /// The product `self * rhs`.
    pub fn mul(&self, rhs: &Self) -> (r: Self)
        ensures
            r@ == self@ * rhs@,
    {
        Bn { v: bi_mul(&self.v, &rhs.v) }
    }

    /// The truncating quotient `self / rhs`.
    pub fn div(&self, rhs: &Self) -> (r: Self)
        requires
            rhs@ != 0,
        ensures
            r@ == trunc_div(self@, rhs@),
    {
        Bn { v: bi_div(&self.v, &rhs.v) }
    }

    /// The truncating remainder `self % rhs`.
    pub fn rem(&self, rhs: &Self) -> (r: Self)
        requires
            rhs@ != 0,
        ensures
            r@ == trunc_rem(self@, rhs@),
    {
        Bn { v: bi_rem(&self.v, &rhs.v) }
    }

    /// The negation `-self`.
    pub fn neg(&self) -> (r: Self)
        ensures
            r@ == -self@,
    {
        Bn { v: bi_neg(&self.v) }
    }

    /// The left shift `self << k`: multiplication by `2^k`.
    pub fn shl(&self, k: u32) -> (r: Self)
        ensures
            r@ == self@ * pow2(k as nat),
    {
        Bn { v: bi_shl(&self.v, k) }
    }

    /// The right shift `self >> k`: division by `2^k`, rounding down.
    pub fn shr(&self, k: u32) -> (r: Self)
        ensures
            r@ == self@ / pow2(k as nat) as int,
    {
        Bn { v: bi_shr(&self.v, k) }
    }

    /// In-place sum.
    pub fn add_assign(&mut self, rhs: &Self)
        ensures
            final(self)@ == old(self)@ + rhs@,
    {
        self.v = bi_add(&self.v, &rhs.v);
    }

    /// In-place difference.
    pub fn sub_assign(&mut self, rhs: &Self)
        ensures
            final(self)@ == old(self)@ - rhs@,
    {
        self.v = bi_sub(&self.v, &rhs.v);
    }

    /// In-place product.
    pub fn mul_assign(&mut self, rhs: &Self)
        ensures
            final(self)@ == old(self)@ * rhs@,
    {
        self.v = bi_mul(&self.v, &rhs.v);
    }

    /// In-place truncating quotient.
    pub fn div_assign(&mut self, rhs: &Self)
        requires
            rhs@ != 0,
        ensures
            final(self)@ == trunc_div(old(self)@, rhs@),
    {
        self.v = bi_div(&self.v, &rhs.v);
    }

    /// In-place truncating remainder.
    pub fn rem_assign(&mut self, rhs: &Self)
        requires
            rhs@ != 0,
        ensures
            final(self)@ == trunc_rem(old(self)@, rhs@),
    {
        self.v = bi_rem(&self.v, &rhs.v);
    }

    /// Overwrites the value with zero, for sensitive material that should
    /// not outlive its use.
    pub fn zeroize(&mut self)
        ensures
            final(self)@ == 0,
    {
        bi_set_zero(&mut self.v);
    }

    /// Whether `self < rhs`.
    pub fn lt(&self, rhs: &Self) -> (r: bool)
        ensures
            r == (self@ < rhs@),
    {
        bi_lt(&self.v, &rhs.v)
    }
}

} // verus!
