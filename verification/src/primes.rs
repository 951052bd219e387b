//! The prime subsystem: generation of primes and safe primes of a requested
//! bit size, and probabilistic primality testing, delegated to the prime
//! oracle.  Only what holds of every outcome is stated: the oracle's
//! verdicts are probabilistic.

use crate::backend::{bi_prime_new, bi_safe_prime_new, bi_strong_check};
use crate::bn::Bn;
use crate::math::{abs_i, bit_len};
use vstd::prelude::*;

verus! {

impl Bn {
    /// Generates a random probable prime with exactly `size` bits; the
    /// oracle accepts sizes of 128 bits and up.  Generation failure is
    /// fatal, not a recoverable result.
    pub fn prime(size: usize) -> (r: Self)
        requires
            size >= 128,
        ensures
            r@ > 0,
            bit_len(abs_i(r@)) == size,
            r@ % 2 == 1,
    {
        Bn { v: bi_prime_new(size) }
    }

    /// Generates a random probable safe prime (`(p - 1) / 2` prime as
    /// well) with exactly `size` bits; the oracle accepts sizes of 128 bits
    /// and up.  Generation failure is fatal, not a recoverable result.
    pub fn safe_prime(size: usize) -> (r: Self)
        requires
            size >= 128,
        ensures
            r@ > 0,
            bit_len(abs_i(r@)) == size,
            r@ % 2 == 1,
            r@ % 3 == 2,
    {
        Bn { v: bi_safe_prime_new(size) }
    }

    /// Tests whether this value is probably prime with the oracle's strong
    /// check.  Values that are not positive are never prime; one and even
    /// values above two are rejected before any random choice.  The
    /// oracle's check does not accept the value two.
    pub fn is_prime(&self) -> (r: bool)
        requires
            self@ != 2,
        ensures
            self@ <= 0 ==> !r,
            self@ == 1 ==> !r,
            self@ > 2 && self@ % 2 == 0 ==> !r,
    {
        let zero = Bn::zero();
        if !zero.lt(self) {
            false
        } else {
            bi_strong_check(&self.v)
        }
    }
}

} // verus!
