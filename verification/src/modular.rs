//! The modular arithmetic suite: sums, differences, products and quotients
//! reduced by a modulus and corrected into the canonical residue, and
//! modular exponentiation with the backend's power ladder.

use crate::backend::bi_modpow;
use crate::bn::Bn;
use crate::euclid::invert_spec;
use crate::math::{abs_i, lemma_norm_rem_is_mod, norm_rem};
use vstd::arithmetic::div_mod::{lemma_fundamental_div_mod, lemma_mod_division_less_than_divisor};
use vstd::arithmetic::power::pow;
use vstd::prelude::*;

verus! {

/// What `modpow` returns: the modulus is taken by magnitude; a negative
/// exponent goes through inversion first and yields zero where no inverse
/// exists.
pub open spec fn modpow_spec(a: int, e: int, n: int) -> int {
    let m = abs_i(n) as int;
    if e >= 0 {
        pow(a, e as nat) % m
    } else {
        match invert_spec(a, m) {
            None => 0,
            Some(v) => pow(v, abs_i(e)) % m,
        }
    }
}

/// A negative exponent raises the modular inverse to the positive
/// exponent; without an inverse the result is zero, not an error.
pub proof fn lemma_modpow_negative_exponent(a: int, e: int, n: int)
    requires
        e > 0,
    ensures
        invert_spec(a, abs_i(n) as int) matches Some(v) ==> modpow_spec(a, -e, n) == modpow_spec(
            v,
            e,
            n,
        ),
        invert_spec(a, abs_i(n) as int) is None ==> modpow_spec(a, -e, n) == 0,
{
}

/// For a positive modulus the corrected sum differs from the plain sum by a
/// multiple of the modulus, and lies in the canonical range `[0, n)`.
pub proof fn lemma_modadd_residue(a: int, b: int, n: int)
    requires
        n > 0,
    ensures
        exists|k: int| norm_rem(a + b, n) + #[trigger] (k * n) == a + b,
        0 <= norm_rem(a + b, n) < n,
{
    lemma_norm_rem_is_mod(a + b, n);
    lemma_fundamental_div_mod(a + b, n);
    let k = (a + b) / n;
    assert(norm_rem(a + b, n) + k * n == a + b) by (nonlinear_arith)
        requires
            norm_rem(a + b, n) == (a + b) % n,
            a + b == n * ((a + b) / n) + (a + b) % n,
            k == (a + b) / n,
    ;
}

impl Bn {
    /// Computes `(self + rhs) mod n` with the truncating remainder, adding
    /// `n` once if the intermediate result is negative; for `n > 0` this is
    /// the canonical residue of the sum.
    pub fn modadd(&self, rhs: &Self, n: &Self) -> (r: Self)
        requires
            n@ != 0,
        ensures
            r@ == norm_rem(self@ + rhs@, n@),
            n@ > 0 ==> r@ == (self@ + rhs@) % n@ && 0 <= r@ < n@,
    {
        proof {
            if n@ > 0 {
                lemma_norm_rem_is_mod(self@ + rhs@, n@);
            }
        }
        let zero = Bn::zero();
        let s = self.add(rhs);
        let t = s.rem(n);
        if t.lt(&zero) {
            t.add(n)
        } else {
            t
        }
    }

    /// Computes `(self - rhs) mod n`, corrected as `modadd` is.
    pub fn modsub(&self, rhs: &Self, n: &Self) -> (r: Self)
        requires
            n@ != 0,
        ensures
            r@ == norm_rem(self@ - rhs@, n@),
            n@ > 0 ==> r@ == (self@ - rhs@) % n@ && 0 <= r@ < n@,
    {
        proof {
            if n@ > 0 {
                lemma_norm_rem_is_mod(self@ - rhs@, n@);
            }
        }
        let zero = Bn::zero();
        let s = self.sub(rhs);
        let t = s.rem(n);
        if t.lt(&zero) {
            t.add(n)
        } else {
            t
        }
    }

    /// Computes `(self * rhs) mod n`, corrected as `modadd` is.
    pub fn modmul(&self, rhs: &Self, n: &Self) -> (r: Self)
        requires
            n@ != 0,
        ensures
            r@ == norm_rem(self@ * rhs@, n@),
            n@ > 0 ==> r@ == (self@ * rhs@) % n@ && 0 <= r@ < n@,
    {
        proof {
            if n@ > 0 {
                lemma_norm_rem_is_mod(self@ * rhs@, n@);
            }
        }
        let zero = Bn::zero();
        let s = self.mul(rhs);
        let t = s.rem(n);
        if t.lt(&zero) {
            t.add(n)
        } else {
            t
        }
    }

    /// Computes `(self * rhs⁻¹) mod n`, corrected as `modadd` is.  Calling
    /// it with a divisor that has no inverse modulo `n` is misuse, which the
    /// contract rules out.
    pub fn moddiv(&self, rhs: &Self, n: &Self) -> (r: Self)
        requires
            n@ != 0,
            invert_spec(rhs@, n@) is Some,
        ensures
            r@ == norm_rem(self@ * invert_spec(rhs@, n@).unwrap(), n@),
            n@ > 0 ==> r@ == (self@ * invert_spec(rhs@, n@).unwrap()) % n@ && 0 <= r@ < n@,
    {
        proof {
            if n@ > 0 {
                lemma_norm_rem_is_mod(self@ * invert_spec(rhs@, n@).unwrap(), n@);
            }
        }
        let inv = match rhs.invert(n) {
            Some(i) => i,
            None => vstd::pervasive::unreached(),
        };
        let zero = Bn::zero();
        let s = self.mul(&inv);
        let t = s.rem(n);
        if t.lt(&zero) {
            t.add(n)
        } else {
            t
        }
    }

    /// Computes `(self ^ exponent) mod n`.  The modulus is replaced by its
    /// magnitude first.  A non-negative exponent gives the ordinary modular
    /// power, in `[0, |n|)`.  A negative exponent inverts `self` modulo
    /// `|n|` first and raises the inverse to `-exponent`; where no inverse
    /// exists the result is zero, not an error.
    pub fn modpow(&self, exponent: &Self, n: &Self) -> (r: Self)
        requires
            !(n@ == 0 && exponent@ >= 0),
        ensures
            r@ == modpow_spec(self@, exponent@, n@),
            n@ != 0 ==> 0 <= r@ < abs_i(n@) as int,
            n@ == 0 ==> r@ == 0,
    {
        proof {
            if n@ != 0 {
                let m = abs_i(n@) as int;
                if exponent@ >= 0 {
                    lemma_mod_division_less_than_divisor(pow(self@, exponent@ as nat), m);
                } else {
                    let iv = invert_spec(self@, m);
                    if iv is Some {
                        lemma_mod_division_less_than_divisor(pow(iv.unwrap(), abs_i(exponent@)), m);
                    }
                }
            }
        }
        let zero = Bn::zero();
        let nn = if n.lt(&zero) {
            n.neg()
        } else {
            n.clone()
        };
        if exponent.lt(&zero) {
            match self.invert(&nn) {
                None => Bn::zero(),
                Some(a) => {
                    let e = exponent.neg();
                    Bn { v: bi_modpow(&a.v, &e.v, &nn.v) }
                },
            }
        } else {
            Bn { v: bi_modpow(&self.v, &exponent.v, &nn.v) }
        }
    }
}

} // verus!
