//! Bounded random sampling: draw bytes from the secure source and reject
//! values at or above the bound.  The number of bytes drawn keeps every
//! candidate below the bound, so no draw is ever rejected, and no modular
//! reduction biases the distribution.

use crate::backend::{bi_bits, bi_from_bytes_be, fill_random_bytes};
use crate::bn::Bn;
use crate::math::{abs_i, be_val, bit_len, lemma_be_val_bounds, lemma_bit_len_bounds, lemma_pow2_le};
use vstd::arithmetic::div_mod::{lemma_fundamental_div_mod, lemma_mod_division_less_than_divisor};
use vstd::arithmetic::power2::pow2;
use vstd::prelude::*;

verus! {

impl Bn {
    /// Generates a uniformly distributed value in `[0, n)` from the secure
    /// random source, by drawing `(bits(n) - 1) / 8` bytes; a bound that is
    /// not positive is a caller error.
    pub fn random(n: &Self) -> (r: Self)
        requires
            n@ > 0,
            (bit_len(abs_i(n@)) - 1) / 8 <= usize::MAX,
        ensures
            0 <= r@ < n@,
    {
        let bits = bi_bits(&n.v);
        proof {
            lemma_bit_len_bounds(abs_i(n@));
            assert(bit_len(abs_i(n@)) >= 1);
        }
        let len64 = (bits - 1) / 8;
        let len = len64 as usize;
        proof {
            lemma_fundamental_div_mod(bits as int - 1, 8);
            lemma_mod_division_less_than_divisor(bits as int - 1, 8);
            assert(8 * len as int <= bits as int - 1);
        }
        let mut t: Vec<u8> = Vec::new();
        while t.len() < len
            invariant
                t@.len() <= len,
            decreases len - t@.len(),
        {
            t.push(0);
        }
        loop
            invariant
                t@.len() == len as int,
                n@ > 0,
                8 * len as int <= bit_len(abs_i(n@)) - 1,
                pow2((bit_len(abs_i(n@)) - 1) as nat) <= abs_i(n@),
            decreases 0int,
        {
            fill_random_bytes(&mut t);
            let b = Bn { v: bi_from_bytes_be(t.as_slice()) };
            proof {
                lemma_be_val_bounds(t@);
                lemma_pow2_le((8 * len) as nat, (bit_len(abs_i(n@)) - 1) as nat);
            }
            if b.lt(n) {
                return b;
            }
            proof {
                assert(false);
            }
        }
    }
}

} // verus!
