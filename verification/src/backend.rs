//! The backend contract: every call into the big-integer backend and the
//! prime/randomness oracles goes through one of the trusted items below.
//! Each wrapper's contract states, over `bigint_val`, what the backing
//! crate's source and documentation promise; the rest of the crate is
//! verified against these contracts alone.

use crate::math::{abs_i, be_val, bit_len, gcd_int, lcm_int, trunc_div, trunc_rem};
use num_bigint::BigInt;
use num_integer::Integer;
use num_traits::identities::{One, Zero};
use num_traits::Num;
use rand::RngCore;
use vstd::arithmetic::power::pow;
use vstd::arithmetic::power2::pow2;
use vstd::prelude::*;

verus! {

#[verifier::external_type_specification]
#[verifier::external_body]
pub struct ExBigInt(BigInt);

/// The integer a backend value holds: the backend representation is opaque,
/// so its mathematical value is named rather than defined.
pub uninterp spec fn bigint_val(b: BigInt) -> int;

/// The digit string `to_str_radix` writes a value as (lowercase, with a
/// leading `-` for negative values).
pub uninterp spec fn radix_str_of(v: int, radix: int) -> Seq<char>;

/// The value `from_str_radix` reads out of a digit string, or `None` where
/// it rejects the string.
pub uninterp spec fn radix_parse(s: Seq<char>, radix: int) -> Option<int>;

/// Relies on `num_traits::Zero::zero` for `BigInt`.
#[verifier::external_body]
pub(crate) fn bi_zero() -> (r: BigInt)
    ensures
        bigint_val(r) == 0,
{
    BigInt::zero()
}

/// Relies on `num_traits::One::one` for `BigInt`.
#[verifier::external_body]
pub(crate) fn bi_one() -> (r: BigInt)
    ensures
        bigint_val(r) == 1,
{
    BigInt::one()
}

/// Relies on `BigInt::from` for `u64`.
#[verifier::external_body]
pub(crate) fn bi_from_u64(d: u64) -> (r: BigInt)
    ensures
        bigint_val(r) == d,
{
    BigInt::from(d)
}

/// Relies on `Clone::clone` for `BigInt`: an independent value equal to the
/// original.
#[verifier::external_body]
pub(crate) fn bi_clone(a: &BigInt) -> (r: BigInt)
    ensures
        bigint_val(r) == bigint_val(*a),
{
    a.clone()
}

/// Relies on `PartialEq::eq` for `BigInt`: numeric equality.
#[verifier::external_body]
pub(crate) fn bi_eq(a: &BigInt, b: &BigInt) -> (r: bool)
    ensures
        r == (bigint_val(*a) == bigint_val(*b)),
{
    a == b
}

/// Relies on `PartialOrd::lt` for `BigInt`: numeric signed ordering.
#[verifier::external_body]
pub(crate) fn bi_lt(a: &BigInt, b: &BigInt) -> (r: bool)
    ensures
        r == (bigint_val(*a) < bigint_val(*b)),
{
    a < b
}

/// Relies on `Add::add` for `BigInt`.
#[verifier::external_body]
pub(crate) fn bi_add(a: &BigInt, b: &BigInt) -> (r: BigInt)
    ensures
        bigint_val(r) == bigint_val(*a) + bigint_val(*b),
{
    a + b
}

/// Relies on `Sub::sub` for `BigInt`.
#[verifier::external_body]
pub(crate) fn bi_sub(a: &BigInt, b: &BigInt) -> (r: BigInt)
    ensures
        bigint_val(r) == bigint_val(*a) - bigint_val(*b),
{
    a - b
}

/// Relies on `Mul::mul` for `BigInt`.
#[verifier::external_body]
pub(crate) fn bi_mul(a: &BigInt, b: &BigInt) -> (r: BigInt)
    ensures
        bigint_val(r) == bigint_val(*a) * bigint_val(*b),
{
    a * b
}

/// Relies on `Div::div` for `BigInt`: truncating division, which panics on a
/// zero divisor.
#[verifier::external_body]
pub(crate) fn bi_div(a: &BigInt, b: &BigInt) -> (r: BigInt)
    requires
        bigint_val(*b) != 0,
    ensures
        bigint_val(r) == trunc_div(bigint_val(*a), bigint_val(*b)),
{
    a / b
}

/// Relies on `Rem::rem` for `BigInt`: truncating remainder, which panics on
/// a zero divisor.
#[verifier::external_body]
pub(crate) fn bi_rem(a: &BigInt, b: &BigInt) -> (r: BigInt)
    requires
        bigint_val(*b) != 0,
    ensures
        bigint_val(r) == trunc_rem(bigint_val(*a), bigint_val(*b)),
{
    a % b
}

/// Relies on `Neg::neg` for `BigInt`.
#[verifier::external_body]
pub(crate) fn bi_neg(a: &BigInt) -> (r: BigInt)
    ensures
        bigint_val(r) == -bigint_val(*a),
{
    -a
}

/// Relies on `Shl::shl` for `BigInt`: multiplication by a power of two.
#[verifier::external_body]
pub(crate) fn bi_shl(a: &BigInt, k: u32) -> (r: BigInt)
    ensures
        bigint_val(r) == bigint_val(*a) * pow2(k as nat),
{
    a << k
}

/// Relies on `Shr::shr` for `BigInt`: division by a power of two that rounds
/// down (toward negative infinity).
#[verifier::external_body]
pub(crate) fn bi_shr(a: &BigInt, k: u32) -> (r: BigInt)
    ensures
        bigint_val(r) == bigint_val(*a) / pow2(k as nat) as int,
{
    a >> k
}

/// Relies on `num_traits::Zero::set_zero` for `BigInt`: overwrites the value
/// with zero.
#[verifier::external_body]
pub(crate) fn bi_set_zero(a: &mut BigInt)
    ensures
        bigint_val(*final(a)) == 0,
{
    a.set_zero()
}

/// Relies on `BigInt::modpow`: `(base ^ exponent) mod modulus`, rounding
/// down, so the result lies in `[0, modulus)` for a positive modulus.  It
/// panics on a negative exponent or a zero modulus.
#[verifier::external_body]
pub(crate) fn bi_modpow(base: &BigInt, exponent: &BigInt, modulus: &BigInt) -> (r: BigInt)
    requires
        bigint_val(*exponent) >= 0,
        bigint_val(*modulus) > 0,
    ensures
        bigint_val(r) == pow(bigint_val(*base), bigint_val(*exponent) as nat) % bigint_val(
            *modulus,
        ),
{
    base.modpow(exponent, modulus)
}

/// Relies on `num_integer::Integer::gcd` for `BigInt`: the non-negative
/// greatest common divisor of the two magnitudes.
#[verifier::external_body]
pub(crate) fn bi_gcd(a: &BigInt, b: &BigInt) -> (r: BigInt)
    ensures
        bigint_val(r) == gcd_int(bigint_val(*a), bigint_val(*b)),
{
    a.gcd(b)
}

/// Relies on `num_integer::Integer::lcm` for `BigInt`: the non-negative
/// least common multiple of the two magnitudes, zero when both are zero.
#[verifier::external_body]
pub(crate) fn bi_lcm(a: &BigInt, b: &BigInt) -> (r: BigInt)
    ensures
        bigint_val(r) == lcm_int(bigint_val(*a), bigint_val(*b)),
{
    a.lcm(b)
}

/// Relies on `BigInt::bits`: the number of bits in the magnitude, zero for
/// zero.
#[verifier::external_body]
pub(crate) fn bi_bits(a: &BigInt) -> (r: u64)
    ensures
        r as nat == bit_len(abs_i(bigint_val(*a))),
{
    a.bits()
}

/// Relies on `BigInt::to_bytes_be`: the magnitude as minimal big-endian
/// bytes, with the single byte `0` for zero.
#[verifier::external_body]
pub(crate) fn bi_to_bytes_be(a: &BigInt) -> (r: Vec<u8>)
    ensures
        be_val(r@) == abs_i(bigint_val(*a)),
        bigint_val(*a) == 0 ==> r@ =~= seq![0u8],
        bigint_val(*a) != 0 ==> r@.len() > 0 && r@[0] != 0,
{
    let (_, bytes) = a.to_bytes_be();
    bytes
}

/// Relies on `BigInt::from_bytes_be` with a plus sign: reads the bytes as a
/// non-negative big-endian integer.
#[verifier::external_body]
pub(crate) fn bi_from_bytes_be(bytes: &[u8]) -> (r: BigInt)
    ensures
        bigint_val(r) == be_val(bytes@),
{
    BigInt::from_bytes_be(num_bigint::Sign::Plus, bytes)
}

/// Relies on `BigInt::to_str_radix`: lowercase digits of the signed value,
/// a string `from_str_radix` reads the same value back from.  It panics
/// outside radix 2 to 36.
#[verifier::external_body]
pub(crate) fn bi_to_str_radix(a: &BigInt, radix: u32) -> (r: String)
    requires
        2 <= radix <= 36,
    ensures
        r@ == radix_str_of(bigint_val(*a), radix as int),
        radix_parse(r@, radix as int) == Some(bigint_val(*a)),
{
    a.to_str_radix(radix)
}

/// Relies on `num_traits::Num::from_str_radix` for `BigInt`, which accepts
/// every string `to_str_radix` writes and reads the same value back.  It
/// panics outside radix 2 to 36.
#[verifier::external_body]
pub(crate) fn bi_from_str_radix(s: &str, radix: u32) -> (r: Option<BigInt>)
    requires
        2 <= radix <= 36,
    ensures
        r is Some <==> radix_parse(s@, radix as int) is Some,
        r matches Some(b) ==> radix_parse(s@, radix as int) == Some(bigint_val(b)),
{
    BigInt::from_str_radix(s, radix).ok()
}

/// Relies on `glass_pumpkin::prime::new`: a random probable prime of exactly
/// the requested bit size; odd, since every candidate has its lowest bit
/// set.  It fails for bit sizes under 128.
#[verifier::external_body]
pub(crate) fn bi_prime_new(size: usize) -> (r: BigInt)
    requires
        size >= 128,
    ensures
        bigint_val(r) > 0,
        bit_len(abs_i(bigint_val(r))) == size,
        bigint_val(r) % 2 == 1,
{
    let p = glass_pumpkin::prime::new(size).expect("prime generation failed");
    BigInt::from_biguint(num_bigint::Sign::Plus, p)
}

/// Relies on `glass_pumpkin::safe_prime::new`: a random probable safe prime
/// `p == 2*q + 1` of exactly the requested bit size; the source only accepts
/// candidates that are odd and congruent to 2 mod 3.  It fails for bit sizes
/// under 128.
#[verifier::external_body]
pub(crate) fn bi_safe_prime_new(size: usize) -> (r: BigInt)
    requires
        size >= 128,
    ensures
        bigint_val(r) > 0,
        bit_len(abs_i(bigint_val(r))) == size,
        bigint_val(r) % 2 == 1,
        bigint_val(r) % 3 == 2,
{
    let p = glass_pumpkin::safe_prime::new(size).expect("safe prime generation failed");
    BigInt::from_biguint(num_bigint::Sign::Plus, p)
}

/// Relies on `glass_pumpkin::prime::strong_check` (Baillie-PSW): the outcome
/// is probabilistic, but the source rejects 1 and every even number above 2
/// before any random choice, and its Lucas stage panics on 2.
#[verifier::external_body]
pub(crate) fn bi_strong_check(a: &BigInt) -> (r: bool)
    requires
        bigint_val(*a) > 0,
        bigint_val(*a) != 2,
    ensures
        bigint_val(*a) == 1 ==> !r,
        bigint_val(*a) % 2 == 0 ==> !r,
{
    let b = a.to_biguint().expect("checked non-negative");
    glass_pumpkin::prime::strong_check(&b)
}

/// Relies on `rand::rngs::OsRng`'s `RngCore::fill_bytes`: fills the buffer
/// with bytes from the operating system's secure source; nothing is assumed
/// about the values drawn.
#[verifier::external_body]
pub(crate) fn fill_random_bytes(buf: &mut Vec<u8>)
    ensures
        final(buf)@.len() == old(buf)@.len(),
{
    rand::rngs::OsRng.fill_bytes(buf.as_mut_slice())
}

} // verus!
