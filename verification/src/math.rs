//! The mathematical vocabulary the contracts are written in: truncating
//! division and remainder (the backend's convention), the canonical residue
//! correction, greatest common divisors, bit lengths, and big-endian byte
//! values, together with the lemmas the rest of the crate needs about them.

use vstd::prelude::*;
use vstd::arithmetic::div_mod::{
    lemma_fundamental_div_mod, lemma_mod_division_less_than_divisor, lemma_mod_multiples_vanish,
    lemma_small_mod,
};
use vstd::arithmetic::power2::{
    lemma2_to64, lemma_pow2_adds, lemma_pow2_strictly_increases, pow2,
};

verus! {

/// Absolute value, as a natural number.
pub open spec fn abs_i(a: int) -> nat {
    if a >= 0 {
        a as nat
    } else {
        (-a) as nat
    }
}

/// Truncating (round-toward-zero) integer division: the convention the
/// backend's division operator follows.
pub open spec fn trunc_div(a: int, b: int) -> int
    recommends
        b != 0,
{
    if a >= 0 {
        if b > 0 {
            a / b
        } else {
            -(a / (-b))
        }
    } else {
        if b > 0 {
            -((-a) / b)
        } else {
            (-a) / (-b)
        }
    }
}

/// Truncating remainder: what `trunc_div` leaves over, so it carries the
/// sign of the dividend.
pub open spec fn trunc_rem(a: int, b: int) -> int
    recommends
        b != 0,
{
    a - b * trunc_div(a, b)
}

/// The single correction step the modular suite applies: take the truncating
/// remainder and add `n` once if it came out negative.  For `n > 0` this is
/// the canonical residue in `[0, n)`.
pub open spec fn norm_rem(x: int, n: int) -> int
    recommends
        n != 0,
{
    let t = trunc_rem(x, n);
    if t < 0 {
        t + n
    } else {
        t
    }
}

pub proof fn lemma_trunc_rem_props(a: int, b: int)
    requires
        b != 0,
    ensures
        a == b * trunc_div(a, b) + trunc_rem(a, b),
        abs_i(trunc_rem(a, b)) < abs_i(b),
        a >= 0 ==> trunc_rem(a, b) >= 0,
        a < 0 ==> trunc_rem(a, b) <= 0,
{
    if a >= 0 && b > 0 {
        lemma_fundamental_div_mod(a, b);
        lemma_mod_division_less_than_divisor(a, b);
    } else if a >= 0 && b < 0 {
        lemma_fundamental_div_mod(a, -b);
        lemma_mod_division_less_than_divisor(a, -b);
        assert(b * -(a / (-b)) == (-b) * (a / (-b))) by (nonlinear_arith);
    } else if a < 0 && b > 0 {
        lemma_fundamental_div_mod(-a, b);
        lemma_mod_division_less_than_divisor(-a, b);
        assert(b * -((-a) / b) == -(b * ((-a) / b))) by (nonlinear_arith);
    } else {
        lemma_fundamental_div_mod(-a, -b);
        lemma_mod_division_less_than_divisor(-a, -b);
        assert(b * ((-a) / (-b)) == -((-b) * ((-a) / (-b)))) by (nonlinear_arith);
    }
}

/// For a positive modulus the corrected truncating remainder is exactly the
/// Euclidean residue `x % n`, which lies in `[0, n)`.
pub proof fn lemma_norm_rem_is_mod(x: int, n: int)
    requires
        n > 0,
    ensures
        norm_rem(x, n) == x % n,
        0 <= norm_rem(x, n) < n,
{
    lemma_trunc_rem_props(x, n);
    lemma_mod_division_less_than_divisor(x, n);
    lemma_fundamental_div_mod(x, n);
    let q = trunc_div(x, n);
    let t = trunc_rem(x, n);
    if t < 0 {
        assert(x == n * (q - 1) + (t + n)) by (nonlinear_arith)
            requires
                x == n * q + t,
        ;
        lemma_mod_multiples_vanish(q - 1, t + n, n);
        lemma_small_mod((t + n) as nat, n as nat);
    } else {
        lemma_mod_multiples_vanish(q, t, n);
        lemma_small_mod(t as nat, n as nat);
    }
}

/// `d` divides `x`.
pub open spec fn divides(d: int, x: int) -> bool {
    exists|k: int| x == #[trigger] (d * k)
}

/// The greatest common divisor of two natural numbers, by Euclid's recursion.
pub open spec fn gcd_nat(a: nat, b: nat) -> nat
    decreases b,
{
    if b == 0 {
        a
    } else {
        gcd_nat(b, a % b)
    }
}

/// The greatest common divisor of two integers: the gcd of their magnitudes,
/// always non-negative.
pub open spec fn gcd_int(a: int, b: int) -> int {
    gcd_nat(abs_i(a), abs_i(b)) as int
}

/// The least common multiple of two integers, non-negative, with
/// `lcm(0, 0) == 0`.
pub open spec fn lcm_int(a: int, b: int) -> int {
    if a == 0 && b == 0 {
        0
    } else {
        (abs_i(a) as int / gcd_int(a, b)) * abs_i(b) as int
    }
}

proof fn lemma_divides_linear(d: int, x: int, y: int, c: int)
    requires
        divides(d, x),
        divides(d, y),
    ensures
        divides(d, x * c + y),
{
    let kx = choose|k: int| x == #[trigger] (d * k);
    let ky = choose|k: int| y == #[trigger] (d * k);
    assert(x * c + y == d * (kx * c + ky)) by (nonlinear_arith)
        requires
            x == d * kx,
            y == d * ky,
    ;
}

pub proof fn lemma_gcd_nat_divides(a: nat, b: nat)
    ensures
        divides(gcd_nat(a, b) as int, a as int),
        divides(gcd_nat(a, b) as int, b as int),
    decreases b,
{
    let g = gcd_nat(a, b) as int;
    if b == 0 {
        assert(a as int == g * 1);
        assert(0 == g * 0);
    } else {
        lemma_gcd_nat_divides(b, (a % b) as nat);
        lemma_fundamental_div_mod(a as int, b as int);
        lemma_divides_linear(g, b as int, (a as int) % (b as int), a as int / b as int);
    }
}

pub proof fn lemma_divides_gcd_nat(d: int, a: nat, b: nat)
    requires
        divides(d, a as int),
        divides(d, b as int),
    ensures
        divides(d, gcd_nat(a, b) as int),
    decreases b,
{
    if b == 0 {
    } else {
        lemma_fundamental_div_mod(a as int, b as int);
        let q = a as int / b as int;
        assert(divides(d, b as int * (-q) + a as int)) by {
            lemma_divides_linear(d, b as int, a as int, -q);
        }
        assert(b as int * (-q) + a as int == a as int - b as int * q) by (nonlinear_arith);
        lemma_mod_division_less_than_divisor(a as int, b as int);
        lemma_divides_gcd_nat(d, b, (a % b) as nat);
    }
}

proof fn lemma_divides_antisymm(x: nat, y: nat)
    requires
        divides(x as int, y as int),
        divides(y as int, x as int),
    ensures
        x == y,
{
    let kx = choose|k: int| y as int == #[trigger] (x as int * k);
    let ky = choose|k: int| x as int == #[trigger] (y as int * k);
    if x == 0 {
        assert(y as int == 0 * kx == 0) by (nonlinear_arith)
            requires
                y as int == x as int * kx,
                x == 0,
        ;
    } else if y == 0 {
        assert(x as int == 0) by (nonlinear_arith)
            requires
                x as int == y as int * ky,
                y == 0,
        ;
    } else {
        assert(x <= y && y <= x) by (nonlinear_arith)
            requires
                x as int * kx == y as int,
                y as int * ky == x as int,
                x > 0,
                y > 0,
        ;
    }
}

proof fn lemma_divides_abs(d: int, x: int)
    ensures
        divides(d, x) <==> divides(d, abs_i(x) as int),
{
    if divides(d, x) {
        let k = choose|k: int| x == #[trigger] (d * k);
        if x < 0 {
            assert(abs_i(x) as int == d * (-k)) by (nonlinear_arith)
                requires
                    x == d * k,
                    x < 0,
            ;
        }
    }
    if divides(d, abs_i(x) as int) {
        let k = choose|k: int| abs_i(x) as int == #[trigger] (d * k);
        if x < 0 {
            assert(x == d * (-k)) by (nonlinear_arith)
                requires
                    abs_i(x) as int == d * k,
                    x < 0,
            ;
        }
    }
}

/// The integer gcd divides both of its arguments.
pub proof fn lemma_gcd_int_divides(a: int, b: int)
    ensures
        divides(gcd_int(a, b), a),
        divides(gcd_int(a, b), b),
        gcd_int(a, b) >= 0,
        a != 0 ==> gcd_int(a, b) >= 1,
{
    lemma_gcd_nat_divides(abs_i(a), abs_i(b));
    lemma_divides_abs(gcd_int(a, b), a);
    lemma_divides_abs(gcd_int(a, b), b);
    if a != 0 && gcd_int(a, b) == 0 {
        let k = choose|k: int| a == #[trigger] (0 * k);
        assert(a == 0 * k == 0) by (nonlinear_arith)
            requires
                a == 0 * k,
        ;
    }
}

/// Every common divisor of `a` and `b` divides their gcd.
pub proof fn lemma_divides_gcd_int(d: int, a: int, b: int)
    requires
        divides(d, a),
        divides(d, b),
    ensures
        divides(d, gcd_int(a, b)),
{
    lemma_divides_abs(d, a);
    lemma_divides_abs(d, b);
    lemma_divides_gcd_nat(d, abs_i(a), abs_i(b));
}

/// Two integer gcds that divide each other are equal.
proof fn lemma_gcd_int_eq(a1: int, b1: int, a2: int, b2: int)
    requires
        divides(gcd_int(a1, b1), a2),
        divides(gcd_int(a1, b1), b2),
        divides(gcd_int(a2, b2), a1),
        divides(gcd_int(a2, b2), b1),
    ensures
        gcd_int(a1, b1) == gcd_int(a2, b2),
{
    lemma_divides_gcd_int(gcd_int(a1, b1), a2, b2);
    lemma_divides_gcd_int(gcd_int(a2, b2), a1, b1);
    lemma_gcd_int_divides(a1, b1);
    lemma_gcd_int_divides(a2, b2);
    lemma_divides_antisymm(gcd_int(a1, b1) as nat, gcd_int(a2, b2) as nat);
}

pub proof fn lemma_gcd_int_symm(a: int, b: int)
    ensures
        gcd_int(a, b) == gcd_int(b, a),
{
    lemma_gcd_int_divides(a, b);
    lemma_gcd_int_divides(b, a);
    lemma_gcd_int_eq(a, b, b, a);
}

/// Subtracting a multiple of one argument from the other leaves the gcd
/// unchanged: the step Euclid's algorithm takes.
pub proof fn lemma_gcd_int_sub_mul(r1: int, r0: int, q: int)
    ensures
        gcd_int(r1 - q * r0, r0) == gcd_int(r0, r1),
{
    let g1 = gcd_int(r1 - q * r0, r0);
    let g2 = gcd_int(r0, r1);
    lemma_gcd_int_divides(r1 - q * r0, r0);
    lemma_gcd_int_divides(r0, r1);
    assert(divides(g1, r1)) by {
        lemma_divides_linear(g1, r0, r1 - q * r0, q);
        assert(r0 * q + (r1 - q * r0) == r1) by (nonlinear_arith);
    }
    assert(divides(g2, r1 - q * r0)) by {
        lemma_divides_linear(g2, r0, r1, -q);
        assert(r0 * (-q) + r1 == r1 - q * r0) by (nonlinear_arith);
    }
    lemma_gcd_int_eq(r1 - q * r0, r0, r0, r1);
}

pub proof fn lemma_gcd_int_zero(b: int)
    ensures
        gcd_int(0, b) == abs_i(b) as int,
        gcd_int(b, 0) == abs_i(b) as int,
{
    if b != 0 {
        let m = abs_i(b);
        assert(abs_i(0) % m == 0) by {
            lemma_small_mod(0, m);
        }
        assert(gcd_nat(m, 0) == m);
        assert(gcd_nat(0, m) == gcd_nat(m, 0nat % m));
    }
}

/// No multiple of an integer of magnitude two or more is a unit.
pub proof fn lemma_no_unit_multiple(n: int, k: int)
    requires
        n >= 2,
    ensures
        n * k != 1,
{
    if k >= 1 {
        assert(n * k >= n) by (nonlinear_arith)
            requires
                n >= 2,
                k >= 1,
        ;
    } else {
        assert(n * k <= 0) by (nonlinear_arith)
            requires
                n >= 2,
                k <= 0,
        ;
    }
}

/// The number of bits needed to write `v` in binary; 0 for 0.
pub open spec fn bit_len(v: nat) -> nat
    decreases v,
{
    if v == 0 {
        0
    } else {
        1 + bit_len(v / 2)
    }
}

/// The non-negative integer a big-endian byte string stands for.
pub open spec fn be_val(s: Seq<u8>) -> int
    decreases s.len(),
{
    if s.len() == 0 {
        0
    } else {
        256 * be_val(s.drop_last()) + s.last()
    }
}

pub proof fn lemma_be_val_bounds(s: Seq<u8>)
    ensures
        0 <= be_val(s) < pow2((8 * s.len()) as nat),
    decreases s.len(),
{
    if s.len() == 0 {
        assert(pow2(0) == 1) by {
            lemma2_to64();
        }
    } else {
        lemma_be_val_bounds(s.drop_last());
        lemma_pow2_adds(8, (8 * (s.len() - 1)) as nat);
        assert(pow2(8) == 256) by {
            lemma2_to64();
        }
    }
}

pub proof fn lemma_bit_len_bounds(v: nat)
    requires
        v > 0,
    ensures
        pow2((bit_len(v) - 1) as nat) <= v < pow2(bit_len(v)),
    decreases v,
{
    if v == 1 {
        assert(bit_len(1) == 1 + bit_len(0));
        assert(pow2(0) == 1 && pow2(1) == 2) by {
            lemma2_to64();
        }
    } else {
        lemma_bit_len_bounds(v / 2);
        let k = bit_len(v / 2);
        lemma_pow2_adds(1, (k - 1) as nat);
        lemma_pow2_adds(1, k);
        assert(pow2(1) == 2) by {
            lemma2_to64();
        }
        lemma_fundamental_div_mod(v as int, 2);
        lemma_mod_division_less_than_divisor(v as int, 2);
    }
}

/// `pow2` only grows as the exponent grows.
pub proof fn lemma_pow2_le(e1: nat, e2: nat)
    requires
        e1 <= e2,
    ensures
        pow2(e1) <= pow2(e2),
{
    if e1 < e2 {
        lemma_pow2_strictly_increases(e1, e2);
    }
}

} // verus!
