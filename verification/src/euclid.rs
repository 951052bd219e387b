//! The extended Euclidean algorithm: modular inversion tracking one Bézout
//! coefficient, the general form returning both coefficients with the gcd,
//! and the proofs that they compute inverses and greatest common divisors.

use crate::backend::{bi_gcd, bi_lcm};
use crate::bn::Bn;
use crate::math::{
    abs_i, gcd_int, gcd_nat, lcm_int, lemma_gcd_int_divides, lemma_gcd_int_sub_mul,
    lemma_gcd_int_symm, lemma_gcd_int_zero, lemma_no_unit_multiple, lemma_trunc_rem_props,
    trunc_div, trunc_rem,
};
use vstd::arithmetic::div_mod::{
    lemma_div_by_self, lemma_basic_div, lemma_div_non_zero, lemma_fundamental_div_mod,
    lemma_mod_division_less_than_divisor, lemma_mod_multiples_vanish, lemma_mod_self_0,
    lemma_small_mod,
};
use vstd::prelude::*;

verus! {

/// The Bézout coefficients and gcd that `extended_gcd` returns:
/// `x * a + y * b == gcd` for the operands `a`, `b`.
pub struct GcdResult {
    /// The greatest common divisor, never negative.
    pub gcd: Bn,
    /// The coefficient of the first operand.
    pub x: Bn,
    /// The coefficient of the second operand.
    pub y: Bn,
}

/// The state recursion of the inverse form of Euclid's algorithm: from
/// `(t, new_t, r, new_r)` it divides `r` by `new_r` and shifts both pairs
/// until `new_r` reaches zero, returning the final `(t, r)`.
pub open spec fn euclid_inv(t: int, new_t: int, r: int, new_r: int) -> (int, int)
    decreases abs_i(new_r),
    via euclid_inv_decreases
{
    if new_r == 0 {
        (t, r)
    } else {
        let q = trunc_div(r, new_r);
        euclid_inv(new_t, t - q * new_t, new_r, r - q * new_r)
    }
}

#[via_fn]
proof fn euclid_inv_decreases(t: int, new_t: int, r: int, new_r: int) {
    if new_r != 0 {
        lemma_trunc_rem_props(r, new_r);
    }
}

/// What `invert` returns: no inverse when the element is zero, the modulus
/// is zero, or the modulus is one; otherwise the tracked coefficient of the
/// Euclid run, brought up by `n` once if negative, and no inverse where the
/// run's final remainder exceeds one.
pub open spec fn invert_spec(a: int, n: int) -> Option<int> {
    if a == 0 || n == 0 || n == 1 {
        None
    } else {
        let (t, r) = euclid_inv(0, 1, n, a);
        if r > 1 {
            None
        } else if t < 0 {
            Some(t + n)
        } else {
            Some(t)
        }
    }
}

/// Walks `euclid_inv` through one state in the positive regime
/// (`r > new_r >= 1`), carrying the congruence, determinant, sign and
/// magnitude invariants down to the final state.  Returns the Bézout
/// coefficient of `n` for the final remainder.
proof fn lemma_euclid_inv_core(
    t: int,
    nt: int,
    r: int,
    nr: int,
    a: int,
    n: int,
    st: int,
    snt: int,
    eps: int,
) -> (c: int)
    requires
        n >= 2,
        r > nr >= 1,
        r == t * a + st * n,
        nr == nt * a + snt * n,
        r * nt - nr * t == eps * n,
        eps == 1 || eps == -1,
        t * nt <= 0,
        abs_i(t) <= abs_i(nt),
    ensures
        euclid_inv(t, nt, r, nr).1 == gcd_int(r, nr),
        euclid_inv(t, nt, r, nr).1 == euclid_inv(t, nt, r, nr).0 * a + c * n,
        abs_i(euclid_inv(t, nt, r, nr).0) * euclid_inv(t, nt, r, nr).1 <= n,
    decreases nr,
{
    let q = trunc_div(r, nr);
    assert(q == r / nr);
    lemma_fundamental_div_mod(r, nr);
    lemma_mod_division_less_than_divisor(r, nr);
    let r2 = r - q * nr;
    let t2 = t - q * nt;
    assert(r2 == r % nr) by (nonlinear_arith)
        requires
            q == r / nr,
            r == nr * (r / nr) + r % nr,
            r2 == r - q * nr,
    ;
    assert(0 <= r2 < nr);
    lemma_div_non_zero(r, nr);
    assert(q >= 1) by {
        if q == 0 {
            assert(r == r % nr);
        }
    }
    // nt is never zero here: otherwise t is zero too and the determinant
    // collapses to zero, contradicting |eps * n| >= 2.
    assert(nt != 0) by {
        if nt == 0 {
            assert(t == 0);
            assert(r * 0 - nr * 0 == 0);
        }
    }
    // sign and magnitude invariants for the shifted pair
    assert(nt * t2 <= 0 && abs_i(nt) <= abs_i(t2)) by {
        if nt > 0 {
            assert(t <= 0 && q * nt >= nt && t2 <= -nt) by (nonlinear_arith)
                requires
                    t * nt <= 0,
                    nt > 0,
                    q >= 1,
                    t2 == t - q * nt,
            ;
        } else {
            assert(t >= 0 && q * nt <= nt && t2 >= -nt) by (nonlinear_arith)
                requires
                    t * nt <= 0,
                    nt < 0,
                    q >= 1,
                    t2 == t - q * nt,
            ;
        }
        assert(nt * t2 <= 0) by (nonlinear_arith)
            requires
                (nt > 0 && t2 <= -nt) || (nt < 0 && t2 >= -nt),
        ;
    }
    // the determinant flips sign each step
    assert(nr * t2 - r2 * nt == (-eps) * n) by (nonlinear_arith)
        requires
            t2 == t - q * nt,
            r2 == r - q * nr,
            r * nt - nr * t == eps * n,
    ;
    // the gcd is preserved by the step
    lemma_gcd_int_sub_mul(r, nr, q);
    lemma_gcd_int_symm(r2, nr);
    lemma_gcd_int_symm(nr, r);
    assert(gcd_int(nr, r2) == gcd_int(r, nr));
    if r2 == 0 {
        assert(euclid_inv(t, nt, r, nr) == euclid_inv(nt, t2, nr, r2));
        assert(euclid_inv(nt, t2, nr, 0) == (nt, nr));
        assert(r2 * nt == 0) by (nonlinear_arith)
            requires
                r2 == 0,
        ;
        lemma_gcd_int_zero(nr);
        assert(gcd_int(nr, 0) == nr);
        // the determinant at the final state pins |t2| * nr to n, and |nt|
        // stays below |t2|
        let ant = abs_i(nt) as int;
        let at2 = abs_i(t2) as int;
        assert(at2 * nr == n) by {
            if t2 >= 0 {
                assert(eps == -1 && t2 * nr == n) by (nonlinear_arith)
                    requires
                        nr * t2 == (-eps) * n,
                        eps == 1 || eps == -1,
                        nr >= 1,
                        t2 >= 0,
                        n >= 2,
                ;
            } else {
                assert((-t2) * nr == n) by (nonlinear_arith)
                    requires
                        nr * t2 == (-eps) * n,
                        eps == 1 || eps == -1,
                        nr >= 1,
                        t2 < 0,
                        n >= 2,
                ;
            }
        }
        assert(ant * nr <= at2 * nr) by (nonlinear_arith)
            requires
                0 <= ant <= at2,
                nr >= 1,
        ;
        snt
    } else {
        // congruence carries to the shifted pair
        assert(r2 == t2 * a + (st - q * snt) * n) by (nonlinear_arith)
            requires
                r == t * a + st * n,
                nr == nt * a + snt * n,
                t2 == t - q * nt,
                r2 == r - q * nr,
        ;
        let c = lemma_euclid_inv_core(nt, t2, nr, r2, a, n, snt, st - q * snt, -eps);
        assert(euclid_inv(t, nt, r, nr) == euclid_inv(nt, t2, nr, r2));
        c
    }
}

/// Runs the analysis from the algorithm's start state `(0, 1, n, a)`,
/// reducing `a` into `[1, n)` first where needed.  Returns the Bézout
/// coefficient of `n` for the final remainder.
proof fn lemma_invert_run(a: int, n: int) -> (c: int)
    requires
        n >= 2,
        a >= 1,
    ensures
        euclid_inv(0, 1, n, a).1 == gcd_int(a, n),
        euclid_inv(0, 1, n, a).1 == euclid_inv(0, 1, n, a).0 * a + c * n,
        abs_i(euclid_inv(0, 1, n, a).0) * euclid_inv(0, 1, n, a).1 <= n,
{
    if a < n {
        lemma_gcd_int_symm(a, n);
        let c = lemma_euclid_inv_core(0, 1, n, a, a, n, 1, 0, 1);
        c
    } else if a == n {
        lemma_div_by_self(n);
        assert(trunc_div(n, n) == 1);
        assert(euclid_inv(0, 1, n, n) == euclid_inv(1, 0 - 1 * 1, n, n - 1 * n));
        assert(euclid_inv(1, -1, n, 0) == (1int, n));
        lemma_mod_self_0(n);
        assert(gcd_int(a, n) == gcd_int(n, n));
        assert(gcd_nat(n as nat, n as nat) == gcd_nat(n as nat, (n % n) as nat));
        assert(n == 1 * a + 0 * n);
        0
    } else {
        // one swap step brings the run to (0, 1, n, a % n)
        lemma_basic_div(n, a);
        assert(trunc_div(n, a) == 0);
        assert(euclid_inv(0, 1, n, a) == euclid_inv(1, 0 - 0 * 1, a, n - 0 * a));
        assert(euclid_inv(1, 0, a, n) == euclid_inv(0, 1 - trunc_div(a, n) * 0, n, a - trunc_div(
            a,
            n,
        ) * n));
        let q = trunc_div(a, n);
        assert(q == a / n);
        lemma_fundamental_div_mod(a, n);
        lemma_mod_division_less_than_divisor(a, n);
        let m = a - q * n;
        assert(m == a % n) by (nonlinear_arith)
            requires
                q == a / n,
                a == n * (a / n) + a % n,
                m == a - q * n,
        ;
        assert(gcd_nat(a as nat, n as nat) == gcd_nat(n as nat, (a % n) as nat));
        if m == 0 {
            assert(euclid_inv(0, 1, n, 0) == (0int, n));
            lemma_gcd_int_zero(n);
            assert(gcd_int(a, n) == gcd_int(n, 0));
            assert(n == 0 * a + 1 * n);
            1
        } else {
            assert(m == 1 * a + (-q) * n) by (nonlinear_arith)
                requires
                    m == a - q * n,
            ;
            let c = lemma_euclid_inv_core(0, 1, n, m, a, n, 1, -q, 1);
            assert(gcd_int(n, m) == gcd_int(a, n));
            c
        }
    }
}

/// Where `a` and `n >= 2` are coprime, inversion succeeds: the result is
/// the canonical representative in `[0, n)` with `(a * v) % n == 1`.
pub proof fn lemma_invert_coprime(a: int, n: int)
    requires
        n >= 2,
        a >= 1,
        gcd_int(a, n) == 1,
    ensures
        invert_spec(a, n) matches Some(v) && 0 <= v < n && (a * v) % n == 1,
{
    let c = lemma_invert_run(a, n);
    let run = euclid_inv(0, 1, n, a);
    let ft = run.0;
    let fr = run.1;
    assert(fr == 1);
    assert(1 == ft * a + c * n);
    // |ft| <= n, and |ft| == n is impossible: n would divide 1
    assert(abs_i(ft) <= n);
    assert(ft != n && ft != -n) by {
        if ft == n {
            assert(1 == n * (a + c)) by (nonlinear_arith)
                requires
                    1 == ft * a + c * n,
                    ft == n,
            ;
            lemma_no_unit_multiple(n, a + c);
        }
        if ft == -n {
            assert(1 == n * (c - a)) by (nonlinear_arith)
                requires
                    1 == ft * a + c * n,
                    ft == -n,
            ;
            lemma_no_unit_multiple(n, c - a);
        }
    }
    let v = if ft < 0 {
        ft + n
    } else {
        ft
    };
    assert(invert_spec(a, n) == Some(v));
    assert(0 <= v < n);
    // v differs from ft by a multiple of n, so a * v is 1 plus a multiple of n
    if ft < 0 {
        assert(a * v == n * (a - c) + 1) by (nonlinear_arith)
            requires
                1 == ft * a + c * n,
                v == ft + n,
        ;
        lemma_mod_multiples_vanish(a - c, 1, n);
    } else {
        assert(a * v == n * (-c) + 1) by (nonlinear_arith)
            requires
                1 == ft * a + c * n,
                v == ft,
        ;
        lemma_mod_multiples_vanish(-c, 1, n);
    }
    lemma_small_mod(1, n as nat);
}

/// Where `a >= 1` and `n >= 2` share a factor, inversion reports no
/// inverse.
pub proof fn lemma_invert_not_coprime(a: int, n: int)
    requires
        n >= 2,
        a >= 1,
        gcd_int(a, n) != 1,
    ensures
        invert_spec(a, n) is None,
{
    let c = lemma_invert_run(a, n);
    lemma_gcd_int_divides(a, n);
    assert(euclid_inv(0, 1, n, a).1 >= 2);
}

impl Bn {
    /// Computes the multiplicative inverse of this element modulo `n` by
    /// the extended Euclidean algorithm, tracking only the coefficient of
    /// `n`.  There is no inverse when the element is zero, when `n` is zero
    /// or one, or when the two are not coprime.
    pub fn invert(&self, n: &Self) -> (res: Option<Self>)
        ensures
            res is Some <==> invert_spec(self@, n@) is Some,
            res matches Some(v) ==> invert_spec(self@, n@) == Some(v@),
            self@ >= 1 && n@ >= 2 ==> (res is Some <==> gcd_int(self@, n@) == 1),
            self@ >= 1 && n@ >= 2 ==> (res matches Some(v) ==> 0 <= v@ < n@ && (self@ * v@) % n@
                == 1),
    {
        proof {
            if self@ >= 1 && n@ >= 2 {
                if gcd_int(self@, n@) == 1 {
                    lemma_invert_coprime(self@, n@);
                } else {
                    lemma_invert_not_coprime(self@, n@);
                }
            }
        }
        if self.is_zero() || n.is_zero() || n.is_one() {
            return None;
        }
        let mut t = Bn::zero();
        let mut new_t = Bn::one();
        let mut r = n.clone();
        let mut new_r = self.clone();
        while !new_r.is_zero()
            invariant
                euclid_inv(t@, new_t@, r@, new_r@) == euclid_inv(0, 1, n@, self@),
            decreases abs_i(new_r@),
        {
            let ghost pre = (t@, new_t@, r@, new_r@);
            let q = r.div(&new_r);
            let temp_t = t;
            t = new_t.clone();
            let q_new_t = q.mul(&new_t);
            new_t = temp_t.sub(&q_new_t);
            let temp_r = r;
            r = new_r.clone();
            let q_new_r = q.mul(&new_r);
            new_r = temp_r.sub(&q_new_r);
            proof {
                lemma_trunc_rem_props(pre.2, pre.3);
                let d = trunc_div(pre.2, pre.3);
                assert(pre.3 * d == d * pre.3) by (nonlinear_arith);
                assert(new_r@ == trunc_rem(pre.2, pre.3));
                assert(euclid_inv(pre.0, pre.1, pre.2, pre.3) == euclid_inv(
                    t@,
                    new_t@,
                    r@,
                    new_r@,
                ));
            }
        }
        let zero = Bn::zero();
        let one = Bn::one();
        if one.lt(&r) {
            None
        } else if t.lt(&zero) {
            Some(t.add(n))
        } else {
            Some(t)
        }
    }

    /// Computes the extended Euclidean algorithm: the returned triple
    /// satisfies `x * self + y * other == gcd` with `gcd` the non-negative
    /// greatest common divisor of the operands.
    pub fn extended_gcd(&self, other: &Self) -> (res: GcdResult)
        ensures
            res.gcd@ == gcd_int(self@, other@),
            res.x@ * self@ + res.y@ * other@ == res.gcd@,
            res.gcd@ >= 0,
    {
        let mut s0 = Bn::zero();
        let mut s1 = Bn::one();
        let mut t0 = Bn::one();
        let mut t1 = Bn::zero();
        let mut r0 = other.clone();
        let mut r1 = self.clone();
        proof {
            lemma_gcd_int_symm(other@, self@);
        }
        while !r0.is_zero()
            invariant
                s0@ * self@ + t0@ * other@ == r0@,
                s1@ * self@ + t1@ * other@ == r1@,
                gcd_int(r0@, r1@) == gcd_int(self@, other@),
            decreases abs_i(r0@),
        {
            let ghost pre = (s0@, s1@, t0@, t1@, r0@, r1@);
            let q = r1.div(&r0);
            let q_r0 = q.mul(&r0);
            let new_r0 = r1.sub(&q_r0);
            let q_s0 = q.mul(&s0);
            let new_s0 = s1.sub(&q_s0);
            let q_t0 = q.mul(&t0);
            let new_t0 = t1.sub(&q_t0);
            r1 = r0;
            r0 = new_r0;
            s1 = s0;
            s0 = new_s0;
            t1 = t0;
            t0 = new_t0;
            proof {
                let qq = trunc_div(pre.5, pre.4);
                lemma_trunc_rem_props(pre.5, pre.4);
                assert(pre.4 * qq == qq * pre.4) by (nonlinear_arith);
                assert(r0@ == trunc_rem(pre.5, pre.4));
                assert(s0@ * self@ + t0@ * other@ == r0@) by (nonlinear_arith)
                    requires
                        pre.0 * self@ + pre.2 * other@ == pre.4,
                        pre.1 * self@ + pre.3 * other@ == pre.5,
                        s0@ == pre.1 - qq * pre.0,
                        t0@ == pre.3 - qq * pre.2,
                        r0@ == pre.5 - qq * pre.4,
                ;
                lemma_gcd_int_sub_mul(pre.5, pre.4, qq);
                lemma_gcd_int_symm(r0@, pre.4);
            }
        }
        proof {
            lemma_gcd_int_zero(r1@);
        }
        let zero = Bn::zero();
        if !r1.lt(&zero) {
            GcdResult { gcd: r1, x: s1, y: t1 }
        } else {
            let g = zero.sub(&r1);
            let x = zero.sub(&s1);
            let y = zero.sub(&t1);
            proof {
                assert(x@ * self@ + y@ * other@ == g@) by (nonlinear_arith)
                    requires
                        s1@ * self@ + t1@ * other@ == r1@,
                        x@ == 0 - s1@,
                        y@ == 0 - t1@,
                        g@ == 0 - r1@,
                ;
            }
            GcdResult { gcd: g, x, y }
        }
    }

    /// Computes the greatest common divisor, delegating to the backend's
    /// implementation; the result is never negative.
    pub fn gcd(&self, other: &Self) -> (r: Self)
        ensures
            r@ == gcd_int(self@, other@),
    {
        Bn { v: bi_gcd(&self.v, &other.v) }
    }

    /// Computes the least common multiple, delegating to the backend's
    /// implementation; the result is never negative.
    pub fn lcm(&self, other: &Self) -> (r: Self)
        ensures
            r@ == lcm_int(self@, other@),
    {
        Bn { v: bi_lcm(&self.v, &other.v) }
    }
}

} // verus!
