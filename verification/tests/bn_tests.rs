use bn_core::Bn;

fn bn(d: usize) -> Bn {
    Bn::from_usize(d)
}

fn neg(d: usize) -> Bn {
    Bn::from_usize(d).neg()
}

#[test]
fn constructors_and_predicates() {
    assert!(Bn::zero().is_zero());
    assert!(!Bn::zero().is_one());
    assert!(Bn::one().is_one());
    assert!(!Bn::one().is_zero());
    assert!(Bn::default().is_zero());
    assert!(bn(7) == bn(7));
    assert!(bn(7) != bn(8));
    assert!(bn(7) < bn(8));
    assert!(neg(9) < bn(0));
    assert!(bn(7).clone() == bn(7));
}

#[test]
fn operator_suite() {
    assert!(bn(7).add(&bn(8)) == bn(15));
    assert!(bn(7).sub(&bn(8)) == neg(1));
    assert!(bn(7).mul(&bn(8)) == bn(56));
    assert!(bn(56).div(&bn(8)) == bn(7));
    assert!(bn(57).rem(&bn(8)) == bn(1));
    assert!(neg(7).div(&bn(2)) == neg(3), "division truncates toward zero");
    assert!(neg(7).rem(&bn(2)) == neg(1), "remainder keeps the dividend's sign");
    assert!(bn(5).neg() == neg(5));
    assert!(bn(5).shl(3) == bn(40));
    assert!(bn(40).shr(3) == bn(5));
    assert!(neg(5).shr(1) == neg(3), "right shift rounds down");
}

#[test]
fn assign_operator_suite() {
    let mut a = bn(10);
    a.add_assign(&bn(5));
    assert!(a == bn(15));
    a.sub_assign(&bn(3));
    assert!(a == bn(12));
    a.mul_assign(&bn(2));
    assert!(a == bn(24));
    a.div_assign(&bn(5));
    assert!(a == bn(4));
    a.rem_assign(&bn(3));
    assert!(a == bn(1));
}

#[test]
fn zeroize_clears_value() {
    let mut a = bn(123456);
    a.zeroize();
    assert!(a.is_zero());
}

#[test]
fn modadd_residue_in_range() {
    // the residue differs from the plain sum by a multiple of the modulus
    let r = bn(7).modadd(&bn(8), &bn(10));
    assert!(r == bn(5));
    let r = neg(3).modadd(&bn(1), &bn(5));
    assert!(r == bn(3), "negative intermediate results are corrected once");
    let r = bn(3).modsub(&bn(7), &bn(5));
    assert!(r == bn(1));
    let r = bn(7).modmul(&bn(8), &bn(10));
    assert!(r == bn(6));
    let r = neg(2).modmul(&bn(3), &bn(7));
    assert!(r == bn(1));
}

#[test]
fn moddiv_multiplies_by_inverse() {
    // 7^-1 mod 10 == 3, so 3/7 mod 10 == 9
    let r = bn(3).moddiv(&bn(7), &bn(10));
    assert!(r == bn(9));
}

#[test]
fn invert_seventeen_mod_fortythree() {
    // 17 * 38 == 646 == 15 * 43 + 1
    let inv = bn(17).invert(&bn(43));
    assert!(inv == Some(bn(38)));
    let check = bn(17).mul(&bn(38)).rem(&bn(43));
    assert!(check == bn(1));
}

#[test]
fn invert_none_without_inverse() {
    assert!(bn(6).invert(&bn(9)).is_none(), "gcd(6, 9) == 3");
    assert!(bn(0).invert(&bn(5)).is_none(), "zero has no inverse");
    assert!(bn(5).invert(&bn(0)).is_none(), "no inverse modulo zero");
    assert!(bn(5).invert(&bn(1)).is_none(), "no inverse modulo one");
}

#[test]
fn invert_result_is_canonical() {
    for a in 1usize..40 {
        let inv = bn(a).invert(&bn(41)).expect("41 is prime");
        assert!(Bn::zero() <= inv && inv < bn(41));
        assert!(bn(a).mul(&inv).rem(&bn(41)) == bn(1));
    }
}

#[test]
fn modpow_positive_exponent() {
    assert!(bn(2).modpow(&bn(10), &bn(1000)) == bn(24));
    assert!(bn(2).modpow(&bn(10), &neg(1000)) == bn(24), "the modulus is taken by magnitude");
    // a negative base still lands in the canonical range
    assert!(neg(2).modpow(&bn(3), &bn(5)) == bn(2));
    assert!(bn(5).modpow(&bn(0), &bn(7)) == bn(1));
}

#[test]
fn modpow_negative_exponent_inverts() {
    // invert(2, 5) == 3
    assert!(bn(2).modpow(&neg(1), &bn(5)) == bn(3));
    // modpow(a, -e, n) == modpow(invert(a, n), e, n) where a is invertible
    let lhs = bn(17).modpow(&neg(3), &bn(43));
    let inv = bn(17).invert(&bn(43)).unwrap();
    let rhs = inv.modpow(&bn(3), &bn(43));
    assert!(lhs == rhs);
    // and zero where it is not
    assert!(bn(4).modpow(&neg(1), &bn(8)).is_zero());
    assert!(bn(4).modpow(&neg(1), &bn(1)).is_zero(), "no inverse modulo one");
}

#[test]
fn extended_gcd_two_forty_forty_six() {
    let res = bn(240).extended_gcd(&bn(46));
    assert!(res.gcd == bn(2));
    let identity = res.x.mul(&bn(240)).add(&res.y.mul(&bn(46)));
    assert!(identity == bn(2));
}

#[test]
fn extended_gcd_signs_and_zero() {
    let res = neg(240).extended_gcd(&bn(46));
    assert!(res.gcd == bn(2));
    assert!(res.x.mul(&neg(240)).add(&res.y.mul(&bn(46))) == bn(2));
    let res = bn(0).extended_gcd(&bn(0));
    assert!(res.gcd.is_zero());
    assert!(res.x.mul(&bn(0)).add(&res.y.mul(&bn(0))) == bn(0));
    let res = bn(0).extended_gcd(&neg(7));
    assert!(res.gcd == bn(7), "the gcd is never negative");
    assert!(res.x.mul(&bn(0)).add(&res.y.mul(&neg(7))) == bn(7));
}

#[test]
fn extended_gcd_agrees_with_gcd() {
    for (a, b) in [(240usize, 46usize), (12, 18), (35, 64), (0, 5), (7, 7)] {
        let res = bn(a).extended_gcd(&bn(b));
        assert!(res.gcd == bn(a).gcd(&bn(b)));
    }
}

#[test]
fn gcd_and_lcm() {
    assert!(bn(12).gcd(&bn(18)) == bn(6));
    assert!(neg(12).gcd(&bn(18)) == bn(6), "gcd works on magnitudes");
    assert!(bn(4).lcm(&bn(6)) == bn(12));
    assert!(bn(0).lcm(&bn(0)).is_zero());
    assert!(neg(4).lcm(&bn(6)) == bn(12));
}

#[test]
fn byte_codec_round_trips() {
    for v in [0usize, 1, 255, 256, 65535, 123456789] {
        let x = bn(v);
        let back = Bn::from_slice(x.to_bytes().as_slice());
        assert!(back == x);
    }
    // a negative value comes back as its magnitude: the sign is not encoded
    let x = neg(255);
    assert!(Bn::from_slice(x.to_bytes().as_slice()) == bn(255));
}

#[test]
fn byte_codec_exact_forms() {
    assert!(bn(0).to_bytes() == vec![0u8]);
    assert!(bn(255).to_bytes() == vec![0xffu8]);
    assert!(bn(256).to_bytes() == vec![1u8, 0u8]);
    assert!(Bn::from_slice(&[1u8, 0u8]) == bn(256));
    assert!(Bn::from_slice(&[]) == bn(0));
}

#[test]
fn hex_codec_round_trips() {
    for v in [0usize, 1, 255, 4096, 999999] {
        let x = bn(v);
        assert!(Bn::from_hex(x.to_hex().as_str()).unwrap() == x);
        let m = neg(v);
        assert!(Bn::from_hex(m.to_hex().as_str()).unwrap() == m);
    }
}

#[test]
fn hex_codec_exact_forms() {
    assert!(bn(255).to_hex() == "ff");
    assert!(neg(255).to_hex() == "-ff");
    assert!(bn(0).to_hex() == "0");
    assert!(Bn::from_hex("ff").unwrap() == bn(255));
    assert!(Bn::from_hex("-ff").unwrap() == neg(255));
}

#[test]
fn hex_decode_rejects_malformed_input() {
    let err = match Bn::from_hex("not-hex!") {
        Ok(_) => panic!("malformed input must be rejected"),
        Err(e) => e,
    };
    assert!(err.invalid == "not-hex!", "the failure carries the offending string");
    assert!(Bn::from_hex("").is_err());
}

#[test]
fn decimal_rendering() {
    assert!(bn(12345).to_decimal() == "12345");
    assert!(neg(12345).to_decimal() == "-12345");
    assert!(bn(0).to_decimal() == "0");
}

#[test]
fn round_trip_helpers() {
    assert!(Bn::bytes_round_trip(&bn(98765)) == bn(98765));
    assert!(Bn::bytes_round_trip(&neg(98765)) == bn(98765));
    assert!(Bn::hex_round_trip(&neg(98765)) == neg(98765));
}

#[test]
fn random_stays_below_bound() {
    let n = bn(1000);
    for _ in 0..100 {
        let r = Bn::random(&n);
        assert!(Bn::zero() <= r && r < n);
    }
    assert!(Bn::random(&bn(1)).is_zero());
}

#[test]
fn random_large_bound() {
    let n = bn(3).shl(200);
    for _ in 0..10 {
        let r = Bn::random(&n);
        assert!(Bn::zero() <= r && r < n);
    }
}

#[test]
fn is_prime_small_values() {
    assert!(!bn(0).is_prime());
    assert!(!bn(1).is_prime());
    assert!(!neg(7).is_prime());
    assert!(bn(3).is_prime());
    assert!(bn(17).is_prime());
    assert!(!bn(100).is_prime(), "even composites are rejected");
    assert!(!bn(15).is_prime());
}

#[test]
fn generated_primes_pass_the_check() {
    let p = Bn::prime(128);
    assert!(p.is_prime());
    assert!(p.to_bytes().len() == 16, "exactly 128 bits");
    assert!(p.rem(&bn(2)) == bn(1), "primes of this size are odd");
}

#[test]
fn generated_safe_primes_pass_the_check() {
    let p = Bn::safe_prime(128);
    assert!(p.is_prime());
    let q = p.sub(&Bn::one()).div(&bn(2));
    assert!(q.is_prime(), "(p - 1) / 2 is prime as well");
    assert!(p.to_bytes().len() == 16);
}
