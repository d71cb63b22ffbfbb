use curves::backend::FieldBackend;
use curves::bignat::BigNat;
use curves::fixed_width::FixedWidth;
use curves::software::{biguint_to_dashu, dashu_modpow, dashu_to_biguint, Software};
use curves::params::FieldParameters;
use curves::weierstrass::bn254::{Bn254, Bn254BaseField};
use curves::weierstrass::secp256k1::Secp256k1;
use num::bigint::RandBigInt;
use num::{BigUint, Integer, One, Zero};
use rand::thread_rng;

type Narrow = FixedWidth<256, 4>;
type Wide = FixedWidth<512, 8>;

fn n(v: u64) -> BigNat {
    BigNat::from_u64(v)
}

fn arithmetic_of<B: FieldBackend>() {
    let m = n(97);
    assert_eq!(B::add_mod(&n(90), &n(10), &m), n(3));
    assert_eq!(B::add_mod(&n(0), &n(0), &m), n(0));
    assert_eq!(B::sub_mod(&n(3), &n(10), &m), n(90));
    assert_eq!(B::sub_mod(&n(10), &n(3), &m), n(7));
    // the subtrahend may be the modulus itself
    assert_eq!(B::sub_mod(&n(5), &n(97), &m), n(5));
    assert_eq!(B::mul_mod(&n(50), &n(4), &m), n(6));
    assert_eq!(B::mul_mod(&n(96), &n(96), &m), n(1));
    // 3 * 65 = 195 = 2 * 97 + 1
    assert_eq!(B::inv_mod(&n(3), &m), Some(n(65)));
    assert_eq!(B::inv_mod(&n(1), &m), Some(n(1)));
    assert_eq!(B::inv_mod(&n(0), &m), None);
}

#[test]
fn fixed_width_256_arithmetic() {
    arithmetic_of::<Narrow>();
}

#[test]
fn fixed_width_512_arithmetic() {
    arithmetic_of::<Wide>();
}

#[test]
fn software_arithmetic() {
    arithmetic_of::<Software>();
}

#[test]
fn fixed_width_takes_unreduced_operands() {
    let m = n(97);
    assert_eq!(Narrow::add_mod(&n(1000), &n(2000), &m), n(3000 % 97));
    assert_eq!(Narrow::mul_mod(&n(1000), &n(2000), &m), n(2_000_000 % 97));
    assert_eq!(Narrow::inv_mod(&n(100), &m), Some(n(65)));
}

#[test]
fn fixed_width_finds_no_inverse_of_a_common_factor() {
    assert_eq!(Narrow::inv_mod(&n(6), &n(15)), None);
    assert_eq!(Narrow::inv_mod(&n(2), &n(15)), Some(n(8)));
    assert_eq!(Narrow::inv_mod(&n(5), &n(1)), None);
    assert_eq!(Narrow::inv_mod(&n(5), &n(0)), None);
}

#[test]
fn software_inverse_is_the_fermat_power() {
    // 15 is not prime: 2^13 mod 15 = 2 is not the inverse of 2, though 8 is
    assert_eq!(Software::inv_mod(&n(2), &n(15)), None);
    assert_eq!(Software::inv_mod(&n(2), &n(1)), None);
    assert_eq!(Software::inv_mod(&n(2), &n(0)), None);
    // 13 is prime: 2^11 mod 13 = 7, and 2 * 7 = 14
    assert_eq!(Software::inv_mod(&n(2), &n(13)), Some(n(7)));
}

#[test]
fn fixed_width_works_at_full_width() {
    let max = BigNat::from_bytes_le(&[255; 32]);
    let m = BigNat::from_bytes_le(&[254; 32]);
    let sum = Narrow::add_mod(&max, &max, &m);
    // max = m + r with r = 0x0101..01, so 2 * max = 2 * r (mod m)
    assert_eq!(sum, BigNat::from_bytes_le(&[2; 32]));
}

#[test]
fn dashu_modpow_exact_values() {
    assert_eq!(dashu_modpow(&[4], &[13], &[241, 1]), vec![189, 1]); // 4^13 mod 497 = 445
    assert_eq!(dashu_modpow(&[5], &[0], &[7]), vec![1]);
    assert_eq!(dashu_modpow(&[0], &[5], &[7]), Vec::<u8>::new());
}

#[test]
fn dashu_modpow_modulus_one_gives_zero() {
    assert_eq!(dashu_modpow(&[9], &[9], &[1]), Vec::<u8>::new());
}

#[test]
fn dashu_modpow_takes_exponents_at_or_above_the_modulus() {
    // 2^5 = 32 and 32 mod 3 = 2
    assert_eq!(dashu_modpow(&[2], &[5], &[3]), vec![2]);
    // 2^10 = 1024 and 1024 mod 7 = 2
    assert_eq!(dashu_modpow(&[2], &[10], &[7]), vec![2]);
    // the exponent of an inverse, modulus - 2: 3^5 mod 7 = 5, and 3 * 5 = 15
    assert_eq!(dashu_modpow(&[3], &[5], &[7]), vec![5]);
    // an exponent that is the modulus: 5^7 mod 7 = 5
    assert_eq!(dashu_modpow(&[5], &[7], &[7]), vec![5]);
}

#[test]
fn dashu_modpow_modulo_one_takes_operands_of_any_width() {
    assert_eq!(dashu_modpow(&[7; 40], &[9; 50], &[1]), Vec::<u8>::new());
}

#[test]
fn dashu_digits_round_trip() {
    let x = BigNat::from_bytes_le(&[1, 2, 3, 0, 0]);
    assert_eq!(biguint_to_dashu(&x), vec![1, 2, 3]);
    assert_eq!(dashu_to_biguint(&biguint_to_dashu(&x)), x);
    assert_eq!(biguint_to_dashu(&BigNat::zero()), Vec::<u8>::new());
    assert_eq!(dashu_to_biguint(&[]), BigNat::zero());
    assert_eq!(dashu_to_biguint(&[5, 0, 0]), n(5));
}

#[test]
fn backends_agree_on_addition_and_doubling() {
    let g = Bn254::generator();
    let g2 = g.try_sw_double().unwrap();
    assert_eq!(g.sw_double_generic::<Narrow>(), Some(g2.clone()));
    assert_eq!(g.sw_double_generic::<Wide>(), Some(g2.clone()));
    assert_eq!(g.sw_double_generic::<Software>(), Some(g2.clone()));
    let g3 = g.try_sw_add(&g2).unwrap();
    assert_eq!(g.sw_add_generic::<Narrow>(&g2), Some(g3.clone()));
    assert_eq!(g.sw_add_generic::<Wide>(&g2), Some(g3.clone()));
    assert_eq!(g.sw_add_generic::<Software>(&g2), Some(g3.clone()));

    let h = Secp256k1::generator();
    let h2 = h.sw_double();
    assert_eq!(h.sw_double_generic::<Software>(), Some(h2.clone()));
    assert_eq!(h.sw_add_generic::<Software>(&h2), h.sw_add_generic::<Wide>(&h2));
}

#[test]
fn backends_agree_on_scalar_multiplication() {
    let g = Bn254::generator();
    for k in [1u64, 2, 3, 12345, 54321, 0xffff_ffff] {
        let expected = g.try_sw_scalar_mul(&n(k));
        assert!(expected.is_some());
        assert_eq!(g.sw_scalar_mul_generic::<Narrow>(&n(k)), expected);
        assert_eq!(g.sw_scalar_mul_generic::<Wide>(&n(k)), expected);
        assert_eq!(g.sw_scalar_mul_generic::<Software>(&n(k)), expected);
    }
}

fn to_big(v: &BigUint) -> BigNat {
    BigNat::from_bytes_le(&v.to_bytes_le())
}

fn to_num(v: &BigNat) -> BigUint {
    BigUint::from_bytes_le(&v.to_bytes_le())
}

/// Holds a backend to another library on random operands of up to `bits` bits.
fn matches_reference<B: FieldBackend>(bits: u64, rounds: usize) {
    let mut rng = thread_rng();
    for _ in 0..rounds {
        let m = rng.gen_biguint(bits) + BigUint::one();
        let a = rng.gen_biguint(bits);
        let b = rng.gen_biguint(bits);
        let (am, bm, mm) = (to_big(&a), to_big(&b), to_big(&m));
        assert_eq!(to_num(&B::add_mod(&am, &bm, &mm)), (&a + &b) % &m);
        assert_eq!(to_num(&B::mul_mod(&am, &bm, &mm)), (&a * &b) % &m);
        let small = &b % &m;
        let expected = ((&a % &m) + &m - &small) % &m;
        assert_eq!(to_num(&B::sub_mod(&am, &to_big(&small), &mm)), expected);
        match B::inv_mod(&am, &mm) {
            Some(v) => {
                let v = to_num(&v);
                assert!(v < m);
                assert_eq!((&a * &v) % &m, BigUint::one());
            }
            None => assert!(m.is_one() || !a.gcd(&m).is_one() || a.is_zero()),
        }
    }
}

#[test]
fn fixed_width_matches_reference_on_random_operands() {
    matches_reference::<Narrow>(256, 200);
    matches_reference::<Narrow>(64, 100);
    matches_reference::<Narrow>(8, 100);
    matches_reference::<Wide>(512, 200);
    matches_reference::<Wide>(384, 100);
}

#[test]
fn fixed_width_finds_every_inverse_on_random_operands() {
    let mut rng = thread_rng();
    for _ in 0..200 {
        let m = rng.gen_biguint(256) + BigUint::from(2u32);
        let a = rng.gen_biguint(256);
        let found = Narrow::inv_mod(&to_big(&a), &to_big(&m)).is_some();
        assert_eq!(found, a.gcd(&m).is_one());
    }
}

#[test]
fn software_matches_reference_over_a_prime_field() {
    let p = to_num(&Bn254BaseField::modulus());
    let pm = to_big(&p);
    let mut rng = thread_rng();
    for _ in 0..50 {
        let a = rng.gen_biguint_below(&p);
        let b = rng.gen_biguint_below(&p);
        let (am, bm) = (to_big(&a), to_big(&b));
        assert_eq!(to_num(&Software::add_mod(&am, &bm, &pm)), (&a + &b) % &p);
        assert_eq!(to_num(&Software::mul_mod(&am, &bm, &pm)), (&a * &b) % &p);
        assert_eq!(to_num(&Software::sub_mod(&am, &bm, &pm)), (&a + &p - &b) % &p);
        assert_eq!(Software::inv_mod(&am, &pm), Narrow::inv_mod(&am, &pm));
        assert_eq!(Software::inv_mod(&am, &pm).is_some(), !a.is_zero());
    }
}

#[test]
fn dashu_modpow_matches_reference_on_random_operands() {
    let mut rng = thread_rng();
    for _ in 0..100 {
        let m = rng.gen_biguint(256) + BigUint::one();
        let base = rng.gen_biguint(256);
        let exp = rng.gen_biguint(256);
        let expected = if m.is_one() { BigUint::zero() } else { base.modpow(&exp, &m) };
        let got = dashu_modpow(
            &biguint_to_dashu(&to_big(&base)),
            &biguint_to_dashu(&to_big(&exp)),
            &biguint_to_dashu(&to_big(&m)),
        );
        assert_eq!(BigUint::from_bytes_le(&got), expected);
    }
}
