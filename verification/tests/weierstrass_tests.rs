use curves::bignat::BigNat;
use curves::curve::{AffinePoint, CurveType, EllipticCurve, EllipticCurveParameters};
use curves::params::FieldParameters;
use curves::weierstrass::bls12_381::{Bls12381, Bls12381BaseField, Bls12381Parameters};
use curves::weierstrass::bn254::{Bn254, Bn254BaseField, Bn254Parameters};
use curves::weierstrass::secp256k1::{Secp256k1, Secp256k1BaseField, Secp256k1Parameters};
use curves::weierstrass::{FieldType, FpOpField, SwCurve, WeierstrassParameters};
use num::bigint::RandBigInt;
use num::{BigUint, One};
use rand::thread_rng;

fn big(v: &BigUint) -> BigNat {
    BigNat::from_bytes_le(&v.to_bytes_le())
}

fn num_of(v: &BigNat) -> BigUint {
    BigUint::from_bytes_le(&v.to_bytes_le())
}

fn dec(s: &str) -> BigNat {
    big(&BigUint::parse_bytes(s.as_bytes(), 10).unwrap())
}

fn point<E>(x: &str, y: &str) -> AffinePoint<E> {
    AffinePoint::new(dec(x), dec(y))
}

fn pow_mod(base: &BigUint, exp: &BigUint, m: &BigUint) -> BigUint {
    base.modpow(exp, m)
}

/// The tangent rule, computed with another library and with the Fermat inverse.
fn reference_double(x: &BigUint, y: &BigUint, a: &BigUint, p: &BigUint) -> (BigUint, BigUint) {
    let two = BigUint::from(2u32);
    let inv = pow_mod(&((&two * y) % p), &(p - &two), p);
    let s = ((BigUint::from(3u32) * x * x + a) * inv) % p;
    let x3 = (&s * &s + p + p - x - x) % p;
    let y3 = (&s * ((p + x - &x3) % p) + p - y) % p;
    (x3, y3)
}

/// The chord rule, computed with another library and with the Fermat inverse.
fn reference_add(
    x1: &BigUint,
    y1: &BigUint,
    x2: &BigUint,
    y2: &BigUint,
    p: &BigUint,
) -> (BigUint, BigUint) {
    let two = BigUint::from(2u32);
    let inv = pow_mod(&((p + x2 - x1) % p), &(p - &two), p);
    let s = (((p + y2 - y1) % p) * inv) % p;
    let x3 = (&s * &s + p + p - x1 - x2) % p;
    let y3 = (&s * ((p + x1 - &x3) % p) + p - y1) % p;
    (x3, y3)
}

fn generator_is_on_curve<E: WeierstrassParameters>() {
    let p = num_of(&E::BaseField::modulus());
    let (x, y) = E::generator();
    let (x, y) = (num_of(&x), num_of(&y));
    let a = num_of(&E::a_int());
    let b = num_of(&E::b_int());
    assert!(x < p && y < p);
    assert_eq!((&y * &y) % &p, (&x * &x * &x + a * &x + b) % &p);
}

fn doubling_matches_reference<E: WeierstrassParameters>() {
    let p = num_of(&E::BaseField::modulus());
    let a = num_of(&E::a_int());
    let mut q = SwCurve::<E>::generator();
    for _ in 0..5 {
        let doubled = q.sw_double();
        let (x, y) = reference_double(&num_of(&q.x), &num_of(&q.y), &a, &p);
        assert_eq!(num_of(&doubled.x), x);
        assert_eq!(num_of(&doubled.y), y);
        q = doubled;
    }
}

#[test]
fn test_weierstrass_biguint_scalar_mul() {
    type E = Bn254;
    let base = E::generator();

    let mut rng = thread_rng();
    for _ in 0..10 {
        let x = rng.gen_biguint(24);
        let y = rng.gen_biguint(25);

        let x_base = base.sw_scalar_mul(&big(&x));
        let y_x_base = x_base.sw_scalar_mul(&big(&y));
        let xy = &x * &y;
        let xy_base = base.sw_scalar_mul(&big(&xy));
        assert_eq!(y_x_base, xy_base);
    }
}

#[test]
fn generators_satisfy_the_curve_equation() {
    generator_is_on_curve::<Bn254Parameters>();
    generator_is_on_curve::<Secp256k1Parameters>();
    generator_is_on_curve::<Bls12381Parameters>();
    generator_is_on_curve::<Bn254>();
}

#[test]
fn parameters_have_their_known_values() {
    assert_eq!(
        Bn254BaseField::modulus(),
        dec("21888242871839275222246405745257275088696311157297823662689037894645226208583")
    );
    assert_eq!(Bn254BaseField::modulus_bytes().len(), 32);
    assert_eq!(Bn254BaseField::modulus_bytes()[..4], [71, 253, 124, 216]);
    assert_eq!(
        Secp256k1BaseField::modulus(),
        dec("115792089237316195423570985008687907853269984665640564039457584007908834671663")
    );
    assert_eq!(Bls12381BaseField::modulus_bytes().len(), 48);
    assert_eq!(Bls12381BaseField::modulus_bytes()[..4], [171, 170, 255, 255]);
    assert_eq!(Bn254Parameters::a_int(), BigNat::zero());
    assert_eq!(Bn254Parameters::b_int(), BigNat::from_u64(3));
    assert_eq!(Secp256k1Parameters::b_int(), BigNat::from_u64(7));
    assert_eq!(Bls12381Parameters::b_int(), BigNat::from_u64(4));
    assert_eq!(Bn254::a_int(), BigNat::zero());
    assert_eq!(Bn254::b_int(), BigNat::from_u64(3));
    assert_eq!(Bn254Parameters::a_bytes(), vec![0u8; 32]);
    assert_eq!(Bls12381Parameters::b_bytes().len(), 48);
    assert_eq!(
        Bn254Parameters::prime_group_order(),
        dec("21888242871839275222246405745257275088548364400416034343698204186575808495617")
    );
    assert_eq!(
        Secp256k1Parameters::prime_group_order(),
        dec("115792089237316195423570985008687907852837564279074904382605163141518161494337")
    );
    assert_eq!(
        Bls12381Parameters::prime_group_order(),
        dec("52435875175126190479447740508185965837690552500527637822603658699938581184513")
    );
    assert_eq!(Bn254::generator(), AffinePoint::new(BigNat::from_u64(1), BigNat::from_u64(2)));
}

#[test]
fn scalar_bit_width_is_sixteen_per_limb() {
    assert_eq!(Bn254Parameters::nb_scalar_bits(), 512);
    assert_eq!(Secp256k1::nb_scalar_bits(), 512);
    assert_eq!(Bls12381Parameters::nb_scalar_bits(), 768);
    assert_eq!(Bn254BaseField::NB_LIMBS, 32);
    assert_eq!(Bls12381BaseField::NB_LIMBS, 48);
    assert_eq!(<Bn254 as EllipticCurve>::NB_LIMBS, 32);
    assert_eq!(<Bls12381 as EllipticCurve>::NB_LIMBS, 48);
    assert_eq!(<Bn254 as EllipticCurve>::NB_WITNESS_LIMBS, Bn254BaseField::NB_WITNESS_LIMBS);
    assert_eq!(<Secp256k1 as EllipticCurve>::NB_WITNESS_LIMBS, 62);
    assert_eq!(<Bls12381 as EllipticCurve>::NB_WITNESS_LIMBS, 94);
}

#[test]
fn curve_and_field_tags() {
    assert_eq!(Bn254Parameters::CURVE_TYPE, CurveType::Bn254);
    assert_eq!(Bn254::CURVE_TYPE, CurveType::Bn254);
    assert_eq!(Secp256k1::CURVE_TYPE, CurveType::Secp256k1);
    assert_eq!(Bls12381::CURVE_TYPE, CurveType::Bls12381);
    assert_eq!(Bn254BaseField::FIELD_TYPE, FieldType::Bn254);
    assert_eq!(Bls12381BaseField::FIELD_TYPE, FieldType::Bls12381);
}

#[test]
fn doubling_exact_values() {
    assert_eq!(
        Bn254::generator().sw_double(),
        point(
            "1368015179489954701390400359078579693043519447331113978918064868415326638035",
            "9918110051302171585080402603319702774565515993150576347155970296011118125764"
        )
    );
    assert_eq!(
        Secp256k1::generator().sw_double(),
        point(
            "89565891926547004231252920425935692360644145829622209833684329913297188986597",
            "12158399299693830322967808612713398636155367887041628176798871954788371653930"
        )
    );
    assert_eq!(
        Bls12381::generator().sw_double(),
        point(
            "838589206289216005799424730305866328161735431124665289961769162861615689790485775997575391185127590486775437397838",
            "3450209970729243429733164009999191867485184320918914219895632678707687208996709678363578245114137957452475385814312"
        )
    );
}

#[test]
fn addition_exact_values() {
    let g = Bn254::generator();
    assert_eq!(
        g.sw_add(&g.sw_double()),
        point(
            "3353031288059533942658390886683067124040920775575537747144343083137631628272",
            "19321533766552368860946552437480515441416830039777911637913418824951667761761"
        )
    );
    let h = Secp256k1::generator();
    assert_eq!(
        h.sw_add(&h.sw_double()),
        point(
            "112711660439710606056748659173929673102114977341539408544630613555209775888121",
            "25583027980570883691656905877401976406448868254816295069919888960541586679410"
        )
    );
    let k = Bls12381::generator();
    assert_eq!(
        k.sw_double().sw_add(&k),
        point(
            "1527649530533633684281386512094328299672026648504329745640827351945739272160755686119065091946435084697047221031460",
            "487897572011753812113448064805964756454529228648704488481988876974355015977479905373670519228592356747638779818193"
        )
    );
}

#[test]
fn addition_matches_reference() {
    let p = num_of(&Bn254BaseField::modulus());
    let g = Bn254::generator();
    let mut q = g.sw_double();
    for _ in 0..5 {
        let sum = g.sw_add(&q);
        let (x, y) =
            reference_add(&num_of(&g.x), &num_of(&g.y), &num_of(&q.x), &num_of(&q.y), &p);
        assert_eq!((num_of(&sum.x), num_of(&sum.y)), (x, y));
        q = sum;
    }
}

#[test]
fn addition_is_commutative() {
    let g = Secp256k1::generator();
    let a = g.sw_scalar_mul(&BigNat::from_u64(7));
    let b = g.sw_scalar_mul(&BigNat::from_u64(1_000_003));
    assert_eq!(a.sw_add(&b), b.sw_add(&a));
    let c = Bls12381::generator();
    let d = c.sw_double();
    assert_eq!(c.sw_add(&d), d.sw_add(&c));
}

#[test]
fn addition_of_a_point_to_itself_is_refused() {
    let g = Bn254::generator();
    assert_eq!(g.try_sw_add(&g.clone()), None);
    assert!(g.try_sw_add(&g.sw_double()).is_some());
}

#[test]
fn addition_of_a_point_to_its_negative_is_refused() {
    let g = Bn254::generator();
    let minus_g = Bn254::ec_neg(&g);
    assert_eq!(g.try_sw_add(&minus_g), None);
}

#[test]
fn doubling_a_point_with_y_zero_is_refused() {
    let p: AffinePoint<Bn254> = AffinePoint::new(BigNat::from_u64(5), BigNat::zero());
    assert_eq!(p.try_sw_double(), None);
}

#[test]
fn doubling_matches_independent_reference() {
    doubling_matches_reference::<Bn254Parameters>();
    doubling_matches_reference::<Secp256k1Parameters>();
    doubling_matches_reference::<Bls12381Parameters>();
}

#[test]
fn negation_mirrors_y() {
    let g = Secp256k1::generator();
    let minus_g = Secp256k1::ec_neg(&g);
    let p = num_of(&Secp256k1BaseField::modulus());
    assert_eq!(minus_g.x, g.x);
    assert_eq!(num_of(&minus_g.y), &p - num_of(&g.y));
}

#[test]
fn negation_round_trip() {
    for g in [Bn254::generator(), Bn254::generator().sw_double()] {
        assert_eq!(Bn254::ec_neg(&Bn254::ec_neg(&g)), g);
    }
    // y = 0 is sent to the modulus itself, and back
    let p: AffinePoint<Bn254> = AffinePoint::new(BigNat::from_u64(5), BigNat::zero());
    let q = Bn254::ec_neg(&p);
    assert_eq!(q.y, Bn254BaseField::modulus());
    assert_eq!(Bn254::ec_neg(&q), p);
}

#[test]
fn generic_curve_operations() {
    let g = Bn254::ec_generator();
    assert_eq!(g, Bn254::generator());
    assert_eq!(Bn254::ec_double(&g), g.sw_double());
    assert_eq!(Bn254::ec_add(&g, &g.sw_double()), g.sw_add(&g.sw_double()));
    assert_eq!(Bn254::ec_neutral(), None);
    assert_eq!(Bls12381::ec_neutral(), None);
}

#[test]
fn scalar_multiplication_commutes() {
    let g = Bn254::generator();
    let x = BigNat::from_u64(12345);
    let y = BigNat::from_u64(54321);
    let xy = BigNat::from_u64(12345 * 54321);
    let a = g.sw_scalar_mul(&x).sw_scalar_mul(&y);
    let b = g.sw_scalar_mul(&y).sw_scalar_mul(&x);
    let c = g.sw_scalar_mul(&xy);
    assert_eq!(a, b);
    assert_eq!(a, c);
    assert_eq!(
        c,
        point(
            "8987068129034795281707517351156713120991835165207105363130060289810651418346",
            "8556061436868461281397286798287729380529892596824146599028419831866235481981"
        )
    );
}

#[test]
fn scalar_multiplication_exact_values() {
    assert_eq!(Bn254::generator().sw_scalar_mul(&BigNat::from_u64(1)), Bn254::generator());
    assert_eq!(
        Secp256k1::generator().sw_scalar_mul(&BigNat::from_u64(12345 * 54321)),
        point(
            "109726058235763394024250749966116606564726482586111059671808547621029324748620",
            "21035693154565596009454821808364886976512356667941155803210535948437320044214"
        )
    );
    assert_eq!(
        Bls12381::generator().sw_scalar_mul(&BigNat::from_u64(3)),
        point(
            "1527649530533633684281386512094328299672026648504329745640827351945739272160755686119065091946435084697047221031460",
            "487897572011753812113448064805964756454529228648704488481988876974355015977479905373670519228592356747638779818193"
        )
    );
}

#[test]
fn scalar_multiplication_by_a_power_of_two_is_repeated_doubling() {
    let g = Secp256k1::generator();
    let mut doubled = g.clone();
    for j in 0..12u32 {
        assert_eq!(g.sw_scalar_mul(&BigNat::from_u64(1 << j)), doubled);
        doubled = doubled.sw_double();
    }
    // the highest digit that is walked
    let g = Bn254::generator();
    let mut doubled = g.clone();
    for _ in 0..511 {
        doubled = doubled.sw_double();
    }
    let top = big(&(BigUint::one() << 511u32));
    assert_eq!(g.sw_scalar_mul(&top), doubled);
}

#[test]
fn scalar_multiplication_by_zero_is_refused() {
    assert_eq!(Bn254::generator().try_sw_scalar_mul(&BigNat::zero()), None);
    assert_eq!(Bls12381::generator().try_sw_scalar_mul(&BigNat::zero()), None);
}

#[test]
fn scalar_multiplication_drops_the_digits_above_the_width() {
    let g = Bn254::generator();
    let five = BigNat::from_u64(5);
    let beyond = big(&((BigUint::one() << 512u32) + BigUint::from(5u32)));
    assert_eq!(g.try_sw_scalar_mul(&beyond), g.try_sw_scalar_mul(&five));
    // a scalar with none of the walked digits set is as good as zero
    let only_beyond = big(&(BigUint::one() << 512u32));
    assert_eq!(g.try_sw_scalar_mul(&only_beyond), None);
}

#[test]
fn scalar_multiplication_by_the_group_order_is_refused() {
    // n * G is the point at infinity: the last addition meets a point and its negative
    let g = Bn254::generator();
    assert_eq!(g.try_sw_scalar_mul(&Bn254Parameters::prime_group_order()), None);
}

#[test]
fn reducedness_is_told() {
    let g = Bn254::generator();
    assert!(g.is_reduced());
    let q: AffinePoint<Bn254> = AffinePoint::new(BigNat::from_u64(1), Bn254BaseField::modulus());
    assert!(!q.is_reduced());
    assert!(g.is_equal(&Bn254::generator()));
    assert!(!g.is_equal(&g.sw_double()));
}

fn on_curve<E: WeierstrassParameters>(point: &AffinePoint<SwCurve<E>>) -> bool {
    let p = num_of(&E::BaseField::modulus());
    let (x, y) = (num_of(&point.x), num_of(&point.y));
    let a = num_of(&E::a_int());
    let b = num_of(&E::b_int());
    (&y * &y) % &p == (&x * &x * &x + a * &x + b) % &p
}

#[test]
fn results_stay_on_the_curve() {
    let g = Secp256k1::generator();
    let g2 = g.sw_double();
    let g3 = g.sw_add(&g2);
    assert!(on_curve(&g2) && on_curve(&g3));
    assert!(on_curve(&Secp256k1::ec_neg(&g3)));
    assert!(on_curve(&g.sw_scalar_mul(&BigNat::from_u64(987_654_321))));
    let h = Bls12381::generator();
    assert!(on_curve(&h.sw_double().sw_add(&h)));
    assert!(on_curve(&h.sw_scalar_mul(&BigNat::from_u64(1 << 40))));
    // a point that is not on the curve
    let off: AffinePoint<Secp256k1> = AffinePoint::new(BigNat::from_u64(1), BigNat::from_u64(1));
    assert!(!on_curve(&off));
}

#[test]
fn double_plus_negative_gives_the_point_back() {
    let p = Bn254::generator();
    assert_eq!(p.sw_double().sw_add(&Bn254::ec_neg(&p)), p);
    let q = Secp256k1::generator().sw_scalar_mul(&BigNat::from_u64(77));
    assert_eq!(q.sw_double().sw_add(&Secp256k1::ec_neg(&q)), q);
    let r = Bls12381::generator();
    assert_eq!(r.sw_double().sw_add(&Bls12381::ec_neg(&r)), r);
}
