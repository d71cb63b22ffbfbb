//! Parameters of the curve secp256k1, `y^2 = x^3 + 7`.
//!
//! Each number is written twice: as 64-bit words, least first, for the code that
//! runs, and in decimal for the proofs. `lemma_words` shows that the two agree.
use crate::bignat::{
    bytes_of_words, le_value, lemma_words_le_value, words_le, words_nat, BigNat,
};
use crate::curve::{CurveType, EllipticCurveParameters, SpecPoint};
use crate::params::{FieldParameters, NumLimbs, NumWords};
use crate::weierstrass::{
    backend_supports, coeff_a, coeff_b, field_modulus, on_curve, SwCurve,
    WeierstrassParameters,
};
use vstd::prelude::*;

verus! {

/// The base field of the curve.
#[derive(Debug, Default, Clone, Copy, PartialEq, Eq)]
pub struct Secp256k1BaseField;

/// The parameters of the curve.
#[derive(Debug, Default, Clone, Copy, PartialEq, Eq)]
pub struct Secp256k1Parameters;

/// The curve.
pub type Secp256k1 = SwCurve<Secp256k1Parameters>;

/// The modulus of the base field.
pub open spec fn modulus() -> nat {
    115792089237316195423570985008687907853269984665640564039457584007908834671663nat
}

/// The modulus of the base field, as 64-bit words, least first.
pub open spec fn modulus_words() -> Seq<u64> {
    seq![
        0xffff_fffe_ffff_fc2fu64,
        0xffff_ffff_ffff_ffffu64,
        0xffff_ffff_ffff_ffffu64,
        0xffff_ffff_ffff_ffffu64,
    ]
}

fn modulus_bytes() -> (r: Vec<u8>)
    ensures
        r@ == words_le(modulus_words()),
{
    let words: Vec<u64> = vec![
        0xffff_fffe_ffff_fc2fu64,
        0xffff_ffff_ffff_ffffu64,
        0xffff_ffff_ffff_ffffu64,
        0xffff_ffff_ffff_ffffu64,
    ];
    assert(words@ =~= modulus_words());
    bytes_of_words(words.as_slice())
}

/// The coefficient `a`.
pub open spec fn a() -> nat {
    0nat
}

/// The coefficient `a`, as 64-bit words, least first.
pub open spec fn a_words() -> Seq<u64> {
    seq![
        0x0000_0000_0000_0000u64,
        0x0000_0000_0000_0000u64,
        0x0000_0000_0000_0000u64,
        0x0000_0000_0000_0000u64,
    ]
}

fn a_bytes() -> (r: Vec<u8>)
    ensures
        r@ == words_le(a_words()),
{
    let words: Vec<u64> = vec![
        0x0000_0000_0000_0000u64,
        0x0000_0000_0000_0000u64,
        0x0000_0000_0000_0000u64,
        0x0000_0000_0000_0000u64,
    ];
    assert(words@ =~= a_words());
    bytes_of_words(words.as_slice())
}

/// The coefficient `b`.
pub open spec fn b() -> nat {
    7nat
}

/// The coefficient `b`, as 64-bit words, least first.
pub open spec fn b_words() -> Seq<u64> {
    seq![
        0x0000_0000_0000_0007u64,
        0x0000_0000_0000_0000u64,
        0x0000_0000_0000_0000u64,
        0x0000_0000_0000_0000u64,
    ]
}

fn b_bytes() -> (r: Vec<u8>)
    ensures
        r@ == words_le(b_words()),
{
    let words: Vec<u64> = vec![
        0x0000_0000_0000_0007u64,
        0x0000_0000_0000_0000u64,
        0x0000_0000_0000_0000u64,
        0x0000_0000_0000_0000u64,
    ];
    assert(words@ =~= b_words());
    bytes_of_words(words.as_slice())
}

/// The `x` coordinate of the generator.
pub open spec fn generator_x() -> nat {
    55066263022277343669578718895168534326250603453777594175500187360389116729240nat
}

/// The `x` coordinate of the generator, as 64-bit words, least first.
pub open spec fn generator_x_words() -> Seq<u64> {
    seq![
        0x59f2_815b_16f8_1798u64,
        0x029b_fcdb_2dce_28d9u64,
        0x55a0_6295_ce87_0b07u64,
        0x79be_667e_f9dc_bbacu64,
    ]
}

fn generator_x_bytes() -> (r: Vec<u8>)
    ensures
        r@ == words_le(generator_x_words()),
{
    let words: Vec<u64> = vec![
        0x59f2_815b_16f8_1798u64,
        0x029b_fcdb_2dce_28d9u64,
        0x55a0_6295_ce87_0b07u64,
        0x79be_667e_f9dc_bbacu64,
    ];
    assert(words@ =~= generator_x_words());
    bytes_of_words(words.as_slice())
}

/// The `y` coordinate of the generator.
pub open spec fn generator_y() -> nat {
    32670510020758816978083085130507043184471273380659243275938904335757337482424nat
}

/// The `y` coordinate of the generator, as 64-bit words, least first.
pub open spec fn generator_y_words() -> Seq<u64> {
    seq![
        0x9c47_d08f_fb10_d4b8u64,
        0xfd17_b448_a685_5419u64,
        0x5da4_fbfc_0e11_08a8u64,
        0x483a_da77_26a3_c465u64,
    ]
}

fn generator_y_bytes() -> (r: Vec<u8>)
    ensures
        r@ == words_le(generator_y_words()),
{
    let words: Vec<u64> = vec![
        0x9c47_d08f_fb10_d4b8u64,
        0xfd17_b448_a685_5419u64,
        0x5da4_fbfc_0e11_08a8u64,
        0x483a_da77_26a3_c465u64,
    ];
    assert(words@ =~= generator_y_words());
    bytes_of_words(words.as_slice())
}

/// The order of the group.
pub open spec fn group_order() -> nat {
    115792089237316195423570985008687907852837564279074904382605163141518161494337nat
}

/// The order of the group, as 64-bit words, least first.
pub open spec fn group_order_words() -> Seq<u64> {
    seq![
        0xbfd2_5e8c_d036_4141u64,
        0xbaae_dce6_af48_a03bu64,
        0xffff_ffff_ffff_fffeu64,
        0xffff_ffff_ffff_ffffu64,
    ]
}

fn group_order_bytes() -> (r: Vec<u8>)
    ensures
        r@ == words_le(group_order_words()),
{
    let words: Vec<u64> = vec![
        0xbfd2_5e8c_d036_4141u64,
        0xbaae_dce6_af48_a03bu64,
        0xffff_ffff_ffff_fffeu64,
        0xffff_ffff_ffff_ffffu64,
    ];
    assert(words@ =~= group_order_words());
    bytes_of_words(words.as_slice())
}

/// The words of each number stand for the number, and the numbers of the field are
/// written in 32 bytes.
#[verifier::rlimit(40)]
pub proof fn lemma_words()
    ensures
        words_le(modulus_words()).len() == 32,
        words_le(a_words()).len() == 32,
        words_le(b_words()).len() == 32,
        le_value(words_le(modulus_words())) == modulus(),
        le_value(words_le(a_words())) == a(),
        le_value(words_le(b_words())) == b(),
        le_value(words_le(generator_x_words())) == generator_x(),
        le_value(words_le(generator_y_words())) == generator_y(),
        le_value(words_le(group_order_words())) == group_order(),
{
    reveal_with_fuel(words_nat, 5);
    lemma_words_le_value(modulus_words());
    lemma_words_le_value(a_words());
    lemma_words_le_value(b_words());
    lemma_words_le_value(generator_x_words());
    lemma_words_le_value(generator_y_words());
    lemma_words_le_value(group_order_words());
}

impl NumLimbs for Secp256k1BaseField {
    const LIMBS: usize = 32;

    const WITNESS: usize = 62;
}

impl NumWords for Secp256k1BaseField {
    const WORDS_FIELD_ELEMENT: usize = 8;

    const WORDS_CURVE_POINT: usize = 16;
}

impl FieldParameters for Secp256k1BaseField {
    const NB_LIMBS: usize = 32;

    const NB_WITNESS_LIMBS: usize = 62;

    open spec fn modulus_le() -> Seq<u8> {
        words_le(modulus_words())
    }

    fn modulus_bytes() -> Vec<u8> {
        modulus_bytes()
    }
}

impl EllipticCurveParameters for Secp256k1Parameters {
    type BaseField = Secp256k1BaseField;

    const CURVE_TYPE: CurveType = CurveType::Secp256k1;
}

impl WeierstrassParameters for Secp256k1Parameters {
    open spec fn a_le() -> Seq<u8> {
        words_le(a_words())
    }

    open spec fn b_le() -> Seq<u8> {
        words_le(b_words())
    }

    open spec fn spec_generator() -> SpecPoint {
        SpecPoint { x: generator_x(), y: generator_y() }
    }

    open spec fn spec_prime_group_order() -> nat {
        group_order()
    }

    proof fn lemma_coefficient_widths() {
        lemma_words();
    }

    fn a_bytes() -> Vec<u8> {
        a_bytes()
    }

    fn b_bytes() -> Vec<u8> {
        b_bytes()
    }

    fn generator() -> (BigNat, BigNat) {
        proof {
            lemma_words();
        }
        let x = generator_x_bytes();
        let y = generator_y_bytes();
        (BigNat::from_bytes_le(x.as_slice()), BigNat::from_bytes_le(y.as_slice()))
    }

    fn prime_group_order() -> BigNat {
        proof {
            lemma_words();
        }
        let n = group_order_bytes();
        BigNat::from_bytes_le(n.as_slice())
    }
}

/// The modulus and the coefficients of the curve, as numbers.
pub proof fn lemma_parameter_values()
    ensures
        field_modulus::<Secp256k1Parameters>() == modulus(),
        coeff_a::<Secp256k1Parameters>() == a(),
        coeff_b::<Secp256k1Parameters>() == b(),
{
    lemma_words();
}

/// The fixed-width backend can compute on this curve, and double-and-add walks
/// 512 binary digits.
pub proof fn lemma_backend_supports()
    ensures
        backend_supports::<Secp256k1Parameters>(),
        backend_supports::<Secp256k1>(),
        <Secp256k1BaseField as FieldParameters>::NB_LIMBS == 32,
{
    lemma_words();
}

/// The curve equation holds of the generator's coordinates, as numbers.
#[verifier::rlimit(40)]
proof fn lemma_curve_equation()
    ensures
        on_curve(modulus(), a(), b(), SpecPoint { x: generator_x(), y: generator_y() }),
{
    let (m, ca, cb, x, y) = (modulus(), a(), b(), generator_x(), generator_y());
    assert((y * y) % m == (x * x * x + ca * x + cb) % m) by (nonlinear_arith)
        requires
            m == modulus(),
            ca == a(),
            cb == b(),
            x == generator_x(),
            y == generator_y(),
    ;
}

/// The generator satisfies the curve equation, and it is reduced.
pub proof fn lemma_generator_on_curve()
    ensures
        on_curve(
            field_modulus::<Secp256k1Parameters>(),
            coeff_a::<Secp256k1Parameters>(),
            coeff_b::<Secp256k1Parameters>(),
            Secp256k1Parameters::spec_generator(),
        ),
        Secp256k1Parameters::spec_generator().x < field_modulus::<Secp256k1Parameters>(),
        Secp256k1Parameters::spec_generator().y < field_modulus::<Secp256k1Parameters>(),
{
    lemma_words();
    lemma_curve_equation();
}

} // verus!
