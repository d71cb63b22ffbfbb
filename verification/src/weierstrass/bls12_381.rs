//! Parameters of the pairing-friendly curve BLS12-381, `y^2 = x^3 + 4`.
//!
//! Each number is written twice: as 64-bit words, least first, for the code that
//! runs, and in decimal for the proofs. `lemma_words` shows that the two agree.
use crate::bignat::{
    bytes_of_words, le_value, lemma_words_le_value, words_le, words_nat, BigNat,
};
use crate::curve::{CurveType, EllipticCurveParameters, SpecPoint};
use crate::params::{FieldParameters, NumLimbs, NumWords};
use crate::weierstrass::{
    backend_supports, coeff_a, coeff_b, field_modulus, on_curve, FieldType, FpOpField, SwCurve,
    WeierstrassParameters,
};
use vstd::prelude::*;

verus! {

/// The base field of the curve.
#[derive(Debug, Default, Clone, Copy, PartialEq, Eq)]
pub struct Bls12381BaseField;

/// The parameters of the curve.
#[derive(Debug, Default, Clone, Copy, PartialEq, Eq)]
pub struct Bls12381Parameters;

/// The curve.
pub type Bls12381 = SwCurve<Bls12381Parameters>;

/// The modulus of the base field.
pub open spec fn modulus() -> nat {
    4002409555221667393417789825735904156556882819939007885332058136124031650490837864442687629129015664037894272559787nat
}

/// The modulus of the base field, as 64-bit words, least first.
pub open spec fn modulus_words() -> Seq<u64> {
    seq![
        0xb9fe_ffff_ffff_aaabu64,
        0x1eab_fffe_b153_ffffu64,
        0x6730_d2a0_f6b0_f624u64,
        0x6477_4b84_f385_12bfu64,
        0x4b1b_a7b6_434b_acd7u64,
        0x1a01_11ea_397f_e69au64,
    ]
}

fn modulus_bytes() -> (r: Vec<u8>)
    ensures
        r@ == words_le(modulus_words()),
{
    let words: Vec<u64> = vec![
        0xb9fe_ffff_ffff_aaabu64,
        0x1eab_fffe_b153_ffffu64,
        0x6730_d2a0_f6b0_f624u64,
        0x6477_4b84_f385_12bfu64,
        0x4b1b_a7b6_434b_acd7u64,
        0x1a01_11ea_397f_e69au64,
    ];
    assert(words@ =~= modulus_words());
    bytes_of_words(words.as_slice())
}

/// The coefficient `a`.
pub open spec fn a() -> nat {
    0nat
}

/// The coefficient `a`, as 64-bit words, least first.
pub open spec fn a_words() -> Seq<u64> {
    seq![
        0x0000_0000_0000_0000u64,
        0x0000_0000_0000_0000u64,
        0x0000_0000_0000_0000u64,
        0x0000_0000_0000_0000u64,
        0x0000_0000_0000_0000u64,
        0x0000_0000_0000_0000u64,
    ]
}

fn a_bytes() -> (r: Vec<u8>)
    ensures
        r@ == words_le(a_words()),
{
    let words: Vec<u64> = vec![
        0x0000_0000_0000_0000u64,
        0x0000_0000_0000_0000u64,
        0x0000_0000_0000_0000u64,
        0x0000_0000_0000_0000u64,
        0x0000_0000_0000_0000u64,
        0x0000_0000_0000_0000u64,
    ];
    assert(words@ =~= a_words());
    bytes_of_words(words.as_slice())
}

/// The coefficient `b`.
pub open spec fn b() -> nat {
    4nat
}

/// The coefficient `b`, as 64-bit words, least first.
pub open spec fn b_words() -> Seq<u64> {
    seq![
        0x0000_0000_0000_0004u64,
        0x0000_0000_0000_0000u64,
        0x0000_0000_0000_0000u64,
        0x0000_0000_0000_0000u64,
        0x0000_0000_0000_0000u64,
        0x0000_0000_0000_0000u64,
    ]
}

fn b_bytes() -> (r: Vec<u8>)
    ensures
        r@ == words_le(b_words()),
{
    let words: Vec<u64> = vec![
        0x0000_0000_0000_0004u64,
        0x0000_0000_0000_0000u64,
        0x0000_0000_0000_0000u64,
        0x0000_0000_0000_0000u64,
        0x0000_0000_0000_0000u64,
        0x0000_0000_0000_0000u64,
    ];
    assert(words@ =~= b_words());
    bytes_of_words(words.as_slice())
}

/// The `x` coordinate of the generator.
pub open spec fn generator_x() -> nat {
    3685416753713387016781088315183077757961620795782546409894578378688607592378376318836054947676345821548104185464507nat
}

/// The `x` coordinate of the generator, as 64-bit words, least first.
pub open spec fn generator_x_words() -> Seq<u64> {
    seq![
        0xfb3a_f00a_db22_c6bbu64,
        0x6c55_e83f_f97a_1aefu64,
        0xa14e_3a3f_171b_ac58u64,
        0xc368_8c4f_9774_b905u64,
        0x2695_638c_4fa9_ac0fu64,
        0x17f1_d3a7_3197_d794u64,
    ]
}

fn generator_x_bytes() -> (r: Vec<u8>)
    ensures
        r@ == words_le(generator_x_words()),
{
    let words: Vec<u64> = vec![
        0xfb3a_f00a_db22_c6bbu64,
        0x6c55_e83f_f97a_1aefu64,
        0xa14e_3a3f_171b_ac58u64,
        0xc368_8c4f_9774_b905u64,
        0x2695_638c_4fa9_ac0fu64,
        0x17f1_d3a7_3197_d794u64,
    ];
    assert(words@ =~= generator_x_words());
    bytes_of_words(words.as_slice())
}

/// The `y` coordinate of the generator.
pub open spec fn generator_y() -> nat {
    1339506544944476473020471379941921221584933875938349620426543736416511423956333506472724655353366534992391756441569nat
}

/// The `y` coordinate of the generator, as 64-bit words, least first.
pub open spec fn generator_y_words() -> Seq<u64> {
    seq![
        0x0caa_2329_46c5_e7e1u64,
        0xd03c_c744_a288_8ae4u64,
        0x00db_18cb_2c04_b3edu64,
        0xfcf5_e095_d5d0_0af6u64,
        0xa09e_30ed_741d_8ae4u64,
        0x08b3_f481_e3aa_a0f1u64,
    ]
}

fn generator_y_bytes() -> (r: Vec<u8>)
    ensures
        r@ == words_le(generator_y_words()),
{
    let words: Vec<u64> = vec![
        0x0caa_2329_46c5_e7e1u64,
        0xd03c_c744_a288_8ae4u64,
        0x00db_18cb_2c04_b3edu64,
        0xfcf5_e095_d5d0_0af6u64,
        0xa09e_30ed_741d_8ae4u64,
        0x08b3_f481_e3aa_a0f1u64,
    ];
    assert(words@ =~= generator_y_words());
    bytes_of_words(words.as_slice())
}

/// The order of the group.
pub open spec fn group_order() -> nat {
    52435875175126190479447740508185965837690552500527637822603658699938581184513nat
}

/// The order of the group, as 64-bit words, least first.
pub open spec fn group_order_words() -> Seq<u64> {
    seq![
        0xffff_ffff_0000_0001u64,
        0x53bd_a402_fffe_5bfeu64,
        0x3339_d808_09a1_d805u64,
        0x73ed_a753_299d_7d48u64,
    ]
}

fn group_order_bytes() -> (r: Vec<u8>)
    ensures
        r@ == words_le(group_order_words()),
{
    let words: Vec<u64> = vec![
        0xffff_ffff_0000_0001u64,
        0x53bd_a402_fffe_5bfeu64,
        0x3339_d808_09a1_d805u64,
        0x73ed_a753_299d_7d48u64,
    ];
    assert(words@ =~= group_order_words());
    bytes_of_words(words.as_slice())
}

/// The words of each number stand for the number, and the numbers of the field are
/// written in 48 bytes.
#[verifier::rlimit(40)]
pub proof fn lemma_words()
    ensures
        words_le(modulus_words()).len() == 48,
        words_le(a_words()).len() == 48,
        words_le(b_words()).len() == 48,
        le_value(words_le(modulus_words())) == modulus(),
        le_value(words_le(a_words())) == a(),
        le_value(words_le(b_words())) == b(),
        le_value(words_le(generator_x_words())) == generator_x(),
        le_value(words_le(generator_y_words())) == generator_y(),
        le_value(words_le(group_order_words())) == group_order(),
{
    reveal_with_fuel(words_nat, 7);
    lemma_words_le_value(modulus_words());
    lemma_words_le_value(a_words());
    lemma_words_le_value(b_words());
    lemma_words_le_value(generator_x_words());
    lemma_words_le_value(generator_y_words());
    lemma_words_le_value(group_order_words());
}

impl NumLimbs for Bls12381BaseField {
    const LIMBS: usize = 48;

    const WITNESS: usize = 94;
}

impl NumWords for Bls12381BaseField {
    const WORDS_FIELD_ELEMENT: usize = 12;

    const WORDS_CURVE_POINT: usize = 24;
}

impl FieldParameters for Bls12381BaseField {
    const NB_LIMBS: usize = 48;

    const NB_WITNESS_LIMBS: usize = 94;

    open spec fn modulus_le() -> Seq<u8> {
        words_le(modulus_words())
    }

    fn modulus_bytes() -> Vec<u8> {
        modulus_bytes()
    }
}

impl FpOpField for Bls12381BaseField {
    const FIELD_TYPE: FieldType = FieldType::Bls12381;
}

impl EllipticCurveParameters for Bls12381Parameters {
    type BaseField = Bls12381BaseField;

    const CURVE_TYPE: CurveType = CurveType::Bls12381;
}

impl WeierstrassParameters for Bls12381Parameters {
    open spec fn a_le() -> Seq<u8> {
        words_le(a_words())
    }

    open spec fn b_le() -> Seq<u8> {
        words_le(b_words())
    }

    open spec fn spec_generator() -> SpecPoint {
        SpecPoint { x: generator_x(), y: generator_y() }
    }

    open spec fn spec_prime_group_order() -> nat {
        group_order()
    }

    proof fn lemma_coefficient_widths() {
        lemma_words();
    }

    fn a_bytes() -> Vec<u8> {
        a_bytes()
    }

    fn b_bytes() -> Vec<u8> {
        b_bytes()
    }

    fn generator() -> (BigNat, BigNat) {
        proof {
            lemma_words();
        }
        let x = generator_x_bytes();
        let y = generator_y_bytes();
        (BigNat::from_bytes_le(x.as_slice()), BigNat::from_bytes_le(y.as_slice()))
    }

    fn prime_group_order() -> BigNat {
        proof {
            lemma_words();
        }
        let n = group_order_bytes();
        BigNat::from_bytes_le(n.as_slice())
    }
}

/// The modulus and the coefficients of the curve, as numbers.
pub proof fn lemma_parameter_values()
    ensures
        field_modulus::<Bls12381Parameters>() == modulus(),
        coeff_a::<Bls12381Parameters>() == a(),
        coeff_b::<Bls12381Parameters>() == b(),
{
    lemma_words();
}

/// The fixed-width backend can compute on this curve, and double-and-add walks
/// 768 binary digits.
pub proof fn lemma_backend_supports()
    ensures
        backend_supports::<Bls12381Parameters>(),
        backend_supports::<Bls12381>(),
        <Bls12381BaseField as FieldParameters>::NB_LIMBS == 48,
{
    lemma_words();
}

/// The curve equation holds of the generator's coordinates, as numbers.
#[verifier::rlimit(40)]
proof fn lemma_curve_equation()
    ensures
        on_curve(modulus(), a(), b(), SpecPoint { x: generator_x(), y: generator_y() }),
{
    let (m, ca, cb, x, y) = (modulus(), a(), b(), generator_x(), generator_y());
    assert((y * y) % m == (x * x * x + ca * x + cb) % m) by (nonlinear_arith)
        requires
            m == modulus(),
            ca == a(),
            cb == b(),
            x == generator_x(),
            y == generator_y(),
    ;
}

/// The generator satisfies the curve equation, and it is reduced.
pub proof fn lemma_generator_on_curve()
    ensures
        on_curve(
            field_modulus::<Bls12381Parameters>(),
            coeff_a::<Bls12381Parameters>(),
            coeff_b::<Bls12381Parameters>(),
            Bls12381Parameters::spec_generator(),
        ),
        Bls12381Parameters::spec_generator().x < field_modulus::<Bls12381Parameters>(),
        Bls12381Parameters::spec_generator().y < field_modulus::<Bls12381Parameters>(),
{
    lemma_words();
    lemma_curve_equation();
}

} // verus!
