//! Parameters of the pairing-friendly curve BN254, `y^2 = x^3 + 3`.
//!
//! Each number is written twice: as 64-bit words, least first, for the code that
//! runs, and in decimal for the proofs. `lemma_words` shows that the two agree.
use crate::bignat::{
    bytes_of_words, le_value, lemma_words_le_value, words_le, words_nat, BigNat,
};
use crate::curve::{CurveType, EllipticCurveParameters, SpecPoint};
use crate::params::{FieldParameters, NumLimbs, NumWords};
use crate::weierstrass::{
    backend_supports, coeff_a, coeff_b, field_modulus, on_curve, FieldType, FpOpField, SwCurve,
    WeierstrassParameters,
};
use vstd::prelude::*;

verus! {

/// The base field of the curve.
#[derive(Debug, Default, Clone, Copy, PartialEq, Eq)]
pub struct Bn254BaseField;

/// The parameters of the curve.
#[derive(Debug, Default, Clone, Copy, PartialEq, Eq)]
pub struct Bn254Parameters;

/// The curve.
pub type Bn254 = SwCurve<Bn254Parameters>;

/// The modulus of the base field.
pub open spec fn modulus() -> nat {
    21888242871839275222246405745257275088696311157297823662689037894645226208583nat
}

/// The modulus of the base field, as 64-bit words, least first.
pub open spec fn modulus_words() -> Seq<u64> {
    seq![
        0x3c20_8c16_d87c_fd47u64,
        0x9781_6a91_6871_ca8du64,
        0xb850_45b6_8181_585du64,
        0x3064_4e72_e131_a029u64,
    ]
}

fn modulus_bytes() -> (r: Vec<u8>)
    ensures
        r@ == words_le(modulus_words()),
{
    let words: Vec<u64> = vec![
        0x3c20_8c16_d87c_fd47u64,
        0x9781_6a91_6871_ca8du64,
        0xb850_45b6_8181_585du64,
        0x3064_4e72_e131_a029u64,
    ];
    assert(words@ =~= modulus_words());
    bytes_of_words(words.as_slice())
}

/// The coefficient `a`.
pub open spec fn a() -> nat {
    0nat
}

/// The coefficient `a`, as 64-bit words, least first.
pub open spec fn a_words() -> Seq<u64> {
    seq![
        0x0000_0000_0000_0000u64,
        0x0000_0000_0000_0000u64,
        0x0000_0000_0000_0000u64,
        0x0000_0000_0000_0000u64,
    ]
}

fn a_bytes() -> (r: Vec<u8>)
    ensures
        r@ == words_le(a_words()),
{
    let words: Vec<u64> = vec![
        0x0000_0000_0000_0000u64,
        0x0000_0000_0000_0000u64,
        0x0000_0000_0000_0000u64,
        0x0000_0000_0000_0000u64,
    ];
    assert(words@ =~= a_words());
    bytes_of_words(words.as_slice())
}

/// The coefficient `b`.
pub open spec fn b() -> nat {
    3nat
}

/// The coefficient `b`, as 64-bit words, least first.
pub open spec fn b_words() -> Seq<u64> {
    seq![
        0x0000_0000_0000_0003u64,
        0x0000_0000_0000_0000u64,
        0x0000_0000_0000_0000u64,
        0x0000_0000_0000_0000u64,
    ]
}

fn b_bytes() -> (r: Vec<u8>)
    ensures
        r@ == words_le(b_words()),
{
    let words: Vec<u64> = vec![
        0x0000_0000_0000_0003u64,
        0x0000_0000_0000_0000u64,
        0x0000_0000_0000_0000u64,
        0x0000_0000_0000_0000u64,
    ];
    assert(words@ =~= b_words());
    bytes_of_words(words.as_slice())
}

/// The `x` coordinate of the generator.
pub open spec fn generator_x() -> nat {
    1nat
}

/// The `x` coordinate of the generator, as 64-bit words, least first.
pub open spec fn generator_x_words() -> Seq<u64> {
    seq![
        0x0000_0000_0000_0001u64,
        0x0000_0000_0000_0000u64,
        0x0000_0000_0000_0000u64,
        0x0000_0000_0000_0000u64,
    ]
}

fn generator_x_bytes() -> (r: Vec<u8>)
    ensures
        r@ == words_le(generator_x_words()),
{
    let words: Vec<u64> = vec![
        0x0000_0000_0000_0001u64,
        0x0000_0000_0000_0000u64,
        0x0000_0000_0000_0000u64,
        0x0000_0000_0000_0000u64,
    ];
    assert(words@ =~= generator_x_words());
    bytes_of_words(words.as_slice())
}

/// The `y` coordinate of the generator.
pub open spec fn generator_y() -> nat {
    2nat
}

/// The `y` coordinate of the generator, as 64-bit words, least first.
pub open spec fn generator_y_words() -> Seq<u64> {
    seq![
        0x0000_0000_0000_0002u64,
        0x0000_0000_0000_0000u64,
        0x0000_0000_0000_0000u64,
        0x0000_0000_0000_0000u64,
    ]
}

fn generator_y_bytes() -> (r: Vec<u8>)
    ensures
        r@ == words_le(generator_y_words()),
{
    let words: Vec<u64> = vec![
        0x0000_0000_0000_0002u64,
        0x0000_0000_0000_0000u64,
        0x0000_0000_0000_0000u64,
        0x0000_0000_0000_0000u64,
    ];
    assert(words@ =~= generator_y_words());
    bytes_of_words(words.as_slice())
}

/// The order of the group.
pub open spec fn group_order() -> nat {
    21888242871839275222246405745257275088548364400416034343698204186575808495617nat
}

/// The order of the group, as 64-bit words, least first.
pub open spec fn group_order_words() -> Seq<u64> {
    seq![
        0x43e1_f593_f000_0001u64,
        0x2833_e848_79b9_7091u64,
        0xb850_45b6_8181_585du64,
        0x3064_4e72_e131_a029u64,
    ]
}

fn group_order_bytes() -> (r: Vec<u8>)
    ensures
        r@ == words_le(group_order_words()),
{
    let words: Vec<u64> = vec![
        0x43e1_f593_f000_0001u64,
        0x2833_e848_79b9_7091u64,
        0xb850_45b6_8181_585du64,
        0x3064_4e72_e131_a029u64,
    ];
    assert(words@ =~= group_order_words());
    bytes_of_words(words.as_slice())
}

/// The words of each number stand for the number, and the numbers of the field are
/// written in 32 bytes.
#[verifier::rlimit(40)]
pub proof fn lemma_words()
    ensures
        words_le(modulus_words()).len() == 32,
        words_le(a_words()).len() == 32,
        words_le(b_words()).len() == 32,
        le_value(words_le(modulus_words())) == modulus(),
        le_value(words_le(a_words())) == a(),
        le_value(words_le(b_words())) == b(),
        le_value(words_le(generator_x_words())) == generator_x(),
        le_value(words_le(generator_y_words())) == generator_y(),
        le_value(words_le(group_order_words())) == group_order(),
{
    reveal_with_fuel(words_nat, 5);
    lemma_words_le_value(modulus_words());
    lemma_words_le_value(a_words());
    lemma_words_le_value(b_words());
    lemma_words_le_value(generator_x_words());
    lemma_words_le_value(generator_y_words());
    lemma_words_le_value(group_order_words());
}

impl NumLimbs for Bn254BaseField {
    const LIMBS: usize = 32;

    const WITNESS: usize = 62;
}

impl NumWords for Bn254BaseField {
    const WORDS_FIELD_ELEMENT: usize = 8;

    const WORDS_CURVE_POINT: usize = 16;
}

impl FieldParameters for Bn254BaseField {
    const NB_LIMBS: usize = 32;

    const NB_WITNESS_LIMBS: usize = 62;

    open spec fn modulus_le() -> Seq<u8> {
        words_le(modulus_words())
    }

    fn modulus_bytes() -> Vec<u8> {
        modulus_bytes()
    }
}

impl FpOpField for Bn254BaseField {
    const FIELD_TYPE: FieldType = FieldType::Bn254;
}

impl EllipticCurveParameters for Bn254Parameters {
    type BaseField = Bn254BaseField;

    const CURVE_TYPE: CurveType = CurveType::Bn254;
}

impl WeierstrassParameters for Bn254Parameters {
    open spec fn a_le() -> Seq<u8> {
        words_le(a_words())
    }

    open spec fn b_le() -> Seq<u8> {
        words_le(b_words())
    }

    open spec fn spec_generator() -> SpecPoint {
        SpecPoint { x: generator_x(), y: generator_y() }
    }

    open spec fn spec_prime_group_order() -> nat {
        group_order()
    }

    proof fn lemma_coefficient_widths() {
        lemma_words();
    }

    fn a_bytes() -> Vec<u8> {
        a_bytes()
    }

    fn b_bytes() -> Vec<u8> {
        b_bytes()
    }

    fn generator() -> (BigNat, BigNat) {
        proof {
            lemma_words();
        }
        let x = generator_x_bytes();
        let y = generator_y_bytes();
        (BigNat::from_bytes_le(x.as_slice()), BigNat::from_bytes_le(y.as_slice()))
    }

    fn prime_group_order() -> BigNat {
        proof {
            lemma_words();
        }
        let n = group_order_bytes();
        BigNat::from_bytes_le(n.as_slice())
    }
}

/// The modulus and the coefficients of the curve, as numbers.
pub proof fn lemma_parameter_values()
    ensures
        field_modulus::<Bn254Parameters>() == modulus(),
        coeff_a::<Bn254Parameters>() == a(),
        coeff_b::<Bn254Parameters>() == b(),
{
    lemma_words();
}

/// The fixed-width backend can compute on this curve, and double-and-add walks
/// 512 binary digits.
pub proof fn lemma_backend_supports()
    ensures
        backend_supports::<Bn254Parameters>(),
        backend_supports::<Bn254>(),
        <Bn254BaseField as FieldParameters>::NB_LIMBS == 32,
{
    lemma_words();
}

/// The curve equation holds of the generator's coordinates, as numbers.
#[verifier::rlimit(40)]
proof fn lemma_curve_equation()
    ensures
        on_curve(modulus(), a(), b(), SpecPoint { x: generator_x(), y: generator_y() }),
{
    let (m, ca, cb, x, y) = (modulus(), a(), b(), generator_x(), generator_y());
    assert((y * y) % m == (x * x * x + ca * x + cb) % m) by (nonlinear_arith)
        requires
            m == modulus(),
            ca == a(),
            cb == b(),
            x == generator_x(),
            y == generator_y(),
    ;
}

/// The generator satisfies the curve equation, and it is reduced.
pub proof fn lemma_generator_on_curve()
    ensures
        on_curve(
            field_modulus::<Bn254Parameters>(),
            coeff_a::<Bn254Parameters>(),
            coeff_b::<Bn254Parameters>(),
            Bn254Parameters::spec_generator(),
        ),
        Bn254Parameters::spec_generator().x < field_modulus::<Bn254Parameters>(),
        Bn254Parameters::spec_generator().y < field_modulus::<Bn254Parameters>(),
{
    lemma_words();
    lemma_curve_equation();
}

} // verus!
