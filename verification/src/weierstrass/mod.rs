//! Curves in short Weierstrass form, `y^2 = x^3 + a*x + b`, over a prime field:
//! the group law on affine points, and scalar multiplication by double-and-add.
//!
//! The formulas are stated once, over natural numbers, by the `spec_*` functions.
//! Every executable operation is proved to return what they say, whichever numeric
//! backend does the field arithmetic.
use crate::bignat::{
    bit_at, halved, le_value, lemma_halved_step, lemma_le_value_bound, lemma_pow256_monotonic,
    pow256, BigNat,
};
use crate::curve::{
    is_reduced, option_view, AffinePoint, CurveType, EllipticCurve, EllipticCurveParameters,
    SpecPoint,
};
use crate::backend::{accepts, FieldBackend};
use crate::fixed_width::FixedWidth;
use crate::modular::{
    has_inverse, lemma_mod_inverse_is, lemma_mul_mod_left, lemma_sub_mod_left, mod_inverse,
    mod_sub,
};
use crate::params::{modulus_of, FieldParameters, NumWords};
use crate::utils::biguint_to_bits_le;
use vstd::arithmetic::div_mod::lemma_add_mod_noop;
use vstd::prelude::*;

pub mod bls12_381;
pub mod bn254;
pub mod closure;
pub mod laws;
pub mod secp256k1;

verus! {

/// The slope of the chord through two points.
pub open spec fn add_slope(m: nat, p: SpecPoint, q: SpecPoint) -> nat {
    (((q.y - p.y) * mod_inverse(mod_sub(q.x, p.x, m), m)) % (m as int)) as nat
}

/// Addition is defined for two different points whose `x` coordinates differ by
/// something invertible.
pub open spec fn add_defined(m: nat, p: SpecPoint, q: SpecPoint) -> bool {
    p != q && has_inverse(mod_sub(q.x, p.x, m), m)
}

/// The third point of the curve on the line of slope `s` through `p` and `q`,
/// mirrored: `x3 = s^2 - p.x - q.x`, `y3 = s * (p.x - x3) - p.y`, modulo `m`.
pub open spec fn chord_point(m: nat, s: nat, p: SpecPoint, q: SpecPoint) -> SpecPoint {
    let x3 = (s * s - p.x - q.x) % (m as int);
    let y3 = (s * (p.x - x3) - p.y) % (m as int);
    SpecPoint { x: x3 as nat, y: y3 as nat }
}

/// The sum of two points: the chord rule with the slope of the chord.
pub open spec fn spec_add(m: nat, p: SpecPoint, q: SpecPoint) -> SpecPoint {
    chord_point(m, add_slope(m, p, q), p, q)
}

/// The slope of the tangent at a point of the curve with coefficient `a`.
pub open spec fn double_slope(m: nat, a: nat, p: SpecPoint) -> nat {
    ((3 * p.x * p.x + a) * mod_inverse((2 * p.y) % m, m)) % m
}

/// Doubling is defined where `2 * y` is invertible.
pub open spec fn double_defined(m: nat, p: SpecPoint) -> bool {
    has_inverse((2 * p.y) % m, m)
}

/// Twice a point: the chord rule applied to the point and itself, with the slope
/// of the tangent.
pub open spec fn spec_double(m: nat, a: nat, p: SpecPoint) -> SpecPoint {
    chord_point(m, double_slope(m, a, p), p, p)
}

/// Negation is defined where `y` is at most the modulus.
pub open spec fn neg_defined(m: nat, p: SpecPoint) -> bool {
    p.y <= m
}

/// The mirror image of a point: `(x, m - y)`.
pub open spec fn spec_neg(m: nat, p: SpecPoint) -> SpecPoint {
    SpecPoint { x: p.x, y: (m - p.y) as nat }
}

/// The state of double-and-add after some steps: the accumulator `acc`, not yet set
/// while it is `None`, the working point `temp`, and the `n` binary digits of `k`
/// that are still to come, least first. The result is the accumulator after the
/// last step, or `None` where a step is not defined or no digit was set.
///
/// A step adds `temp` to the accumulator where the digit is set, and doubles `temp`
/// whether it is set or not.
pub open spec fn double_and_add(
    m: nat,
    a: nat,
    acc: Option<SpecPoint>,
    temp: SpecPoint,
    k: nat,
    n: nat,
) -> Option<SpecPoint>
    decreases n,
{
    if n == 0 {
        acc
    } else if k % 2 == 1 && acc is Some && !add_defined(m, acc->0, temp) {
        None
    } else if !double_defined(m, temp) {
        None
    } else {
        let next = if k % 2 == 1 {
            match acc {
                None => Some(temp),
                Some(r) => Some(spec_add(m, r, temp)),
            }
        } else {
            acc
        };
        double_and_add(m, a, next, spec_double(m, a, temp), k / 2, (n - 1) as nat)
    }
}

/// `k` times the point `p`, by double-and-add over the lowest `n` binary digits of
/// `k`; `None` where a step is not defined, or none of those digits is set.
pub open spec fn spec_scalar_mul(m: nat, a: nat, p: SpecPoint, k: nat, n: nat) -> Option<
    SpecPoint,
> {
    double_and_add(m, a, None, p, k, n)
}

/// Addition as the backend `B` runs it is defined for two different points where
/// the backend finds the inverse of the difference of their `x` coordinates.
pub open spec fn add_defined_with<B: FieldBackend>(m: nat, p: SpecPoint, q: SpecPoint) -> bool {
    p != q && B::inverts(mod_sub(q.x, p.x, m), m)
}

/// Doubling as the backend `B` runs it is defined where the backend finds the
/// inverse of `2 * y`.
pub open spec fn double_defined_with<B: FieldBackend>(m: nat, p: SpecPoint) -> bool {
    B::inverts((2 * p.y) % m, m)
}

/// Double-and-add as the backend `B` runs it: `double_and_add`, with a step defined
/// where the backend finds the inverse that the step needs.
pub open spec fn double_and_add_with<B: FieldBackend>(
    m: nat,
    a: nat,
    acc: Option<SpecPoint>,
    temp: SpecPoint,
    k: nat,
    n: nat,
) -> Option<SpecPoint>
    decreases n,
{
    if n == 0 {
        acc
    } else if k % 2 == 1 && acc is Some && !add_defined_with::<B>(m, acc->0, temp) {
        None
    } else if !double_defined_with::<B>(m, temp) {
        None
    } else {
        let next = if k % 2 == 1 {
            match acc {
                None => Some(temp),
                Some(r) => Some(spec_add(m, r, temp)),
            }
        } else {
            acc
        };
        double_and_add_with::<B>(m, a, next, spec_double(m, a, temp), k / 2, (n - 1) as nat)
    }
}

/// A backend that finds every inverse that exists modulo `m` runs double-and-add as
/// `double_and_add` states it.
pub proof fn lemma_double_and_add_exact<B: FieldBackend>(
    m: nat,
    a: nat,
    acc: Option<SpecPoint>,
    temp: SpecPoint,
    k: nat,
    n: nat,
)
    requires
        m > 0,
        forall|x: nat| #[trigger] B::inverts(x, m) == has_inverse(x, m),
    ensures
        double_and_add_with::<B>(m, a, acc, temp, k, n) == double_and_add(m, a, acc, temp, k, n),
    decreases n,
{
    if n > 0 {
        let next = if k % 2 == 1 {
            match acc {
                None => Some(temp),
                Some(r) => Some(spec_add(m, r, temp)),
            }
        } else {
            acc
        };
        lemma_double_and_add_exact::<B>(m, a, next, spec_double(m, a, temp), k / 2, (n - 1) as nat);
        assert(double_defined_with::<B>(m, temp) == double_defined(m, temp)) by {
            vstd::arithmetic::div_mod::lemma_mod_bound((2 * temp.y) as int, m as int);
        }
        if acc is Some {
            assert(add_defined_with::<B>(m, acc->0, temp) == add_defined(m, acc->0, temp)) by {
                vstd::arithmetic::div_mod::lemma_mod_bound(temp.x - acc->0.x, m as int);
            }
        }
    }
}

/// The point satisfies `y^2 = x^3 + a*x + b` modulo `m`.
pub open spec fn on_curve(m: nat, a: nat, b: nat, p: SpecPoint) -> bool {
    (p.y * p.y) % m == (p.x * p.x * p.x + a * p.x + b) % m
}

/// Parameters that specify a short Weierstrass curve: `y^2 = x^3 + a*x + b`.
///
/// The coefficients are kept as little-endian bytes. Nothing here says that the
/// parameters describe a curve of prime order: whoever implements the trait
/// answers for that.
pub trait WeierstrassParameters: EllipticCurveParameters {
    /// The coefficient `a`, as little-endian bytes.
    spec fn a_le() -> Seq<u8>;

    /// The coefficient `b`, as little-endian bytes.
    spec fn b_le() -> Seq<u8>;

    /// The generator of the group.
    spec fn spec_generator() -> SpecPoint;

    /// The prime order of the group.
    spec fn spec_prime_group_order() -> nat;

    /// The coefficients are written in as many bytes as the modulus of the base
    /// field.
    proof fn lemma_coefficient_widths()
        ensures
            Self::a_le().len() == <Self::BaseField as FieldParameters>::modulus_le().len(),
            Self::b_le().len() == <Self::BaseField as FieldParameters>::modulus_le().len(),
    ;

    /// The coefficient `a`, as little-endian bytes.
    fn a_bytes() -> (r: Vec<u8>)
        ensures
            r@ == Self::a_le(),
    ;

    /// The coefficient `b`, as little-endian bytes.
    fn b_bytes() -> (r: Vec<u8>)
        ensures
            r@ == Self::b_le(),
    ;

    /// The coordinates of the generator.
    fn generator() -> (r: (BigNat, BigNat))
        ensures
            r.0@ == Self::spec_generator().x,
            r.1@ == Self::spec_generator().y,
    ;

    /// The prime order of the group.
    fn prime_group_order() -> (r: BigNat)
        ensures
            r@ == Self::spec_prime_group_order(),
    ;

    /// The coefficient `a`: its bytes read as base-256 digits, least first.
    fn a_int() -> (r: BigNat)
        ensures
            r@ == le_value(Self::a_le()),
    {
        let bytes = Self::a_bytes();
        BigNat::from_bytes_le(bytes.as_slice())
    }

    /// The coefficient `b`: its bytes read as base-256 digits, least first.
    fn b_int() -> (r: BigNat)
        ensures
            r@ == le_value(Self::b_le()),
    {
        let bytes = Self::b_bytes();
        BigNat::from_bytes_le(bytes.as_slice())
    }

    /// The number of scalar bits that double-and-add walks: 16 for each limb of the
    /// base field.
    fn nb_scalar_bits() -> (n: usize)
        requires
            <Self::BaseField as FieldParameters>::NB_LIMBS * 16 <= usize::MAX,
        ensures
            n == <Self::BaseField as FieldParameters>::NB_LIMBS * 16,
    {
        <Self::BaseField as FieldParameters>::NB_LIMBS * 16
    }
}

/// The modulus of the base field of the curve `E`.
pub open spec fn field_modulus<E: EllipticCurveParameters>() -> nat {
    modulus_of::<E::BaseField>()
}

/// The coefficient `a` of the curve `E`.
pub open spec fn coeff_a<E: WeierstrassParameters>() -> nat {
    le_value(E::a_le())
}

/// The coefficient `b` of the curve `E`.
pub open spec fn coeff_b<E: WeierstrassParameters>() -> nat {
    le_value(E::b_le())
}

/// The width in bytes of the integers that the fixed-width backend computes in,
/// for a modulus written in `len` bytes.
pub open spec fn backend_bytes(len: nat) -> nat {
    if len == 32 {
        32
    } else {
        64
    }
}

/// The fixed-width backend can compute on the curve `E`: the modulus is written in
/// at most 64 bytes.
pub open spec fn backend_supports<E: WeierstrassParameters>() -> bool {
    <E::BaseField as FieldParameters>::modulus_le().len() <= 64
}

/// On a curve that the fixed-width backend supports, the modulus and the
/// coefficient `a` fit the width that is chosen for the modulus.
pub proof fn lemma_backend_width<E: WeierstrassParameters>()
    requires
        backend_supports::<E>(),
    ensures
        field_modulus::<E>() < pow256(
            backend_bytes(<E::BaseField as FieldParameters>::modulus_le().len()),
        ),
        coeff_a::<E>() < pow256(
            backend_bytes(<E::BaseField as FieldParameters>::modulus_le().len()),
        ),
{
    let len = <E::BaseField as FieldParameters>::modulus_le().len();
    E::lemma_coefficient_widths();
    lemma_le_value_bound(<E::BaseField as FieldParameters>::modulus_le());
    lemma_le_value_bound(E::a_le());
    lemma_pow256_monotonic(len, backend_bytes(len));
}

/// A short Weierstrass curve with the parameters `E`.
#[derive(Debug, Clone, Copy, PartialEq, Eq)]
pub struct SwCurve<E>(pub E);

impl<E: WeierstrassParameters> EllipticCurveParameters for SwCurve<E> {
    type BaseField = E::BaseField;

    const CURVE_TYPE: CurveType = E::CURVE_TYPE;
}

impl<E: WeierstrassParameters> WeierstrassParameters for SwCurve<E> {
    open spec fn a_le() -> Seq<u8> {
        E::a_le()
    }

    open spec fn b_le() -> Seq<u8> {
        E::b_le()
    }

    open spec fn spec_generator() -> SpecPoint {
        E::spec_generator()
    }

    open spec fn spec_prime_group_order() -> nat {
        E::spec_prime_group_order()
    }

    proof fn lemma_coefficient_widths() {
        E::lemma_coefficient_widths();
    }

    fn a_bytes() -> Vec<u8> {
        E::a_bytes()
    }

    fn b_bytes() -> Vec<u8> {
        E::b_bytes()
    }

    fn generator() -> (BigNat, BigNat) {
        E::generator()
    }

    fn prime_group_order() -> BigNat {
        E::prime_group_order()
    }

    fn a_int() -> BigNat {
        E::a_int()
    }

    fn b_int() -> BigNat {
        E::b_int()
    }

    fn nb_scalar_bits() -> usize {
        E::nb_scalar_bits()
    }
}

impl<E: WeierstrassParameters> EllipticCurve for SwCurve<E> {
    const NB_LIMBS: usize = <E::BaseField as FieldParameters>::NB_LIMBS;

    const NB_WITNESS_LIMBS: usize = <E::BaseField as FieldParameters>::NB_WITNESS_LIMBS;

    open spec fn ec_add_defined(p: SpecPoint, q: SpecPoint) -> bool {
        &&& backend_supports::<E>()
        &&& is_reduced(field_modulus::<E>(), p)
        &&& is_reduced(field_modulus::<E>(), q)
        &&& add_defined(field_modulus::<E>(), p, q)
    }

    open spec fn ec_add_spec(p: SpecPoint, q: SpecPoint) -> SpecPoint {
        spec_add(field_modulus::<E>(), p, q)
    }

    open spec fn ec_double_defined(p: SpecPoint) -> bool {
        &&& backend_supports::<E>()
        &&& is_reduced(field_modulus::<E>(), p)
        &&& double_defined(field_modulus::<E>(), p)
    }

    open spec fn ec_double_spec(p: SpecPoint) -> SpecPoint {
        spec_double(field_modulus::<E>(), coeff_a::<E>(), p)
    }

    open spec fn ec_neg_defined(p: SpecPoint) -> bool {
        neg_defined(field_modulus::<E>(), p)
    }

    open spec fn ec_neg_spec(p: SpecPoint) -> SpecPoint {
        spec_neg(field_modulus::<E>(), p)
    }

    open spec fn ec_generator_spec() -> SpecPoint {
        E::spec_generator()
    }

    /// The point at infinity has no affine form.
    open spec fn ec_neutral_spec() -> Option<SpecPoint> {
        None
    }

    fn ec_add(p: &AffinePoint<Self>, q: &AffinePoint<Self>) -> AffinePoint<Self> {
        p.sw_add(q)
    }

    fn ec_double(p: &AffinePoint<Self>) -> AffinePoint<Self> {
        p.sw_double()
    }

    fn ec_generator() -> AffinePoint<Self> {
        let (x, y) = E::generator();
        AffinePoint::new(x, y)
    }

    fn ec_neutral() -> Option<AffinePoint<Self>> {
        None
    }

    fn ec_neg(p: &AffinePoint<Self>) -> AffinePoint<Self> {
        let modulus = E::BaseField::modulus();
        AffinePoint::new(p.x.clone(), modulus.sub(&p.y))
    }
}

impl<E: WeierstrassParameters> SwCurve<E> {
    /// The generator of the group, as a point.
    pub fn generator() -> (r: AffinePoint<SwCurve<E>>)
        ensures
            r@ == E::spec_generator(),
    {
        let (x, y) = E::generator();
        AffinePoint::new(x, y)
    }

    /// The coefficient `a`.
    pub fn a_int() -> (r: BigNat)
        ensures
            r@ == coeff_a::<E>(),
    {
        E::a_int()
    }

    /// The coefficient `b`.
    pub fn b_int() -> (r: BigNat)
        ensures
            r@ == coeff_b::<E>(),
    {
        E::b_int()
    }
}

impl<E: WeierstrassParameters> AffinePoint<SwCurve<E>> {
    /// The sum of two points with the field arithmetic of the backend `B`; `None`
    /// where the points are the same, or the backend finds no inverse of the
    /// difference of their `x` coordinates.
    #[verifier::rlimit(40)]
    pub fn sw_add_generic<B: FieldBackend>(&self, other: &AffinePoint<SwCurve<E>>) -> (r: Option<
        AffinePoint<SwCurve<E>>,
    >)
        requires
            accepts::<B>(field_modulus::<E>()),
            is_reduced(field_modulus::<E>(), self@),
            is_reduced(field_modulus::<E>(), other@),
        ensures
            r is Some <==> add_defined_with::<B>(field_modulus::<E>(), self@, other@),
            r matches Some(sum) ==> add_defined(field_modulus::<E>(), self@, other@) && sum@
                == spec_add(field_modulus::<E>(), self@, other@) && is_reduced(
                field_modulus::<E>(),
                sum@,
            ),
    {
        if self.is_equal(other) {
            return None;
        }
        let p = E::BaseField::modulus();
        let ghost m = field_modulus::<E>();
        let slope_num = B::sub_mod(&other.y, &self.y, &p);
        let slope_denom = B::sub_mod(&other.x, &self.x, &p);
        let slope_denom_inv = match B::inv_mod(&slope_denom, &p) {
            Some(inv) => inv,
            None => {
                return None;
            },
        };
        proof {
            lemma_mod_inverse_is(slope_denom@, slope_denom_inv@, m);
        }
        let slope = B::mul_mod(&slope_num, &slope_denom_inv, &p);
        proof {
            lemma_mul_mod_left(other.y@ - self.y@, slope_denom_inv@ as int, m as int);
            assert(slope@ == add_slope(m, self@, other@));
        }
        let (x_3n, y_3n) = Self::chord_point_generic::<B>(&slope, &self.x, &self.y, &other.x, &p);
        Some(AffinePoint::new(x_3n, y_3n))
    }

    /// Twice a point with the field arithmetic of the backend `B`; `None` where the
    /// backend finds no inverse of `2 * y`.
    #[verifier::rlimit(40)]
    pub fn sw_double_generic<B: FieldBackend>(&self) -> (r: Option<AffinePoint<SwCurve<E>>>)
        requires
            accepts::<B>(field_modulus::<E>()),
            accepts::<B>(coeff_a::<E>()),
            is_reduced(field_modulus::<E>(), self@),
        ensures
            r is Some <==> double_defined_with::<B>(field_modulus::<E>(), self@),
            r matches Some(twice) ==> double_defined(field_modulus::<E>(), self@) && twice@
                == spec_double(field_modulus::<E>(), coeff_a::<E>(), self@) && is_reduced(
                field_modulus::<E>(),
                twice@,
            ),
    {
        let p = E::BaseField::modulus();
        let a = E::a_int();
        let two = BigNat::from_u64(2);
        let three = BigNat::from_u64(3);
        let ghost m = field_modulus::<E>();
        let x_sq = B::mul_mod(&self.x, &self.x, &p);
        let x_sq_3 = B::mul_mod(&x_sq, &three, &p);
        let slope_num = B::add_mod(&x_sq_3, &a, &p);
        let slope_denom = B::mul_mod(&self.y, &two, &p);
        proof {
            assert(self.y@ * 2 == 2 * self.y@);
        }
        let slope_denom_inv = match B::inv_mod(&slope_denom, &p) {
            Some(inv) => inv,
            None => {
                return None;
            },
        };
        proof {
            lemma_mod_inverse_is(slope_denom@, slope_denom_inv@, m);
        }
        let slope = B::mul_mod(&slope_num, &slope_denom_inv, &p);
        proof {
            lemma_tangent_slope(
                m,
                coeff_a::<E>(),
                self.x@,
                x_sq@,
                x_sq_3@,
                slope_num@,
                slope_denom_inv@,
                slope@,
            );
            assert(slope@ == double_slope(m, coeff_a::<E>(), self@));
        }
        let (x_3n, y_3n) = Self::chord_point_generic::<B>(&slope, &self.x, &self.y, &self.x, &p);
        Some(AffinePoint::new(x_3n, y_3n))
    }

    /// The coordinates that the chord rule gives for the slope `s` and the points
    /// `(x1, y1)` and `(x2, _)`.
    fn chord_point_generic<B: FieldBackend>(
        s: &BigNat,
        x1: &BigNat,
        y1: &BigNat,
        x2: &BigNat,
        p: &BigNat,
    ) -> (r: (BigNat, BigNat))
        requires
            accepts::<B>(p@),
            s@ < p@,
            x1@ < p@,
            y1@ < p@,
            x2@ < p@,
        ensures
            r.0@ == (s@ * s@ - x1@ - x2@) % (p@ as int),
            r.1@ == (s@ * (x1@ - r.0@) - y1@) % (p@ as int),
            r.0@ < p@,
            r.1@ < p@,
    {
        let ghost m = p@;
        let slope_sq = B::mul_mod(s, s, p);
        let x_3n_part = B::sub_mod(&slope_sq, x1, p);
        let x_3n = B::sub_mod(&x_3n_part, x2, p);
        let x_diff = B::sub_mod(x1, &x_3n, p);
        let y_3n_part = B::mul_mod(&x_diff, s, p);
        let y_3n = B::sub_mod(&y_3n_part, y1, p);
        proof {
            lemma_chord_coordinates(m, s@, x1@, y1@, x2@, x_3n@, y_3n@);
        }
        (x_3n, y_3n)
    }
}

impl<E: WeierstrassParameters> AffinePoint<SwCurve<E>> {
    /// The sum of two points, or `None` where they are the same point or their `x`
    /// coordinates differ by nothing invertible.
    pub fn try_sw_add(&self, other: &AffinePoint<SwCurve<E>>) -> (r: Option<
        AffinePoint<SwCurve<E>>,
    >)
        requires
            backend_supports::<E>(),
            is_reduced(field_modulus::<E>(), self@),
            is_reduced(field_modulus::<E>(), other@),
        ensures
            r is Some <==> add_defined(field_modulus::<E>(), self@, other@),
            r matches Some(sum) ==> sum@ == spec_add(field_modulus::<E>(), self@, other@)
                && is_reduced(field_modulus::<E>(), sum@),
    {
        proof {
            lemma_backend_width::<E>();
        }
        if E::BaseField::modulus_bytes().len() == 32 {
            self.sw_add_generic::<FixedWidth<256, 4>>(other)
        } else {
            self.sw_add_generic::<FixedWidth<512, 8>>(other)
        }
    }

    /// The sum of two different points.
    pub fn sw_add(&self, other: &AffinePoint<SwCurve<E>>) -> (r: AffinePoint<SwCurve<E>>)
        requires
            backend_supports::<E>(),
            is_reduced(field_modulus::<E>(), self@),
            is_reduced(field_modulus::<E>(), other@),
            add_defined(field_modulus::<E>(), self@, other@),
        ensures
            r@ == spec_add(field_modulus::<E>(), self@, other@),
            is_reduced(field_modulus::<E>(), r@),
    {
        self.try_sw_add(other).unwrap()
    }

    /// Twice a point, or `None` where `2 * y` has no inverse.
    pub fn try_sw_double(&self) -> (r: Option<AffinePoint<SwCurve<E>>>)
        requires
            backend_supports::<E>(),
            is_reduced(field_modulus::<E>(), self@),
        ensures
            r is Some <==> double_defined(field_modulus::<E>(), self@),
            r matches Some(twice) ==> twice@ == spec_double(
                field_modulus::<E>(),
                coeff_a::<E>(),
                self@,
            ) && is_reduced(field_modulus::<E>(), twice@),
    {
        proof {
            lemma_backend_width::<E>();
        }
        if E::BaseField::modulus_bytes().len() == 32 {
            self.sw_double_generic::<FixedWidth<256, 4>>()
        } else {
            self.sw_double_generic::<FixedWidth<512, 8>>()
        }
    }

    /// Twice a point.
    pub fn sw_double(&self) -> (r: AffinePoint<SwCurve<E>>)
        requires
            backend_supports::<E>(),
            is_reduced(field_modulus::<E>(), self@),
            double_defined(field_modulus::<E>(), self@),
        ensures
            r@ == spec_double(field_modulus::<E>(), coeff_a::<E>(), self@),
            is_reduced(field_modulus::<E>(), r@),
    {
        self.try_sw_double().unwrap()
    }

    /// The scalar multiple of a point by double-and-add over the lowest
    /// `16 * NB_LIMBS` binary digits of the scalar, with the field arithmetic of the
    /// backend `B`; `None` where the backend finds no inverse for an addition or a
    /// doubling on the way, the accumulator meets the working point, or none of
    /// those digits is set.
    #[verifier::rlimit(40)]
    pub fn sw_scalar_mul_generic<B: FieldBackend>(&self, scalar: &BigNat) -> (r: Option<
        AffinePoint<SwCurve<E>>,
    >)
        requires
            accepts::<B>(field_modulus::<E>()),
            accepts::<B>(coeff_a::<E>()),
            is_reduced(field_modulus::<E>(), self@),
            <E::BaseField as FieldParameters>::NB_LIMBS * 16 <= usize::MAX,
        ensures
            option_view(r) == double_and_add_with::<B>(
                field_modulus::<E>(),
                coeff_a::<E>(),
                None,
                self@,
                scalar@,
                (<E::BaseField as FieldParameters>::NB_LIMBS * 16) as nat,
            ),
            r matches Some(product) ==> is_reduced(field_modulus::<E>(), product@),
    {
        let ghost m = field_modulus::<E>();
        let ghost a = coeff_a::<E>();
        let nb: usize = E::nb_scalar_bits();
        let bits = biguint_to_bits_le(scalar, nb);
        let mut result: Option<AffinePoint<SwCurve<E>>> = None;
        let mut temp = self.clone();
        let ghost rest: nat = scalar@;
        let ghost whole = double_and_add_with::<B>(m, a, None, self@, scalar@, nb as nat);
        let mut i: usize = 0;
        while i < nb
            invariant
                i <= nb,
                nb == <E::BaseField as FieldParameters>::NB_LIMBS * 16,
                bits.len() == nb,
                forall|j: int| 0 <= j < nb ==> bits[j] == bit_at(scalar@, j as nat),
                accepts::<B>(m),
                accepts::<B>(a),
                m == field_modulus::<E>(),
                a == coeff_a::<E>(),
                rest == halved(scalar@, i as nat),
                is_reduced(m, temp@),
                result matches Some(acc) ==> is_reduced(m, acc@),
                whole == double_and_add_with::<B>(m, a, None, self@, scalar@, nb as nat),
                whole == double_and_add_with::<B>(
                    m,
                    a,
                    option_view(result),
                    temp@,
                    rest,
                    (nb - i) as nat,
                ),
            decreases nb - i,
        {
            let ghost acc0 = option_view(result);
            let ghost temp0 = temp@;
            let ghost left = (nb - i) as nat;
            proof {
                lemma_halved_step(scalar@, i as nat);
                assert(bits[i as int] == (rest % 2 == 1));
            }
            if bits[i] {
                result = match result {
                    None => Some(temp.clone()),
                    Some(acc) => match acc.sw_add_generic::<B>(&temp) {
                        Some(sum) => Some(sum),
                        None => {
                            assert(double_and_add_with::<B>(m, a, acc0, temp0, rest, left) is None);
                            return None;
                        },
                    },
                };
            }
            temp = match temp.sw_double_generic::<B>() {
                Some(twice) => twice,
                None => {
                    assert(double_and_add_with::<B>(m, a, acc0, temp0, rest, left) is None);
                    return None;
                },
            };
            assert(double_and_add_with::<B>(m, a, acc0, temp0, rest, left) == double_and_add_with::<
                B,
            >(m, a, option_view(result), temp@, rest / 2, (left - 1) as nat));
            proof {
                rest = rest / 2;
            }
            i += 1;
        }
        result
    }

    /// The scalar multiple of a point by double-and-add over the lowest
    /// `16 * NB_LIMBS` binary digits of the scalar, or `None` where an addition or a
    /// doubling on the way is not defined, or none of those digits is set.
    pub fn try_sw_scalar_mul(&self, scalar: &BigNat) -> (r: Option<AffinePoint<SwCurve<E>>>)
        requires
            backend_supports::<E>(),
            is_reduced(field_modulus::<E>(), self@),
            <E::BaseField as FieldParameters>::NB_LIMBS * 16 <= usize::MAX,
        ensures
            option_view(r) == spec_scalar_mul(
                field_modulus::<E>(),
                coeff_a::<E>(),
                self@,
                scalar@,
                (<E::BaseField as FieldParameters>::NB_LIMBS * 16) as nat,
            ),
            r matches Some(product) ==> is_reduced(field_modulus::<E>(), product@),
    {
        let ghost m = field_modulus::<E>();
        let ghost a = coeff_a::<E>();
        let ghost n = (<E::BaseField as FieldParameters>::NB_LIMBS * 16) as nat;
        proof {
            lemma_backend_width::<E>();
        }
        if E::BaseField::modulus_bytes().len() == 32 {
            proof {
                lemma_double_and_add_exact::<FixedWidth<256, 4>>(m, a, None, self@, scalar@, n);
            }
            self.sw_scalar_mul_generic::<FixedWidth<256, 4>>(scalar)
        } else {
            proof {
                lemma_double_and_add_exact::<FixedWidth<512, 8>>(m, a, None, self@, scalar@, n);
            }
            self.sw_scalar_mul_generic::<FixedWidth<512, 8>>(scalar)
        }
    }

    /// The scalar multiple of a point by double-and-add over the lowest
    /// `16 * NB_LIMBS` binary digits of the scalar.
    pub fn sw_scalar_mul(&self, scalar: &BigNat) -> (r: AffinePoint<SwCurve<E>>)
        requires
            backend_supports::<E>(),
            is_reduced(field_modulus::<E>(), self@),
            <E::BaseField as FieldParameters>::NB_LIMBS * 16 <= usize::MAX,
            spec_scalar_mul(
                field_modulus::<E>(),
                coeff_a::<E>(),
                self@,
                scalar@,
                (<E::BaseField as FieldParameters>::NB_LIMBS * 16) as nat,
            ) is Some,
        ensures
            Some(r@) == spec_scalar_mul(
                field_modulus::<E>(),
                coeff_a::<E>(),
                self@,
                scalar@,
                (<E::BaseField as FieldParameters>::NB_LIMBS * 16) as nat,
            ),
            is_reduced(field_modulus::<E>(), r@),
    {
        self.try_sw_scalar_mul(scalar).unwrap()
    }
}

/// The fields that the field-operation precompiles know.
#[derive(Debug, Clone, Copy, PartialEq, Eq)]
pub enum FieldType {
    Bls12381,
    Bn254,
}

/// A base field on which the field-operation precompiles work.
pub trait FpOpField: FieldParameters + NumWords {
    const FIELD_TYPE: FieldType;
}

/// The coordinates that the backend reaches by reducing after every step are the
/// ones that the chord and tangent rules give with one reduction at the end.
proof fn lemma_chord_coordinates(m: nat, s: nat, x1: nat, y1: nat, x2: nat, x3: nat, y3: nat)
    requires
        m > 0,
        x3 == mod_sub(mod_sub((s * s) % m, x1, m), x2, m),
        y3 == mod_sub((mod_sub(x1, x3, m) * s) % m, y1, m),
    ensures
        x3 == (s * s - x1 - x2) % (m as int),
        y3 == (s * (x1 - x3) - y1) % (m as int),
{
    let mi = m as int;
    lemma_sub_mod_left((s * s) as int, x1 as int, mi);
    lemma_sub_mod_left(s * s - x1, x2 as int, mi);
    lemma_mul_mod_left(x1 - x3, s as int, mi);
    lemma_sub_mod_left((x1 - x3) * s, y1 as int, mi);
    assert((x1 - x3) * s == s * (x1 - x3)) by (nonlinear_arith);
}

/// The tangent slope that the backend reaches step by step is `(3x^2 + a) / (2y)`.
proof fn lemma_tangent_slope(
    m: nat,
    a: nat,
    x: nat,
    x_sq: nat,
    x_sq_3: nat,
    num: nat,
    inv: nat,
    slope: nat,
)
    requires
        m > 0,
        x_sq == (x * x) % m,
        x_sq_3 == (x_sq * 3) % m,
        num == (x_sq_3 + a) % m,
        slope == (num * inv) % m,
    ensures
        slope == ((3 * x * x + a) * inv) % m,
{
    let mi = m as int;
    lemma_mul_mod_left((x * x) as int, 3, mi);
    assert(x_sq_3 == (x * x * 3) % m);
    lemma_add_mod_noop((x * x * 3) as int, a as int, mi);
    lemma_add_mod_noop(x_sq_3 as int, a as int, mi);
    assert(x_sq_3 % m == x_sq_3) by {
        vstd::arithmetic::div_mod::lemma_mod_twice((x * x * 3) as int, mi);
    }
    assert(num == (x * x * 3 + a) % m);
    lemma_mul_mod_left((x * x * 3 + a) as int, inv as int, mi);
    assert(x * x * 3 == 3 * x * x) by (nonlinear_arith);
}

} // verus!
