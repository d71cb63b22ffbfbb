//! Affine points and what every curve, whatever its equation, offers.
use crate::bignat::BigNat;
use crate::params::{modulus_of, FieldParameters, NumWords};
use std::marker::PhantomData;
use vstd::prelude::*;

verus! {

/// The curves that the library is configured for.
#[derive(Debug, Clone, Copy, PartialEq, Eq)]
pub enum CurveType {
    Secp256k1,
    Bn254,
    Bls12381,
}

/// A pair of coordinates, as mathematics sees it.
pub struct SpecPoint {
    pub x: nat,
    pub y: nat,
}

/// Both coordinates are reduced modulo `m`.
pub open spec fn is_reduced(m: nat, p: SpecPoint) -> bool {
    p.x < m && p.y < m
}

/// What names a curve: its base field and which curve it is.
pub trait EllipticCurveParameters {
    type BaseField: FieldParameters + NumWords;

    const CURVE_TYPE: CurveType;
}

/// A point of the curve `E` in affine coordinates.
///
/// Any pair of numbers can be held: nothing checks that it lies on the curve, nor
/// that it is reduced. The point at infinity has no such pair and cannot be held.
#[derive(Debug, PartialEq, Eq)]
pub struct AffinePoint<E> {
    pub x: BigNat,
    pub y: BigNat,
    pub _marker: PhantomData<E>,
}

impl<E> View for AffinePoint<E> {
    type V = SpecPoint;

    open spec fn view(&self) -> SpecPoint {
        SpecPoint { x: self.x@, y: self.y@ }
    }
}

/// The view of a point that may be missing.
pub open spec fn option_view<E>(p: Option<AffinePoint<E>>) -> Option<SpecPoint> {
    match p {
        None => None,
        Some(q) => Some(q@),
    }
}

impl<E> Clone for AffinePoint<E> {
    fn clone(&self) -> (r: Self)
        ensures
            r@ == self@,
    {
        AffinePoint { x: self.x.clone(), y: self.y.clone(), _marker: PhantomData }
    }
}

impl<E> AffinePoint<E> {
    /// The point with the given coordinates.
    pub fn new(x: BigNat, y: BigNat) -> (r: Self)
        ensures
            r@ == (SpecPoint { x: x@, y: y@ }),
    {
        AffinePoint { x, y, _marker: PhantomData }
    }

    /// Whether two points have the same coordinates.
    pub fn is_equal(&self, other: &Self) -> (r: bool)
        ensures
            r == (self@ == other@),
    {
        self.x.is_equal(&other.x) && self.y.is_equal(&other.y)
    }
}

impl<E: EllipticCurveParameters> AffinePoint<E> {
    /// Whether both coordinates are reduced modulo the base field's modulus.
    pub fn is_reduced(&self) -> (r: bool)
        ensures
            r == is_reduced(modulus_of::<E::BaseField>(), self@),
    {
        let m = E::BaseField::modulus();
        self.x.is_less_than(&m) && self.y.is_less_than(&m)
    }
}

/// The group law of a curve, whatever its equation.
///
/// Each operation has a `*_spec` function that says what it returns and a
/// `*_defined` predicate that says on which points it may be called.
pub trait EllipticCurve: EllipticCurveParameters + Sized {
    /// The number of limbs of a coordinate.
    const NB_LIMBS: usize;

    /// The number of limbs of the witness of a field operation on a coordinate.
    const NB_WITNESS_LIMBS: usize;

    /// Whether the two points can be added.
    spec fn ec_add_defined(p: SpecPoint, q: SpecPoint) -> bool;

    /// The sum of two points.
    spec fn ec_add_spec(p: SpecPoint, q: SpecPoint) -> SpecPoint;

    /// Whether the point can be doubled.
    spec fn ec_double_defined(p: SpecPoint) -> bool;

    /// Twice a point.
    spec fn ec_double_spec(p: SpecPoint) -> SpecPoint;

    /// Whether the point can be negated.
    spec fn ec_neg_defined(p: SpecPoint) -> bool;

    /// The negative of a point.
    spec fn ec_neg_spec(p: SpecPoint) -> SpecPoint;

    /// The generator of the group.
    spec fn ec_generator_spec() -> SpecPoint;

    /// The neutral element, where an affine point can hold it.
    spec fn ec_neutral_spec() -> Option<SpecPoint>;

    /// Adds two different points on the curve.
    fn ec_add(p: &AffinePoint<Self>, q: &AffinePoint<Self>) -> (r: AffinePoint<Self>)
        requires
            Self::ec_add_defined(p@, q@),
        ensures
            r@ == Self::ec_add_spec(p@, q@),
    ;

    /// Doubles a point on the curve.
    fn ec_double(p: &AffinePoint<Self>) -> (r: AffinePoint<Self>)
        requires
            Self::ec_double_defined(p@),
        ensures
            r@ == Self::ec_double_spec(p@),
    ;

    /// Returns the generator of the curve group.
    fn ec_generator() -> (r: AffinePoint<Self>)
        ensures
            r@ == Self::ec_generator_spec(),
    ;

    /// Returns the neutral element of the curve group, if it has an affine form.
    fn ec_neutral() -> (r: Option<AffinePoint<Self>>)
        ensures
            option_view(r) == Self::ec_neutral_spec(),
    ;

    /// Returns the negative of a point on the curve.
    fn ec_neg(p: &AffinePoint<Self>) -> (r: AffinePoint<Self>)
        requires
            Self::ec_neg_defined(p@),
        ensures
            r@ == Self::ec_neg_spec(p@),
    ;
}

} // verus!
