//! What a base field tells the curve arithmetic about itself.
use crate::bignat::{le_value, BigNat};
use vstd::prelude::*;

verus! {

/// How many limbs a field element, and its witness, are laid out in.
pub trait NumLimbs {
    const LIMBS: usize;

    const WITNESS: usize;
}

/// How many 32-bit words a field element, and a curve point, are laid out in.
pub trait NumWords {
    const WORDS_FIELD_ELEMENT: usize;

    const WORDS_CURVE_POINT: usize;
}

/// A base field: its modulus, given as little-endian bytes, and its limb count.
///
/// Nothing here says that the modulus is prime: whoever implements the trait for a
/// field answers for that.
pub trait FieldParameters: NumLimbs {
    /// The number of limbs of a field element.
    const NB_LIMBS: usize;

    /// The number of limbs of the witness of a field operation.
    const NB_WITNESS_LIMBS: usize;

    /// The modulus, as little-endian bytes.
    spec fn modulus_le() -> Seq<u8>;

    /// The modulus, as little-endian bytes.
    fn modulus_bytes() -> (r: Vec<u8>)
        ensures
            r@ == Self::modulus_le(),
    ;

    /// The modulus.
    fn modulus() -> (r: BigNat)
        ensures
            r@ == le_value(Self::modulus_le()),
    {
        let bytes = Self::modulus_bytes();
        BigNat::from_bytes_le(bytes.as_slice())
    }
}

/// The modulus of the field `F`.
pub open spec fn modulus_of<F: FieldParameters>() -> nat {
    le_value(F::modulus_le())
}

} // verus!
