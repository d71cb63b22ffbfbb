//! The fixed-width numeric backend: modular arithmetic on integers of `BITS` bits held
//! in `LIMBS` 64-bit words, done by `alloy_primitives::Uint`.
//!
//! Operands and results cross the boundary as little-endian byte strings. The
//! functions marked `external_body` are the boundary: their contracts restate the
//! documentation of the `Uint` method they call and are not proved here.
use crate::backend::FieldBackend;
use crate::bignat::{le_value, lemma_pow256_monotonic, lemma_written_length, pow256, BigNat};
use crate::modular::{has_inverse, is_inverse, lemma_add_negated};
use alloy_primitives::Uint;
use vstd::arithmetic::div_mod::lemma_mod_bound;
use vstd::arithmetic::power::pow;
use vstd::prelude::*;

verus! {

/// `BITS` is a whole number of `LIMBS` 64-bit words.
pub open spec fn width_ok(bits: usize, limbs: usize) -> bool {
    limbs > 0 && bits == 64 * limbs
}

/// The byte string is no longer than an integer of `bits` bits.
pub open spec fn fits(s: Seq<u8>, bits: usize) -> bool {
    s.len() * 8 <= bits
}

/// A byte string as it leaves the backend: exactly `bits / 8` bytes.
pub open spec fn full_width(s: Seq<u8>, bits: usize) -> bool {
    s.len() * 8 == bits
}

/// `Uint::add_mod`: the sum of the operands reduced by the modulus; zero where the
/// modulus is zero. The operands need not be reduced.
#[verifier::external_body]
pub(crate) fn uint_add_mod<const BITS: usize, const LIMBS: usize>(
    a: &[u8],
    b: &[u8],
    m: &[u8],
) -> (r: Vec<u8>)
    requires
        width_ok(BITS, LIMBS),
        fits(a@, BITS),
        fits(b@, BITS),
        fits(m@, BITS),
    ensures
        full_width(r@, BITS),
        le_value(r@) == (if le_value(m@) == 0 {
            0
        } else {
            (le_value(a@) + le_value(b@)) % le_value(m@)
        }),
{
    let a = Uint::<BITS, LIMBS>::from_le_slice(a);
    let b = Uint::<BITS, LIMBS>::from_le_slice(b);
    let m = Uint::<BITS, LIMBS>::from_le_slice(m);
    a.add_mod(b, m).to_le_bytes_vec()
}

/// `Uint::mul_mod`: the product of the operands reduced by the modulus; zero where
/// the modulus is zero. The operands need not be reduced.
#[verifier::external_body]
pub(crate) fn uint_mul_mod<const BITS: usize, const LIMBS: usize>(
    a: &[u8],
    b: &[u8],
    m: &[u8],
) -> (r: Vec<u8>)
    requires
        width_ok(BITS, LIMBS),
        fits(a@, BITS),
        fits(b@, BITS),
        fits(m@, BITS),
    ensures
        full_width(r@, BITS),
        le_value(r@) == (if le_value(m@) == 0 {
            0
        } else {
            (le_value(a@) * le_value(b@)) % le_value(m@)
        }),
{
    let a = Uint::<BITS, LIMBS>::from_le_slice(a);
    let b = Uint::<BITS, LIMBS>::from_le_slice(b);
    let m = Uint::<BITS, LIMBS>::from_le_slice(m);
    a.mul_mod(b, m).to_le_bytes_vec()
}

/// `Uint::inv_mod`: the reduced inverse of the operand modulo the modulus, or `None`
/// where the operand has none (the two are not coprime, or the modulus is below 2).
#[verifier::external_body]
pub(crate) fn uint_inv_mod<const BITS: usize, const LIMBS: usize>(a: &[u8], m: &[u8]) -> (r:
    Option<Vec<u8>>)
    requires
        width_ok(BITS, LIMBS),
        fits(a@, BITS),
        fits(m@, BITS),
    ensures
        match r {
            Some(v) => full_width(v@, BITS) && is_inverse(
                le_value(a@),
                le_value(v@),
                le_value(m@),
            ),
            None => !has_inverse(le_value(a@), le_value(m@)),
        },
{
    let a = Uint::<BITS, LIMBS>::from_le_slice(a);
    let m = Uint::<BITS, LIMBS>::from_le_slice(m);
    match a.inv_mod(m) {
        Some(v) => Some(v.to_le_bytes_vec()),
        None => None,
    }
}

/// `Uint::pow_mod`: the base raised to the exponent, reduced by the modulus; zero
/// where the modulus is zero.
#[verifier::external_body]
pub(crate) fn uint_pow_mod<const BITS: usize, const LIMBS: usize>(
    base: &[u8],
    exp: &[u8],
    m: &[u8],
) -> (r: Vec<u8>)
    requires
        width_ok(BITS, LIMBS),
        fits(base@, BITS),
        fits(exp@, BITS),
        fits(m@, BITS),
    ensures
        full_width(r@, BITS),
        le_value(r@) == (if le_value(m@) == 0 {
            0
        } else {
            pow(le_value(base@) as int, le_value(exp@)) % (le_value(m@) as int)
        }),
{
    let base = Uint::<BITS, LIMBS>::from_le_slice(base);
    let exp = Uint::<BITS, LIMBS>::from_le_slice(exp);
    let m = Uint::<BITS, LIMBS>::from_le_slice(m);
    base.pow_mod(exp, m).to_le_bytes_vec()
}

/// `Uint`'s `-`: the difference of the operands, wrapping around `2^BITS` where
/// the second is the larger.
#[verifier::external_body]
pub(crate) fn uint_sub<const BITS: usize, const LIMBS: usize>(a: &[u8], b: &[u8]) -> (r: Vec<u8>)
    requires
        width_ok(BITS, LIMBS),
        fits(a@, BITS),
        fits(b@, BITS),
    ensures
        full_width(r@, BITS),
        le_value(r@) == (if le_value(a@) >= le_value(b@) {
            le_value(a@) - le_value(b@)
        } else {
            le_value(a@) + pow256(r@.len()) - le_value(b@)
        }),
{
    let a = Uint::<BITS, LIMBS>::from_le_slice(a);
    let b = Uint::<BITS, LIMBS>::from_le_slice(b);
    (a - b).to_le_bytes_vec()
}

/// The bytes of `x`, for an operand of a `bits`-bit operation.
fn operand(x: &BigNat, bits: usize) -> (r: Vec<u8>)
    requires
        bits >= 8,
        bits % 8 == 0,
        x@ < 256 || x@ < pow256((bits / 8) as nat),
    ensures
        fits(r@, bits),
        le_value(r@) == x@,
{
    let r = x.to_bytes_le();
    proof {
        assert(pow256(1) == 256) by {
            reveal_with_fuel(pow256, 2);
        }
        lemma_pow256_monotonic(1, (bits / 8) as nat);
        lemma_written_length(r@, (bits / 8) as nat);
    }
    r
}

/// The backend that computes in integers of `BITS` bits, held in `LIMBS` words of
/// 64 bits.
#[derive(Debug, Clone, Copy, PartialEq, Eq)]
pub struct FixedWidth<const BITS: usize, const LIMBS: usize>;

impl<const BITS: usize, const LIMBS: usize> FieldBackend for FixedWidth<BITS, LIMBS> {
    /// `BITS` is `LIMBS` whole words.
    open spec fn usable() -> bool {
        width_ok(BITS, LIMBS)
    }

    /// Numbers of at most `BITS` bits are taken.
    open spec fn capacity() -> Option<nat> {
        Some(pow256((BITS / 8) as nat))
    }

    /// Every inverse that exists is found.
    open spec fn inverts(a: nat, m: nat) -> bool {
        has_inverse(a, m)
    }

    fn add_mod(a: &BigNat, b: &BigNat, m: &BigNat) -> (r: BigNat) {
        let a = operand(a, BITS);
        let b = operand(b, BITS);
        let m = operand(m, BITS);
        proof {
            lemma_mod_bound((le_value(a@) + le_value(b@)) as int, le_value(m@) as int);
        }
        let r = uint_add_mod::<BITS, LIMBS>(a.as_slice(), b.as_slice(), m.as_slice());
        BigNat::from_bytes_le(r.as_slice())
    }

    /// Computed without leaving the unsigned range, as `a + (m - b)`.
    fn sub_mod(a: &BigNat, b: &BigNat, m: &BigNat) -> (r: BigNat) {
        let a = operand(a, BITS);
        let b = operand(b, BITS);
        let m = operand(m, BITS);
        let negated = uint_sub::<BITS, LIMBS>(m.as_slice(), b.as_slice());
        proof {
            lemma_add_negated(le_value(a@), le_value(b@), le_value(m@));
            lemma_mod_bound(le_value(a@) - le_value(b@), le_value(m@) as int);
        }
        let r = uint_add_mod::<BITS, LIMBS>(a.as_slice(), negated.as_slice(), m.as_slice());
        BigNat::from_bytes_le(r.as_slice())
    }

    fn mul_mod(a: &BigNat, b: &BigNat, m: &BigNat) -> (r: BigNat) {
        let a = operand(a, BITS);
        let b = operand(b, BITS);
        let m = operand(m, BITS);
        proof {
            lemma_mod_bound((le_value(a@) * le_value(b@)) as int, le_value(m@) as int);
        }
        let r = uint_mul_mod::<BITS, LIMBS>(a.as_slice(), b.as_slice(), m.as_slice());
        BigNat::from_bytes_le(r.as_slice())
    }

    fn inv_mod(a: &BigNat, m: &BigNat) -> (r: Option<BigNat>) {
        let a = operand(a, BITS);
        let m = operand(m, BITS);
        match uint_inv_mod::<BITS, LIMBS>(a.as_slice(), m.as_slice()) {
            Some(v) => Some(BigNat::from_bytes_le(v.as_slice())),
            None => None,
        }
    }
}

} // verus!
