//! What the group law asks of the arithmetic underneath it.
//!
//! A numeric backend adds, subtracts, multiplies and inverts modulo a number. The
//! group law is written once against this trait, so every backend yields the same
//! points: what an operation returns is fixed by its contract, not by the backend.
//! Which backend a program computes with is settled where it is compiled: the
//! backend is a type, never a value.
use crate::bignat::BigNat;
use crate::modular::{has_inverse, is_inverse, mod_sub};
use vstd::prelude::*;

verus! {

/// A backend that can be used, and whose bound is `capacity`, takes `v`: a single
/// base-256 digit, or a number below the bound.
pub open spec fn admits(usable: bool, capacity: Option<nat>, v: nat) -> bool {
    usable && (v < 256 || match capacity {
        None => true,
        Some(bound) => v < bound,
    })
}

/// Modular arithmetic over a modulus handed to each call.
///
/// A backend that states nothing else about itself can always be used, takes
/// operands of any size, and finds every inverse that exists.
pub trait FieldBackend {
    /// The backend can be used at all.
    open spec fn usable() -> bool {
        true
    }

    /// The bound below which the backend takes operands and moduli, if it has one.
    open spec fn capacity() -> Option<nat> {
        None
    }

    /// The backend finds the inverse of `a` modulo `m`.
    open spec fn inverts(a: nat, m: nat) -> bool {
        has_inverse(a, m)
    }

    /// `(a + b) mod m`.
    fn add_mod(a: &BigNat, b: &BigNat, m: &BigNat) -> (r: BigNat)
        requires
            admits(Self::usable(), Self::capacity(), a@),
            admits(Self::usable(), Self::capacity(), b@),
            admits(Self::usable(), Self::capacity(), m@),
            m@ > 0,
        ensures
            r@ == (a@ + b@) % m@,
            r@ < m@,
    ;

    /// `(a - b) mod m`, for `b` at most `m`.
    fn sub_mod(a: &BigNat, b: &BigNat, m: &BigNat) -> (r: BigNat)
        requires
            admits(Self::usable(), Self::capacity(), a@),
            admits(Self::usable(), Self::capacity(), b@),
            admits(Self::usable(), Self::capacity(), m@),
            m@ > 0,
            b@ <= m@,
        ensures
            r@ == mod_sub(a@, b@, m@),
            r@ < m@,
    ;

    /// `(a * b) mod m`.
    fn mul_mod(a: &BigNat, b: &BigNat, m: &BigNat) -> (r: BigNat)
        requires
            admits(Self::usable(), Self::capacity(), a@),
            admits(Self::usable(), Self::capacity(), b@),
            admits(Self::usable(), Self::capacity(), m@),
            m@ > 0,
        ensures
            r@ == (a@ * b@) % m@,
            r@ < m@,
    ;

    /// The inverse of `a` modulo `m`, where the backend finds it.
    fn inv_mod(a: &BigNat, m: &BigNat) -> (r: Option<BigNat>)
        requires
            admits(Self::usable(), Self::capacity(), a@),
            admits(Self::usable(), Self::capacity(), m@),
        ensures
            r is Some <==> Self::inverts(a@, m@),
            r matches Some(v) ==> is_inverse(a@, v@, m@),
    ;
}

/// The backend `B` takes `v` as an operand or as a modulus: it can be used, and `v`
/// is a single base-256 digit or below the backend's bound. With a number, every
/// smaller one is taken.
pub open spec fn accepts<B: FieldBackend>(v: nat) -> bool {
    admits(B::usable(), B::capacity(), v)
}

} // verus!
