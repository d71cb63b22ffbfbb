//! The arbitrary-precision software backend: operands are unbounded little-endian
//! digit strings, the arithmetic on them is done by `dashu`, and an inverse is the
//! power `modulus - 2`. Where the modulus is prime that is the inverse of whatever
//! has one (`lemma_software_inverts`), so over a prime field this backend computes
//! the group law exactly as it is stated (`lemma_software_exact`).
//!
//! The functions marked `external_body` are the boundary to `dashu`: their contracts
//! restate what the operator they call computes and are not proved here.
use crate::backend::FieldBackend;
use crate::bignat::{le_value, lemma_pow256_monotonic, lemma_written_length, pow256, BigNat};
use crate::curve::SpecPoint;
use crate::fermat::lemma_fermat_inverse;
use crate::fixed_width::{uint_pow_mod, FixedWidth};
use crate::modular::{has_inverse, is_inverse, is_prime, lemma_add_negated, mod_sub};
use crate::weierstrass::{
    add_defined, add_defined_with, double_and_add, double_and_add_with, double_defined,
    double_defined_with, lemma_double_and_add_exact,
};
use dashu::integer::UBig;
use vstd::arithmetic::div_mod::lemma_mod_bound;
use vstd::arithmetic::power::pow;
use vstd::prelude::*;

verus! {

/// `UBig::from_le_bytes` and `UBig::to_le_bytes`: the digits of the number that the
/// bytes stand for, as `dashu` writes them: least first, none for zero.
#[verifier::external_body]
fn ubig_digits(bytes: &[u8]) -> (r: Vec<u8>)
    ensures
        le_value(r@) == le_value(bytes@),
        r@.len() == 0 || r@.last() != 0,
{
    UBig::from_le_bytes(bytes).to_le_bytes().into_vec()
}

/// `UBig`'s `+`: the sum.
#[verifier::external_body]
fn ubig_add(a: &[u8], b: &[u8]) -> (r: Vec<u8>)
    ensures
        le_value(r@) == le_value(a@) + le_value(b@),
{
    (UBig::from_le_bytes(a) + UBig::from_le_bytes(b)).to_le_bytes().into_vec()
}

/// `UBig`'s `-`: the difference, where the second operand is not the larger.
#[verifier::external_body]
fn ubig_sub(a: &[u8], b: &[u8]) -> (r: Vec<u8>)
    requires
        le_value(b@) <= le_value(a@),
    ensures
        le_value(r@) == le_value(a@) - le_value(b@),
{
    (UBig::from_le_bytes(a) - UBig::from_le_bytes(b)).to_le_bytes().into_vec()
}

/// `UBig`'s `*`: the product.
#[verifier::external_body]
fn ubig_mul(a: &[u8], b: &[u8]) -> (r: Vec<u8>)
    ensures
        le_value(r@) == le_value(a@) * le_value(b@),
{
    (UBig::from_le_bytes(a) * UBig::from_le_bytes(b)).to_le_bytes().into_vec()
}

/// `UBig`'s `%`: the remainder, where the divisor is not zero.
#[verifier::external_body]
fn ubig_rem(a: &[u8], m: &[u8]) -> (r: Vec<u8>)
    requires
        le_value(m@) != 0,
    ensures
        le_value(r@) == le_value(a@) % le_value(m@),
{
    (UBig::from_le_bytes(a) % UBig::from_le_bytes(m)).to_le_bytes().into_vec()
}

/// The digits of a number as the software backend takes them: least first, without
/// a trailing zero, none for zero.
pub fn biguint_to_dashu(integer: &BigNat) -> (r: Vec<u8>)
    ensures
        le_value(r@) == integer@,
        r@.len() == 0 || r@.last() != 0,
{
    let bytes = integer.to_bytes_le();
    ubig_digits(bytes.as_slice())
}

/// The number that digits of the software backend stand for.
pub fn dashu_to_biguint(integer: &[u8]) -> (r: BigNat)
    ensures
        r@ == le_value(integer@),
{
    BigNat::from_bytes_le(integer)
}

/// Modular exponentiation: `base ^ exponent mod modulus`.
pub open spec fn spec_modpow(base: nat, exponent: nat, modulus: nat) -> nat {
    if modulus == 1 {
        0
    } else {
        (pow(base as int, exponent) % (modulus as int)) as nat
    }
}

/// The power `base ^ exponent` modulo `modulus`, for a modulus that is not zero.
///
/// Modulo 1 the power is 0, whatever the operands. Otherwise the power is computed
/// in 256 bits, so each operand has at most 32 digits.
pub fn dashu_modpow(base: &[u8], exponent: &[u8], modulus: &[u8]) -> (r: Vec<u8>)
    requires
        le_value(modulus@) != 0,
        le_value(modulus@) == 1 || (base@.len() <= 32 && exponent@.len() <= 32
            && modulus@.len() <= 32),
    ensures
        le_value(r@) == spec_modpow(le_value(base@), le_value(exponent@), le_value(modulus@)),
        le_value(r@) < le_value(modulus@),
        r@.len() == 0 || r@.last() != 0,
{
    if dashu_to_biguint(modulus).is_equal(&BigNat::from_u64(1)) {
        return ubig_digits(&[]);
    }
    let result = uint_pow_mod::<256, 4>(base, exponent, modulus);
    proof {
        lemma_mod_bound(
            pow(le_value(base@) as int, le_value(exponent@)),
            le_value(modulus@) as int,
        );
    }
    ubig_digits(result.as_slice())
}

/// The backend that computes on unbounded digit strings.
#[derive(Debug, Clone, Copy, PartialEq, Eq)]
pub struct Software;

/// The digits of `x`, which are at most 32.
fn digits32(x: &BigNat) -> (r: Vec<u8>)
    requires
        x@ < 256 || x@ < pow256(32),
    ensures
        le_value(r@) == x@,
        r@.len() <= 32,
{
    let r = biguint_to_dashu(x);
    proof {
        assert(pow256(1) == 256) by {
            reveal_with_fuel(pow256, 2);
        }
        lemma_pow256_monotonic(1, 32);
        if r@.len() > 0 {
            lemma_written_length(r@, 32);
        }
    }
    r
}

impl FieldBackend for Software {
    /// Numbers of at most 32 digits are taken: the power that gives an inverse is
    /// computed in 256 bits.
    open spec fn capacity() -> Option<nat> {
        Some(pow256(32))
    }

    /// The inverse is found where the power `m - 2` of `a` is the inverse. For a
    /// prime `m` that is every `a` that `m` does not divide.
    open spec fn inverts(a: nat, m: nat) -> bool {
        m >= 2 && is_inverse(a, spec_modpow(a, (m - 2) as nat, m), m)
    }

    fn add_mod(a: &BigNat, b: &BigNat, m: &BigNat) -> (r: BigNat) {
        let a = biguint_to_dashu(a);
        let b = biguint_to_dashu(b);
        let m = biguint_to_dashu(m);
        let sum = ubig_add(a.as_slice(), b.as_slice());
        proof {
            lemma_mod_bound((le_value(a@) + le_value(b@)) as int, le_value(m@) as int);
        }
        dashu_to_biguint(ubig_rem(sum.as_slice(), m.as_slice()).as_slice())
    }

    /// Computed without leaving the unsigned range, as `(m + a - b) mod m`.
    fn sub_mod(a: &BigNat, b: &BigNat, m: &BigNat) -> (r: BigNat) {
        let a = biguint_to_dashu(a);
        let b = biguint_to_dashu(b);
        let m = biguint_to_dashu(m);
        let raised = ubig_add(m.as_slice(), a.as_slice());
        let diff = ubig_sub(raised.as_slice(), b.as_slice());
        proof {
            lemma_add_negated(le_value(a@), le_value(b@), le_value(m@));
            lemma_mod_bound(le_value(a@) - le_value(b@), le_value(m@) as int);
        }
        dashu_to_biguint(ubig_rem(diff.as_slice(), m.as_slice()).as_slice())
    }

    fn mul_mod(a: &BigNat, b: &BigNat, m: &BigNat) -> (r: BigNat) {
        let a = biguint_to_dashu(a);
        let b = biguint_to_dashu(b);
        let m = biguint_to_dashu(m);
        let product = ubig_mul(a.as_slice(), b.as_slice());
        proof {
            lemma_mod_bound((le_value(a@) * le_value(b@)) as int, le_value(m@) as int);
        }
        dashu_to_biguint(ubig_rem(product.as_slice(), m.as_slice()).as_slice())
    }

    /// The power `m - 2` of `a`, kept where it is the inverse.
    fn inv_mod(a: &BigNat, m: &BigNat) -> (r: Option<BigNat>) {
        let two = BigNat::from_u64(2);
        if m.is_less_than(&two) {
            return None;
        }
        let base = digits32(a);
        let modulus = digits32(m);
        let exponent = digits32(&m.sub(&two));
        let candidate = dashu_to_biguint(
            dashu_modpow(base.as_slice(), exponent.as_slice(), modulus.as_slice()).as_slice(),
        );
        let check = Self::mul_mod(a, &candidate, m);
        if check.is_equal(&BigNat::from_u64(1)) {
            Some(candidate)
        } else {
            None
        }
    }
}

/// Over a prime field the software backend finds every inverse that exists: the
/// power `m - 2` is the inverse of whatever has one.
pub proof fn lemma_software_inverts(a: nat, m: nat)
    requires
        is_prime(m),
    ensures
        Software::inverts(a, m) == has_inverse(a, m),
{
    let mi = m as int;
    if a % m == 0 {
        assert forall|v: nat| !is_inverse(a, v, m) by {
            vstd::arithmetic::div_mod::lemma_mul_mod_noop_left(a as int, v as int, mi);
            assert(0 * v == 0);
            vstd::arithmetic::div_mod::lemma_small_mod(0, m);
        }
    } else {
        lemma_fermat_inverse(a, m);
    }
}

/// Over a prime field the software backend runs double-and-add exactly as
/// `double_and_add` states it.
pub proof fn lemma_software_exact(
    m: nat,
    a: nat,
    acc: Option<SpecPoint>,
    temp: SpecPoint,
    k: nat,
    n: nat,
)
    requires
        is_prime(m),
    ensures
        double_and_add_with::<Software>(m, a, acc, temp, k, n) == double_and_add(
            m,
            a,
            acc,
            temp,
            k,
            n,
        ),
{
    assert forall|x: nat| #[trigger] Software::inverts(x, m) == has_inverse(x, m) by {
        lemma_software_inverts(x, m);
    }
    lemma_double_and_add_exact::<Software>(m, a, acc, temp, k, n);
}

/// Over a prime field every backend of the library runs double-and-add exactly as
/// `double_and_add` states it, so all of them give the same point, or none does.
pub proof fn lemma_configured_backends_agree(
    m: nat,
    a: nat,
    acc: Option<SpecPoint>,
    temp: SpecPoint,
    k: nat,
    n: nat,
)
    requires
        is_prime(m),
    ensures
        double_and_add_with::<FixedWidth<256, 4>>(m, a, acc, temp, k, n) == double_and_add(
            m,
            a,
            acc,
            temp,
            k,
            n,
        ),
        double_and_add_with::<FixedWidth<512, 8>>(m, a, acc, temp, k, n) == double_and_add(
            m,
            a,
            acc,
            temp,
            k,
            n,
        ),
        double_and_add_with::<Software>(m, a, acc, temp, k, n) == double_and_add(
            m,
            a,
            acc,
            temp,
            k,
            n,
        ),
{
    lemma_double_and_add_exact::<FixedWidth<256, 4>>(m, a, acc, temp, k, n);
    lemma_double_and_add_exact::<FixedWidth<512, 8>>(m, a, acc, temp, k, n);
    lemma_software_exact(m, a, acc, temp, k, n);
}

/// Over a prime field the software backend adds and doubles exactly the points for
/// which `add_defined` and `double_defined` say so.
pub proof fn lemma_software_defined(m: nat, p: SpecPoint, q: SpecPoint)
    requires
        is_prime(m),
    ensures
        add_defined_with::<Software>(m, p, q) == add_defined(m, p, q),
        double_defined_with::<Software>(m, p) == double_defined(m, p),
{
    vstd::arithmetic::div_mod::lemma_mod_bound(q.x - p.x, m as int);
    vstd::arithmetic::div_mod::lemma_mod_bound((2 * p.y) as int, m as int);
    lemma_software_inverts(mod_sub(q.x, p.x, m), m);
    lemma_software_inverts((2 * p.y) % m, m);
}

} // verus!
