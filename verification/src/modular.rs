//! Modular arithmetic as the group law uses it: what an inverse is, and the
//! identities by which a chain of reduced operations equals one reduction.
use vstd::arithmetic::div_mod::{
    lemma_add_mod_noop_right, lemma_mod_bound, lemma_mod_multiples_vanish,
    lemma_mul_mod_noop_left, lemma_mul_mod_noop_right, lemma_small_mod,
};
use vstd::prelude::*;

verus! {

/// `v` is the inverse of `a` modulo `m`: it is reduced and `a * v` leaves 1.
pub open spec fn is_inverse(a: nat, v: nat, m: nat) -> bool {
    v < m && (a * v) % m == 1
}

/// `a` has an inverse modulo `m`.
pub open spec fn has_inverse(a: nat, m: nat) -> bool {
    exists|v: nat| is_inverse(a, v, m)
}

/// The inverse of `a` modulo `m`, where there is one.
pub open spec fn mod_inverse(a: nat, m: nat) -> nat {
    choose|v: nat| is_inverse(a, v, m)
}

/// `(a - b) mod m`, never negative.
pub open spec fn mod_sub(a: nat, b: nat, m: nat) -> nat {
    ((a - b) % (m as int)) as nat
}

/// An element has at most one inverse.
pub proof fn lemma_inverse_unique(a: nat, v: nat, w: nat, m: nat)
    requires
        is_inverse(a, v, m),
        is_inverse(a, w, m),
    ensures
        v == w,
{
    let mi = m as int;
    lemma_mul_mod_noop_right(v as int, (a * w) as int, mi);
    lemma_mul_mod_noop_right(w as int, (a * v) as int, mi);
    assert(v * (a * w) == w * (a * v)) by (nonlinear_arith);
    assert(v * 1 == v && w * 1 == w);
    lemma_small_mod(v, m);
    lemma_small_mod(w, m);
}

/// An inverse that is known is the one that `mod_inverse` names.
pub proof fn lemma_mod_inverse_is(a: nat, v: nat, m: nat)
    requires
        is_inverse(a, v, m),
    ensures
        has_inverse(a, m),
        mod_inverse(a, m) == v,
{
    lemma_inverse_unique(a, v, mod_inverse(a, m), m);
}

/// Adding `m - b` is subtracting `b`, modulo `m`.
pub proof fn lemma_add_negated(a: nat, b: nat, m: nat)
    requires
        m > 0,
        b <= m,
    ensures
        (a + (m - b)) % (m as int) == (a - b) % (m as int),
{
    lemma_mod_multiples_vanish(1, a - b, m as int);
}

/// Reducing the left operand of a subtraction first changes nothing.
pub proof fn lemma_sub_mod_left(a: int, b: int, m: int)
    requires
        m > 0,
    ensures
        ((a % m) - b) % m == (a - b) % m,
{
    lemma_add_mod_noop_right(-b, a, m);
}

/// Reducing the left operand of a product first changes nothing.
pub proof fn lemma_mul_mod_left(a: int, b: int, m: int)
    requires
        m > 0,
    ensures
        ((a % m) * b) % m == (a * b) % m,
{
    lemma_mul_mod_noop_left(a, b, m);
}

/// A multiple of something that vanishes modulo `m` vanishes modulo `m`.
pub proof fn lemma_multiple_vanishes(k: int, t: int, m: int)
    requires
        m > 0,
        k % m == 0,
    ensures
        (k * t) % m == 0,
        (t * k) % m == 0,
{
    lemma_mul_mod_noop_left(k, t, m);
    lemma_mul_mod_noop_right(t, k, m);
    assert(0 * t == 0 && t * 0 == 0);
    lemma_small_mod(0, m as nat);
}

/// What cancels against an invertible factor vanishes.
pub proof fn lemma_cancel_invertible(m: nat, d: int, inv: nat, e: int)
    requires
        is_inverse((d % (m as int)) as nat, inv, m),
        (d * e) % (m as int) == 0,
    ensures
        e % (m as int) == 0,
{
    let mi = m as int;
    lemma_mod_bound(d, mi);
    lemma_mul_mod_noop_left(d, inv as int, mi);
    assert((d * inv) % mi == 1);
    lemma_mul_mod_noop_right(e, d * inv, mi);
    assert(e * 1 == e);
    assert(e * (d * inv) == (d * e) * inv) by (nonlinear_arith);
    lemma_multiple_vanishes(d * e, inv as int, mi);
}

/// `m` is prime: at least 2, and divisible by nothing between 1 and itself.
pub open spec fn is_prime(m: nat) -> bool {
    m >= 2 && forall|k: nat| 2 <= k < m ==> #[trigger] (m % k) != 0
}

/// The greatest common divisor of `a` and `b` with cofactors `x` and `y`, as Euclid
/// finds them: `a * x + b * y` is the divisor.
pub open spec fn euclid(a: nat, b: nat) -> (nat, int, int)
    decreases b,
{
    if b == 0 {
        (a, 1, 0)
    } else {
        let (g, x, y) = euclid(b, a % b);
        (g, y, x - (a / b) * y)
    }
}

/// What Euclid finds divides both numbers and is their combination with the
/// cofactors; it is not zero unless both numbers are.
#[verifier::rlimit(40)]
pub proof fn lemma_euclid(a: nat, b: nat)
    ensures
        ({
            let (g, x, y) = euclid(a, b);
            &&& a * x + b * y == g
            &&& (a > 0 || b > 0) ==> g > 0 && a % g == 0 && b % g == 0
        }),
    decreases b,
{
    if b == 0 {
        if a > 0 {
            vstd::arithmetic::div_mod::lemma_mod_self_0(a as int);
            lemma_small_mod(0, a);
        }
    } else {
        let r = a % b;
        let q = a / b;
        lemma_euclid(b, r);
        let (g, x, y) = euclid(b, r);
        vstd::arithmetic::div_mod::lemma_fundamental_div_mod(a as int, b as int);
        assert(a == b * q + r);
        assert(a * y + b * (x - q * y) == b * x + r * y) by (nonlinear_arith)
            requires
                a == b * q + r,
        ;
        // g divides b and r, so it divides a = b * q + r
        let bg = b / g;
        let rg = r / g;
        vstd::arithmetic::div_mod::lemma_fundamental_div_mod(b as int, g as int);
        vstd::arithmetic::div_mod::lemma_fundamental_div_mod(r as int, g as int);
        assert(a == g * (bg * q + rg)) by (nonlinear_arith)
            requires
                a == b * q + r,
                b == g * bg,
                r == g * rg,
        ;
        lemma_mod_multiples_vanish((bg * q + rg) as int, 0, g as int);
        lemma_small_mod(0, g);
    }
}

/// Modulo a prime, every number that the prime does not divide has an inverse.
#[verifier::rlimit(40)]
pub proof fn lemma_prime_has_inverses(a: nat, m: nat)
    requires
        is_prime(m),
        a % m != 0,
    ensures
        has_inverse(a, m),
{
    let mi = m as int;
    let r = a % m;
    vstd::arithmetic::div_mod::lemma_mod_bound(a as int, mi);
    lemma_euclid(r, m);
    let (g, x, y) = euclid(r, m);
    // g divides r and m, and r is below m: the prime m leaves g no choice but 1
    assert(g == 1) by {
        if g != 1 {
            assert(g <= r) by {
                if g > r {
                    lemma_small_mod(r, g);
                }
            }
            assert(m % g != 0);
        }
    }
    // r * x = 1 - m * y, so the reduced x is an inverse of r, and of a
    let v = (x % mi) as nat;
    vstd::arithmetic::div_mod::lemma_mod_bound(x, mi);
    lemma_mul_mod_noop_right(r as int, x, mi);
    assert(r * x == mi * (-y) + 1) by (nonlinear_arith)
        requires
            r * x + mi * y == 1,
    ;
    lemma_mod_multiples_vanish(-y, 1, mi);
    lemma_small_mod(1, m);
    assert((r * v) % m == 1);
    lemma_mul_mod_noop_left(a as int, v as int, mi);
    assert(is_inverse(a, v, m));
}

/// Where two numbers have inverses, so has their product.
pub proof fn lemma_product_has_inverse(a: nat, b: nat, m: nat)
    requires
        has_inverse(a, m),
        has_inverse(b, m),
    ensures
        has_inverse(a * b, m),
{
    let mi = m as int;
    let va = mod_inverse(a, m);
    let vb = mod_inverse(b, m);
    let v = (va * vb) % m;
    vstd::arithmetic::div_mod::lemma_mod_bound((va * vb) as int, mi);
    lemma_mul_mod_noop_right((a * b) as int, (va * vb) as int, mi);
    assert((a * b) * (va * vb) == (a * va) * (b * vb)) by (nonlinear_arith);
    vstd::arithmetic::div_mod::lemma_mul_mod_noop_general((a * va) as int, (b * vb) as int, mi);
    assert(1 * 1 == 1);
    lemma_small_mod(1, m);
    assert(is_inverse(a * b, v, m));
}

} // verus!
