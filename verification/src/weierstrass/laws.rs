//! What holds of the group law whatever the curve: statements over the `spec_*`
//! functions that the contracts of the executable operations are written in.
use crate::backend::FieldBackend;
use crate::curve::{is_reduced, SpecPoint};
use crate::modular::{
    is_inverse, is_prime, lemma_mod_inverse_is, lemma_prime_has_inverses,
    lemma_product_has_inverse, mod_inverse, mod_sub,
};
use crate::weierstrass::{
    add_defined, add_slope, chord_point, double_and_add, double_and_add_with, double_defined,
    double_slope, neg_defined, spec_add, spec_double, spec_neg, spec_scalar_mul,
};
use vstd::arithmetic::div_mod::{
    lemma_mod_equivalence, lemma_mod_multiples_vanish, lemma_mul_mod_noop_left,
    lemma_mul_mod_noop_right,
};
use vstd::arithmetic::power2::{lemma_pow2_pos, lemma_pow2_unfold, pow2};
use vstd::prelude::*;

verus! {

/// Negating a point twice gives the point back.
pub proof fn lemma_neg_involution(m: nat, p: SpecPoint)
    requires
        neg_defined(m, p),
    ensures
        neg_defined(m, spec_neg(m, p)),
        spec_neg(m, spec_neg(m, p)) == p,
{
}

/// The inverse of `-d` is the negated inverse of `d`, and a product with it is the
/// product of the negated factor with the inverse of `d`.
#[verifier::rlimit(40)]
proof fn lemma_inverse_of_negated(m: nat, d: int, inv: nat, n: int)
    requires
        is_inverse((d % (m as int)) as nat, inv, m),
    ensures
        m > 1,
        0 < inv < m,
        is_inverse(((-d) % (m as int)) as nat, (m - inv) as nat, m),
        ((-n) * (m - inv)) % (m as int) == (n * inv) % (m as int),
{
    let mi = m as int;
    let dr = (d % mi) as nat;
    assert(m > 1 && inv != 0) by {
        vstd::arithmetic::div_mod::lemma_mod_bound((dr * inv) as int, mi);
        if inv == 0 {
            assert(dr * inv == 0) by (nonlinear_arith)
                requires
                    inv == 0,
            ;
            vstd::arithmetic::div_mod::lemma_small_mod(0, m);
        }
    }
    let invp = m - inv;
    assert((-d) * invp == mi * (-d) + d * inv) by (nonlinear_arith)
        requires
            invp == mi - inv,
    ;
    assert((-n) * invp == mi * (-n) + n * inv) by (nonlinear_arith)
        requires
            invp == mi - inv,
    ;
    lemma_mod_multiples_vanish(-d, d * inv, mi);
    lemma_mod_multiples_vanish(-n, n * inv, mi);
    lemma_mul_mod_noop_left(-d, invp, mi);
    lemma_mul_mod_noop_left(d, inv as int, mi);
    vstd::arithmetic::div_mod::lemma_mod_bound(-d, mi);
    vstd::arithmetic::div_mod::lemma_mod_bound(d, mi);
}

/// The slope of a chord times the difference of the `x` coordinates is the
/// difference of the `y` coordinates.
pub proof fn lemma_chord_slope(m: nat, dy: int, dx: int, inv: nat, s: nat)
    requires
        is_inverse((dx % (m as int)) as nat, inv, m),
        s == (dy * inv) % (m as int),
    ensures
        (s * dx) % (m as int) == dy % (m as int),
{
    let mi = m as int;
    vstd::arithmetic::div_mod::lemma_mod_bound(dx, mi);
    lemma_mul_mod_noop_left(dy * inv, dx, mi);
    assert(dy * inv * dx == dy * (inv * dx)) by (nonlinear_arith);
    lemma_mul_mod_noop_right(dy, inv * dx, mi);
    lemma_mul_mod_noop_right(inv as int, dx, mi);
    assert(inv * (dx % mi) == (dx % mi) * inv) by (nonlinear_arith);
    assert(dy * 1 == dy);
}

/// Addition does not depend on the order of the two points.
#[verifier::rlimit(40)]
pub proof fn lemma_add_commutative(m: nat, p: SpecPoint, q: SpecPoint)
    requires
        add_defined(m, p, q),
    ensures
        add_defined(m, q, p),
        spec_add(m, p, q) == spec_add(m, q, p),
{
    let mi = m as int;
    let dx = q.x - p.x;
    let dy = q.y - p.y;
    let inv = mod_inverse(mod_sub(q.x, p.x, m), m);
    assert(is_inverse(mod_sub(q.x, p.x, m), inv, m));
    lemma_inverse_of_negated(m, dx, inv, dy);
    assert(-dx == p.x - q.x && -dy == p.y - q.y);
    lemma_mod_inverse_is(mod_sub(p.x, q.x, m), (m - inv) as nat, m);
    let s = add_slope(m, p, q);
    assert(add_slope(m, q, p) == s);
    lemma_chord_slope(m, dy, dx, inv, s);
    let x3 = (s * s - p.x - q.x) % mi;
    assert(x3 == (s * s - q.x - p.x) % mi);
    let e1 = s * (p.x - x3) - p.y;
    let e2 = s * (q.x - x3) - q.y;
    assert(e2 - e1 == s * dx - dy) by (nonlinear_arith)
        requires
            e1 == s * (p.x - x3) - p.y,
            e2 == s * (q.x - x3) - q.y,
            dx == q.x - p.x,
            dy == q.y - p.y,
    ;
    lemma_mod_equivalence(s * dx, dy, mi);
    lemma_mod_equivalence(e2, e1, mi);
}

/// Over a prime field, two reduced points can be added exactly when their `x`
/// coordinates differ: not a point and itself, and not a point and its negative.
pub proof fn lemma_add_defined_over_prime(m: nat, p: SpecPoint, q: SpecPoint)
    requires
        is_prime(m),
        is_reduced(m, p),
        is_reduced(m, q),
    ensures
        add_defined(m, p, q) <==> p.x != q.x,
{
    let mi = m as int;
    let d = mod_sub(q.x, p.x, m);
    vstd::arithmetic::div_mod::lemma_mod_bound(q.x - p.x, mi);
    if p.x == q.x {
        vstd::arithmetic::div_mod::lemma_small_mod(0, m);
        assert(d == 0);
        assert forall|v: nat| !is_inverse(d, v, m) by {
            assert(d * v == 0) by (nonlinear_arith)
                requires
                    d == 0,
            ;
        }
    } else {
        assert(d % m != 0) by {
            vstd::arithmetic::div_mod::lemma_mod_twice(q.x - p.x, mi);
            if q.x > p.x {
                vstd::arithmetic::div_mod::lemma_small_mod((q.x - p.x) as nat, m);
            } else {
                lemma_mod_multiples_vanish(1, q.x - p.x, mi);
                vstd::arithmetic::div_mod::lemma_small_mod((m + q.x - p.x) as nat, m);
            }
        }
        lemma_prime_has_inverses(d, m);
    }
}

/// Over a prime field, the sum of two reduced points with different `x` coordinates
/// is defined and does not depend on their order.
pub proof fn lemma_add_commutative_over_prime(m: nat, p: SpecPoint, q: SpecPoint)
    requires
        is_prime(m),
        is_reduced(m, p),
        is_reduced(m, q),
        p.x != q.x,
    ensures
        add_defined(m, p, q),
        add_defined(m, q, p),
        spec_add(m, p, q) == spec_add(m, q, p),
{
    lemma_add_defined_over_prime(m, p, q);
    lemma_add_commutative(m, p, q);
}

/// Over a field of odd prime order, a reduced point can be doubled exactly when its
/// `y` coordinate is not zero.
pub proof fn lemma_double_defined_over_prime(m: nat, p: SpecPoint)
    requires
        is_prime(m),
        m > 2,
        is_reduced(m, p),
    ensures
        double_defined(m, p) <==> p.y != 0,
{
    let mi = m as int;
    let d = (2 * p.y) % m;
    vstd::arithmetic::div_mod::lemma_mod_bound((2 * p.y) as int, mi);
    if p.y == 0 {
        vstd::arithmetic::div_mod::lemma_small_mod(0, m);
        assert forall|v: nat| !is_inverse(d, v, m) by {
            assert(d * v == 0) by (nonlinear_arith)
                requires
                    d == 0,
            ;
        }
    } else {
        vstd::arithmetic::div_mod::lemma_small_mod(2, m);
        vstd::arithmetic::div_mod::lemma_small_mod(p.y, m);
        lemma_prime_has_inverses(2, m);
        lemma_prime_has_inverses(p.y, m);
        lemma_product_has_inverse(2, p.y, m);
        let v = mod_inverse(2 * p.y, m);
        lemma_mul_mod_noop_left((2 * p.y) as int, v as int, mi);
        assert(is_inverse(d, v, m));
    }
}

/// Doubling is the chord rule applied to the point and itself, with the slope `s`
/// of the tangent to the curve at the point: the one with `2 * y * s = 3 * x^2 + a`.
pub proof fn lemma_double_is_tangent_chord(m: nat, a: nat, p: SpecPoint)
    requires
        double_defined(m, p),
    ensures
        spec_double(m, a, p) == chord_point(m, double_slope(m, a, p), p, p),
        (2 * p.y * double_slope(m, a, p)) % m == (3 * p.x * p.x + a) % m,
{
    let mi = m as int;
    let d = (2 * p.y) % m;
    let inv = mod_inverse(d, m);
    assert(is_inverse(d, inv, m));
    let n = 3 * p.x * p.x + a;
    let s = double_slope(m, a, p);
    assert(s == (n * inv) % m);
    lemma_mul_mod_noop_right((2 * p.y) as int, (n * inv) as int, mi);
    assert(2 * p.y * (n * inv) == n * (2 * p.y * inv)) by (nonlinear_arith);
    lemma_mul_mod_noop_right(n as int, (2 * p.y * inv) as int, mi);
    lemma_mul_mod_noop_left((2 * p.y) as int, inv as int, mi);
    assert(n * 1 == n);
}

/// The point doubled `j` times.
pub open spec fn iterate_double(m: nat, a: nat, p: SpecPoint, j: nat) -> SpecPoint
    decreases j,
{
    if j == 0 {
        p
    } else {
        iterate_double(m, a, spec_double(m, a, p), (j - 1) as nat)
    }
}

/// Each of the `n` doublings that start at `p` is defined.
pub open spec fn doublings_defined(m: nat, a: nat, p: SpecPoint, n: nat) -> bool
    decreases n,
{
    n == 0 || (double_defined(m, p) && doublings_defined(
        m,
        a,
        spec_double(m, a, p),
        (n - 1) as nat,
    ))
}

/// A point that is doubled any number of times stays reduced.
pub proof fn lemma_iterate_double_reduced(m: nat, a: nat, p: SpecPoint, j: nat)
    requires
        m > 0,
        is_reduced(m, p),
    ensures
        is_reduced(m, iterate_double(m, a, p, j)),
    decreases j,
{
    if j > 0 {
        let s = double_slope(m, a, p);
        let twice = spec_double(m, a, p);
        vstd::arithmetic::div_mod::lemma_mod_bound(s * s - p.x - p.x, m as int);
        vstd::arithmetic::div_mod::lemma_mod_bound(s * (p.x - twice.x) - p.y, m as int);
        lemma_iterate_double_reduced(m, a, twice, (j - 1) as nat);
    }
}

/// Over a field of odd prime order, the `n` doublings that start at a reduced point
/// are defined exactly when none of the points that are doubled has `y` zero.
pub proof fn lemma_doublings_defined_over_prime(m: nat, a: nat, p: SpecPoint, n: nat)
    requires
        is_prime(m),
        m > 2,
        is_reduced(m, p),
    ensures
        doublings_defined(m, a, p, n) <==> (forall|i: nat|
            i < n ==> (#[trigger] iterate_double(m, a, p, i)).y != 0),
    decreases n,
{
    if n > 0 {
        let twice = spec_double(m, a, p);
        lemma_double_defined_over_prime(m, p);
        lemma_iterate_double_reduced(m, a, p, 1);
        assert(iterate_double(m, a, p, 1) == iterate_double(m, a, twice, 0));
        assert(iterate_double(m, a, twice, 0) == twice);
        lemma_doublings_defined_over_prime(m, a, twice, (n - 1) as nat);
        assert(iterate_double(m, a, p, 0) == p);
        assert forall|i: nat| 0 < i implies #[trigger] iterate_double(m, a, p, i)
            == iterate_double(m, a, twice, (i - 1) as nat) by {}
        if doublings_defined(m, a, p, n) {
            assert forall|i: nat| i < n implies (#[trigger] iterate_double(m, a, p, i)).y
                != 0 by {
                if i > 0 {
                    assert(iterate_double(m, a, twice, (i - 1) as nat).y != 0);
                }
            }
        }
        if forall|i: nat| i < n ==> (#[trigger] iterate_double(m, a, p, i)).y != 0 {
            assert(iterate_double(m, a, p, 0).y != 0);
            assert forall|i: nat| i < n - 1 implies (#[trigger] iterate_double(
                m,
                a,
                twice,
                i,
            )).y != 0 by {
                assert(iterate_double(m, a, p, i + 1) == iterate_double(m, a, twice, i));
            }
        }
    }
}

/// Over a field of odd prime order, the product of a reduced point by `2^j`, with
/// `j` below the number `n` of digits walked, is the point doubled `j` times,
/// where none of the `n` points that the walk doubles has `y` zero.
pub proof fn lemma_scalar_mul_power_of_two_over_prime(
    m: nat,
    a: nat,
    p: SpecPoint,
    j: nat,
    n: nat,
)
    requires
        is_prime(m),
        m > 2,
        is_reduced(m, p),
        j < n,
        forall|i: nat| i < n ==> (#[trigger] iterate_double(m, a, p, i)).y != 0,
    ensures
        spec_scalar_mul(m, a, p, pow2(j), n) == Some(iterate_double(m, a, p, j)),
{
    lemma_doublings_defined_over_prime(m, a, p, n);
    lemma_double_and_add_power_of_two(m, a, p, j, n);
}

/// With no digit left that is set, double-and-add keeps its accumulator, as long as
/// the doublings that it still makes are defined.
proof fn lemma_double_and_add_zero(m: nat, a: nat, acc: Option<SpecPoint>, temp: SpecPoint, n: nat)
    ensures
        double_and_add(m, a, acc, temp, 0, n) == (if doublings_defined(m, a, temp, n) {
            acc
        } else {
            None
        }),
    decreases n,
{
    if n > 0 && double_defined(m, temp) {
        lemma_double_and_add_zero(m, a, acc, spec_double(m, a, temp), (n - 1) as nat);
    }
}

proof fn lemma_double_and_add_power_of_two(m: nat, a: nat, temp: SpecPoint, j: nat, n: nat)
    requires
        j < n,
    ensures
        double_and_add(m, a, None, temp, pow2(j), n) == (if doublings_defined(m, a, temp, n) {
            Some(iterate_double(m, a, temp, j))
        } else {
            None
        }),
    decreases j,
{
    if j == 0 {
        assert(pow2(0) == 1) by {
            vstd::arithmetic::power2::lemma2_to64();
        }
        if double_defined(m, temp) {
            lemma_double_and_add_zero(
                m,
                a,
                Some(temp),
                spec_double(m, a, temp),
                (n - 1) as nat,
            );
        }
    } else {
        lemma_pow2_unfold(j);
        lemma_pow2_pos((j - 1) as nat);
        if double_defined(m, temp) {
            lemma_double_and_add_power_of_two(
                m,
                a,
                spec_double(m, a, temp),
                (j - 1) as nat,
                (n - 1) as nat,
            );
        }
    }
}

/// Multiplying by a scalar with exactly one binary digit set, `2^j` with `j` below
/// the number `n` of digits walked, doubles the point `j` times. The product is
/// defined exactly when each of the `n` doublings that double-and-add makes is.
pub proof fn lemma_scalar_mul_power_of_two(m: nat, a: nat, p: SpecPoint, j: nat, n: nat)
    requires
        j < n,
    ensures
        spec_scalar_mul(m, a, p, pow2(j), n) == (if doublings_defined(m, a, p, n) {
            Some(iterate_double(m, a, p, j))
        } else {
            None
        }),
{
    lemma_double_and_add_power_of_two(m, a, p, j, n);
}

/// Whichever two backends run double-and-add, where both reach a point it is the
/// same point. A sum and a double do not depend on the backend at all: they are
/// `spec_add` and `spec_double` wherever a backend returns them.
pub proof fn lemma_backends_agree<A: FieldBackend, B: FieldBackend>(
    m: nat,
    a: nat,
    acc: Option<SpecPoint>,
    temp: SpecPoint,
    k: nat,
    n: nat,
)
    requires
        double_and_add_with::<A>(m, a, acc, temp, k, n) is Some,
        double_and_add_with::<B>(m, a, acc, temp, k, n) is Some,
    ensures
        double_and_add_with::<A>(m, a, acc, temp, k, n) == double_and_add_with::<B>(
            m,
            a,
            acc,
            temp,
            k,
            n,
        ),
    decreases n,
{
    if n > 0 {
        let next = if k % 2 == 1 {
            match acc {
                None => Some(temp),
                Some(sum) => Some(spec_add(m, sum, temp)),
            }
        } else {
            acc
        };
        lemma_backends_agree::<A, B>(m, a, next, spec_double(m, a, temp), k / 2, (n - 1) as nat);
    }
}

/// Multiplying by an even scalar is doubling the point and multiplying by half the
/// scalar, over one digit less.
pub proof fn lemma_scalar_mul_even(m: nat, a: nat, p: SpecPoint, k: nat, n: nat)
    requires
        n > 0,
    ensures
        spec_scalar_mul(m, a, p, 2 * k, n) == (if double_defined(m, p) {
            spec_scalar_mul(m, a, spec_double(m, a, p), k, (n - 1) as nat)
        } else {
            None
        }),
{
    assert((2 * k) % 2 == 0 && (2 * k) / 2 == k);
}

/// Multiplying by zero is never defined: no digit sets the accumulator.
pub proof fn lemma_scalar_mul_zero(m: nat, a: nat, p: SpecPoint, n: nat)
    ensures
        spec_scalar_mul(m, a, p, 0, n) is None,
{
    lemma_double_and_add_zero(m, a, None, p, n);
}

/// Only the lowest `n` binary digits of the scalar count.
pub proof fn lemma_scalar_mul_truncates(m: nat, a: nat, p: SpecPoint, k: nat, n: nat)
    ensures
        spec_scalar_mul(m, a, p, k, n) == spec_scalar_mul(m, a, p, k % pow2(n), n),
{
    lemma_double_and_add_truncates(m, a, None, p, k, n);
}

#[verifier::rlimit(40)]
proof fn lemma_double_and_add_truncates(
    m: nat,
    a: nat,
    acc: Option<SpecPoint>,
    temp: SpecPoint,
    k: nat,
    n: nat,
)
    ensures
        double_and_add(m, a, acc, temp, k, n) == double_and_add(m, a, acc, temp, k % pow2(n), n),
    decreases n,
{
    if n > 0 {
        lemma_pow2_unfold(n);
        lemma_pow2_pos((n - 1) as nat);
        let h = pow2((n - 1) as nat);
        let r = k % pow2(n);
        assert(r == k % (2 * h));
        assert(r % 2 == k % 2 && r / 2 == (k / 2) % h) by {
            lemma_halve_remainder(k, h);
        }
        let next = if k % 2 == 1 {
            match acc {
                None => Some(temp),
                Some(sum) => Some(spec_add(m, sum, temp)),
            }
        } else {
            acc
        };
        let twice = spec_double(m, a, temp);
        lemma_double_and_add_truncates(m, a, next, twice, k / 2, (n - 1) as nat);
        if k % 2 == 1 && acc is Some && !add_defined(m, acc->0, temp) {
            assert(double_and_add(m, a, acc, temp, k, n) is None);
            assert(double_and_add(m, a, acc, temp, r, n) is None);
        } else if !double_defined(m, temp) {
            assert(double_and_add(m, a, acc, temp, k, n) is None);
            assert(double_and_add(m, a, acc, temp, r, n) is None);
        } else {
            assert(double_and_add(m, a, acc, temp, k, n) == double_and_add(
                m,
                a,
                next,
                twice,
                k / 2,
                (n - 1) as nat,
            ));
            assert(double_and_add(m, a, acc, temp, r, n) == double_and_add(
                m,
                a,
                next,
                twice,
                r / 2,
                (n - 1) as nat,
            ));
        }
    } else {
        lemma_pow2_pos(0);
    }
}

proof fn lemma_halve_remainder(k: nat, h: nat)
    requires
        h > 0,
    ensures
        (k % (2 * h)) % 2 == k % 2,
        (k % (2 * h)) / 2 == (k / 2) % h,
{
    let q = k / (2 * h);
    let r = k % (2 * h);
    assert(k == (2 * h) * q + r) by {
        vstd::arithmetic::div_mod::lemma_fundamental_div_mod(k as int, (2 * h) as int);
    }
    assert((2 * h) * q == 2 * (h * q)) by (nonlinear_arith);
    assert(k / 2 == h * q + r / 2);
    assert(r / 2 < h);
    vstd::arithmetic::div_mod::lemma_mod_multiples_vanish(q as int, (r / 2) as int, h as int);
    vstd::arithmetic::div_mod::lemma_small_mod(r / 2, h);
}

} // verus!
