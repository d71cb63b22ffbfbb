//! The group law stays on the curve: the sum of two points of a curve, and the
//! double of one, satisfy the equation of that curve.
//!
//! The proofs are algebra. The line of the chord rule meets the curve where its
//! defect vanishes; the defect at the third point is the defect at the first plus a
//! multiple of the defect of the slope, and both vanish modulo the modulus.
use crate::curve::{is_reduced, SpecPoint};
use crate::modular::{
    is_inverse, is_prime, lemma_cancel_invertible, lemma_multiple_vanishes, mod_inverse, mod_sub,
};
use crate::weierstrass::laws::{
    lemma_add_defined_over_prime, lemma_chord_slope, lemma_double_defined_over_prime,
    lemma_double_is_tangent_chord,
};
use crate::weierstrass::{
    add_defined, add_slope, double_and_add, double_defined, double_slope, neg_defined, on_curve,
    spec_add, spec_double, spec_neg, spec_scalar_mul,
};
use vstd::arithmetic::div_mod::{
    lemma_mod_bound, lemma_mod_equivalence, lemma_mod_twice, lemma_mul_mod_noop_general,
    lemma_small_mod,
};
use vstd::prelude::*;

verus! {

/// How far `(x, y)` is from satisfying `y^2 = x^3 + a*x + b`.
pub open spec fn curve_defect(a: int, b: int, x: int, y: int) -> int {
    y * y - (x * x * x + a * x + b)
}

/// How far the slope `s` is from the slope of the line that meets the curve at
/// `(x1, y1)` and at `x1 + d`, as the curve equation constrains it.
pub open spec fn slope_defect(a: int, x1: int, y1: int, d: int, s: int) -> int {
    2 * s * y1 + d * (s * s) - 3 * (x1 * x1) - 3 * d * x1 - d * d - a
}

proof fn lemma_square_of_sum(p: int, q: int)
    ensures
        (p + q) * (p + q) == p * p + 2 * (p * q) + q * q,
{
    assert((p + q) * (p + q) == p * p + 2 * (p * q) + q * q) by (nonlinear_arith);
}

#[verifier::rlimit(40)]
proof fn lemma_cube_of_sum(p: int, q: int)
    ensures
        (p + q) * (p + q) * (p + q) == p * p * p + 3 * ((p * p) * q) + 3 * (p * (q * q)) + q * q
            * q,
{
    let r = p + q;
    let rr = r * r;
    lemma_square_of_sum(p, q);
    assert(rr * r == rr * p + rr * q) by (nonlinear_arith)
        requires
            r == p + q,
    ;
    let pp = p * p;
    let pq = p * q;
    let qq = q * q;
    assert((pp + 2 * pq + qq) * p == pp * p + 2 * (pq * p) + qq * p) by (nonlinear_arith);
    assert((pp + 2 * pq + qq) * q == pp * q + 2 * (pq * q) + qq * q) by (nonlinear_arith);
    assert(pq * p == pp * q) by (nonlinear_arith)
        requires
            pq == p * q,
            pp == p * p,
    ;
    assert(pq * q == p * qq) by (nonlinear_arith)
        requires
            pq == p * q,
            qq == q * q,
    ;
    assert(qq * p == p * qq) by (nonlinear_arith);
}

/// The chord through `(x1, y1)` with slope `s` meets the curve again at
/// `x3 = s^2 - x1 - (x1 + d)`: the defect there is the defect at `(x1, y1)` plus a
/// multiple of the defect of the slope.
#[verifier::rlimit(40)]
proof fn lemma_chord_identity(a: int, b: int, x1: int, y1: int, d: int, s: int)
    ensures
        ({
            let x3 = s * s - x1 - (x1 + d);
            let y3 = s * (x1 - x3) - y1;
            curve_defect(a, b, x3, y3) == curve_defect(a, b, x1, y1) + (s * s - 3 * x1 - d)
                * slope_defect(a, x1, y1, d, s)
        }),
{
    let u = s * s;
    let bt = u - 3 * x1 - d;
    let x3 = s * s - x1 - (x1 + d);
    let y3 = s * (x1 - x3) - y1;
    let e = slope_defect(a, x1, y1, d, s);
    assert(x3 == x1 + bt);
    let sb = s * bt;
    let z = sb + y1;
    assert(y3 == -z) by (nonlinear_arith)
        requires
            y3 == s * (x1 - x3) - y1,
            x1 - x3 == -bt,
            z == s * bt + y1,
    ;
    assert(y3 * y3 == z * z) by (nonlinear_arith)
        requires
            y3 == -z,
    ;
    lemma_square_of_sum(sb, y1);
    let bb = bt * bt;
    assert(sb * sb == u * bb) by (nonlinear_arith)
        requires
            sb == s * bt,
            u == s * s,
            bb == bt * bt,
    ;
    lemma_cube_of_sum(x1, bt);
    assert(a * x3 == a * x1 + a * bt) by (nonlinear_arith)
        requires
            x3 == x1 + bt,
    ;
    let xx = x1 * x1;
    let bbb = bt * bt * bt;
    // the defect at the third point, with every product named
    assert(curve_defect(a, b, x3, y3) == curve_defect(a, b, x1, y1) + (u * bb + 2 * (sb * y1) - 3
        * (xx * bt) - 3 * (x1 * bb) - bbb - a * bt));
    // u - 3*x1 - bt == d, so bt * (u - 3*x1 - bt) == bt * d, and likewise for d
    assert(u * bb - 3 * (x1 * bb) - bbb == (bt * d) * bt) by (nonlinear_arith)
        requires
            bb == bt * bt,
            bbb == bt * bt * bt,
            u - 3 * x1 - bt == d,
    ;
    assert(bt * (d * u) - bt * (3 * d * x1) - bt * (d * d) == (bt * d) * bt) by (nonlinear_arith)
        requires
            u - 3 * x1 - d == bt,
    ;
    assert(bt * e == bt * (2 * s * y1) + bt * (d * u) - bt * (3 * xx) - bt * (3 * d * x1) - bt * (d
        * d) - bt * a) by (nonlinear_arith)
        requires
            e == 2 * s * y1 + d * u - 3 * xx - 3 * d * x1 - d * d - a,
    ;
    assert(bt * (2 * s * y1) == 2 * (sb * y1)) by (nonlinear_arith)
        requires
            sb == s * bt,
    ;
    assert(bt * (3 * xx) == 3 * (xx * bt)) by (nonlinear_arith);
    assert(bt * a == a * bt) by (nonlinear_arith);
}

/// Whether a point is on the curve is whether its defect vanishes modulo `m`.
proof fn lemma_on_curve_is_no_defect(m: nat, a: nat, b: nat, p: SpecPoint)
    requires
        m > 0,
    ensures
        on_curve(m, a, b, p) <==> curve_defect(a as int, b as int, p.x as int, p.y as int) % (
        m as int) == 0,
{
    lemma_mod_equivalence((p.y * p.y) as int, (p.x * p.x * p.x + a * p.x + b) as int, m as int);
}

/// The sum of two things that vanish modulo `m` vanishes modulo `m`.
proof fn lemma_sum_vanishes(j: int, k: int, m: int)
    requires
        m > 0,
        j % m == 0,
        k % m == 0,
    ensures
        (j + k) % m == 0,
        (j - k) % m == 0,
{
    vstd::arithmetic::div_mod::lemma_add_mod_noop(j, k, m);
    vstd::arithmetic::div_mod::lemma_sub_mod_noop(j, k, m);
    lemma_small_mod(0, m as nat);
}

/// Products of congruent factors are congruent.
proof fn lemma_products_congruent(x: int, y: int, u: int, v: int, m: int)
    requires
        m > 0,
        x % m == u % m,
        y % m == v % m,
    ensures
        (x * y) % m == (u * v) % m,
{
    lemma_mul_mod_noop_general(x, y, m);
    lemma_mul_mod_noop_general(u, v, m);
}

/// Congruent coordinates have congruent defects.
proof fn lemma_defect_congruent(a: int, b: int, x: int, y: int, u: int, v: int, m: int)
    requires
        m > 0,
        x % m == u % m,
        y % m == v % m,
    ensures
        curve_defect(a, b, x, y) % m == curve_defect(a, b, u, v) % m,
{
    lemma_products_congruent(y, y, v, v, m);
    lemma_products_congruent(x, x, u, u, m);
    lemma_products_congruent(x * x, x, u * u, u, m);
    lemma_products_congruent(a, x, a, u, m);
    lemma_mod_equivalence(y * y, v * v, m);
    lemma_mod_equivalence(x * x * x, u * u * u, m);
    lemma_mod_equivalence(a * x, a * u, m);
    let dy = y * y - v * v;
    let dx = x * x * x - u * u * u;
    let da = a * x - a * u;
    lemma_sum_vanishes(dx, da, m);
    lemma_sum_vanishes(dy, dx + da, m);
    assert(curve_defect(a, b, x, y) - curve_defect(a, b, u, v) == dy - (dx + da));
    lemma_mod_equivalence(curve_defect(a, b, x, y), curve_defect(a, b, u, v), m);
}

/// Where the line of slope `s` through a point of the curve has no slope defect, the
/// point that the chord rule gives is on the curve.
#[verifier::rlimit(40)]
proof fn lemma_chord_point_on_curve(
    m: nat,
    a: nat,
    b: nat,
    p: SpecPoint,
    q: SpecPoint,
    s: nat,
)
    requires
        m > 0,
        on_curve(m, a, b, p),
        slope_defect(a as int, p.x as int, p.y as int, q.x - p.x, s as int) % (m as int) == 0,
    ensures
        on_curve(m, a, b, crate::weierstrass::chord_point(m, s, p, q)),
{
    let mi = m as int;
    let (ai, bi) = (a as int, b as int);
    let (x1, y1) = (p.x as int, p.y as int);
    let d = q.x - p.x;
    let si = s as int;
    let e = slope_defect(ai, x1, y1, d, si);
    let c1 = curve_defect(ai, bi, x1, y1);
    lemma_on_curve_is_no_defect(m, a, b, p);
    // the third point before it is reduced
    let u = si * si - x1 - (x1 + d);
    let v = si * (x1 - u) - y1;
    lemma_chord_identity(ai, bi, x1, y1, d, si);
    lemma_multiple_vanishes(e, si * si - 3 * x1 - d, mi);
    lemma_sum_vanishes(c1, (si * si - 3 * x1 - d) * e, mi);
    assert(curve_defect(ai, bi, u, v) % mi == 0);
    // the third point as the chord rule gives it
    let r = crate::weierstrass::chord_point(m, s, p, q);
    let x3 = r.x as int;
    let y3 = r.y as int;
    assert(x3 == (s * s - p.x - q.x) % mi);
    assert(s * s - p.x - q.x == u);
    lemma_mod_bound(u, mi);
    lemma_mod_twice(u, mi);
    assert(x3 % mi == u % mi);
    let w = si * (x1 - x3) - y1;
    assert(y3 == w % mi);
    lemma_mod_bound(w, mi);
    lemma_mod_twice(w, mi);
    // w and v differ by a multiple of the difference of x3 and u
    lemma_mod_equivalence(u, x3, mi);
    lemma_multiple_vanishes(u - x3, si, mi);
    assert(w - v == si * (u - x3)) by (nonlinear_arith)
        requires
            w == si * (x1 - x3) - y1,
            v == si * (x1 - u) - y1,
    ;
    lemma_mod_equivalence(w, v, mi);
    assert(y3 % mi == v % mi);
    lemma_defect_congruent(ai, bi, x3, y3, u, v, mi);
    lemma_on_curve_is_no_defect(m, a, b, r);
}

/// The slope of the chord through two points of the curve has no slope defect.
#[verifier::rlimit(40)]
proof fn lemma_chord_slope_defect(m: nat, a: nat, b: nat, p: SpecPoint, q: SpecPoint)
    requires
        on_curve(m, a, b, p),
        on_curve(m, a, b, q),
        add_defined(m, p, q),
    ensures
        m > 0,
        slope_defect(a as int, p.x as int, p.y as int, q.x - p.x, add_slope(m, p, q) as int) % (
        m as int) == 0,
{
    let mi = m as int;
    let (ai, bi) = (a as int, b as int);
    let (x1, y1, x2, y2) = (p.x as int, p.y as int, q.x as int, q.y as int);
    let d = x2 - x1;
    let dy = y2 - y1;
    let inv = mod_inverse(mod_sub(q.x, p.x, m), m);
    assert(is_inverse(mod_sub(q.x, p.x, m), inv, m));
    let s = add_slope(m, p, q) as int;
    lemma_chord_slope(m, dy, d, inv, s as nat);
    lemma_on_curve_is_no_defect(m, a, b, p);
    lemma_on_curve_is_no_defect(m, a, b, q);
    let c1 = curve_defect(ai, bi, x1, y1);
    let c2 = curve_defect(ai, bi, x2, y2);
    // the second point, with the height that the line has there
    let h = y1 + s * d;
    lemma_mod_equivalence(s * d, dy, mi);
    assert(h - y2 == s * d - dy);
    lemma_mod_equivalence(h, y2, mi);
    lemma_defect_congruent(ai, bi, x2, h, x2, y2, mi);
    let c2h = curve_defect(ai, bi, x2, h);
    assert(c2h % mi == 0);
    // the difference of the two defects is the slope defect times d
    let e = slope_defect(ai, x1, y1, d, s);
    lemma_line_defects(ai, bi, x1, y1, d, s);
    assert(c2h - c1 == d * e);
    lemma_sum_vanishes(c2h, c1, mi);
    lemma_cancel_invertible(m, d, inv, e);
}

/// Along the line of slope `s` through `(x1, y1)`, the defect at `x1 + d` exceeds
/// the defect at `x1` by `d` times the slope defect.
#[verifier::rlimit(40)]
proof fn lemma_line_defects(a: int, b: int, x1: int, y1: int, d: int, s: int)
    ensures
        curve_defect(a, b, x1 + d, y1 + s * d) - curve_defect(a, b, x1, y1) == d * slope_defect(
            a,
            x1,
            y1,
            d,
            s,
        ),
{
    let sd = s * d;
    let e = slope_defect(a, x1, y1, d, s);
    lemma_square_of_sum(y1, sd);
    lemma_cube_of_sum(x1, d);
    let u = s * s;
    let xx = x1 * x1;
    let dd = d * d;
    assert(sd * sd == d * (d * u)) by (nonlinear_arith)
        requires
            sd == s * d,
            u == s * s,
    ;
    assert(y1 * sd == d * (s * y1)) by (nonlinear_arith)
        requires
            sd == s * d,
    ;
    assert(xx * d == d * xx) by (nonlinear_arith);
    assert(x1 * dd == d * (d * x1)) by (nonlinear_arith)
        requires
            dd == d * d,
    ;
    assert(d * d * d == d * dd) by (nonlinear_arith)
        requires
            dd == d * d,
    ;
    assert(a * (x1 + d) == a * x1 + d * a) by (nonlinear_arith);
    assert(d * e == 2 * (d * (s * y1)) + d * (d * u) - 3 * (d * xx) - 3 * (d * (d * x1)) - d * dd
        - d * a) by (nonlinear_arith)
        requires
            e == 2 * s * y1 + d * u - 3 * xx - 3 * d * x1 - dd - a,
    ;
}

/// The sum of two points of a curve is a point of the curve.
pub proof fn lemma_add_stays_on_curve(m: nat, a: nat, b: nat, p: SpecPoint, q: SpecPoint)
    requires
        on_curve(m, a, b, p),
        on_curve(m, a, b, q),
        add_defined(m, p, q),
    ensures
        on_curve(m, a, b, spec_add(m, p, q)),
{
    lemma_chord_slope_defect(m, a, b, p, q);
    lemma_chord_point_on_curve(m, a, b, p, q, add_slope(m, p, q));
}

/// The double of a point of a curve is a point of the curve.
pub proof fn lemma_double_stays_on_curve(m: nat, a: nat, b: nat, p: SpecPoint)
    requires
        on_curve(m, a, b, p),
        double_defined(m, p),
    ensures
        on_curve(m, a, b, spec_double(m, a, p)),
{
    let mi = m as int;
    let s = double_slope(m, a, p);
    lemma_double_is_tangent_chord(m, a, p);
    assert(m > 0) by {
        let inv = mod_inverse((2 * p.y) % m, m);
        assert(is_inverse((2 * p.y) % m, inv, m));
    }
    lemma_mod_equivalence((2 * p.y * s) as int, (3 * p.x * p.x + a) as int, mi);
    let e = slope_defect(a as int, p.x as int, p.y as int, 0, s as int);
    assert(e == 2 * p.y * s - (3 * p.x * p.x + a)) by (nonlinear_arith)
        requires
            e == 2 * s * p.y + 0 * (s * s) - 3 * (p.x * p.x) - 3 * 0 * p.x - 0 * 0 - a,
    ;
    lemma_chord_point_on_curve(m, a, b, p, p, s);
}

/// A double plus the negative of the point gives the point back: doubling yields the
/// point that the addition law assigns to the point added to itself.
#[verifier::rlimit(60)]
pub proof fn lemma_double_plus_negative(m: nat, a: nat, p: SpecPoint)
    requires
        is_reduced(m, p),
        double_defined(m, p),
        add_defined(m, spec_double(m, a, p), spec_neg(m, p)),
    ensures
        spec_add(m, spec_double(m, a, p), spec_neg(m, p)) == p,
{
    let mi = m as int;
    let (x1, y1) = (p.x as int, p.y as int);
    let s = double_slope(m, a, p) as int;
    let twice = spec_double(m, a, p);
    let minus = spec_neg(m, p);
    let (x3, y3) = (twice.x as int, twice.y as int);
    assert(x3 == (s * s - x1 - x1) % mi);
    assert(y3 == (s * (x1 - x3) - y1) % mi);
    assert(minus.x == x1 && minus.y == mi - y1);
    let d = x1 - x3;
    let dy = mi - y1 - y3;
    let inv = mod_inverse(mod_sub(minus.x, twice.x, m), m);
    assert(is_inverse(mod_sub(minus.x, twice.x, m), inv, m));
    let t = add_slope(m, twice, minus) as int;
    lemma_chord_slope(m, dy, d, inv, t as nat);
    // the slope of the chord is the negative of the slope of the tangent
    let sd = s * d;
    let td = t * d;
    lemma_mod_bound(sd - y1, mi);
    lemma_mod_twice(sd - y1, mi);
    lemma_mod_equivalence(y3, sd - y1, mi);
    lemma_mod_equivalence(td, dy, mi);
    vstd::arithmetic::div_mod::lemma_mod_multiples_vanish(1, 0, mi);
    assert((mi * 1 + 0) % mi == 0);
    lemma_sum_vanishes(td - dy, y3 - (sd - y1), mi);
    assert((td - dy) - (y3 - (sd - y1)) == td + sd - mi);
    lemma_sum_vanishes(td + sd - mi, mi, mi);
    assert(d * (t + s) == td + sd) by (nonlinear_arith)
        requires
            td == t * d,
            sd == s * d,
    ;
    lemma_cancel_invertible(m, d, inv, t + s);
    lemma_mod_equivalence(t, -s, mi);
    lemma_products_congruent(t, t, -s, -s, mi);
    assert((-s) * (-s) == s * s) by (nonlinear_arith);
    // the x coordinate
    let xs = t * t - x3 - x1;
    lemma_mod_equivalence(t * t, s * s, mi);
    lemma_mod_bound(s * s - x1 - x1, mi);
    lemma_mod_twice(s * s - x1 - x1, mi);
    lemma_mod_equivalence(x3, s * s - x1 - x1, mi);
    lemma_sum_vanishes(t * t - s * s, x3 - (s * s - x1 - x1), mi);
    assert(xs - x1 == (t * t - s * s) - (x3 - (s * s - x1 - x1)));
    lemma_mod_equivalence(xs, x1, mi);
    lemma_small_mod(p.x, m);
    let sum = spec_add(m, twice, minus);
    assert(sum.x == xs % mi);
    assert(sum.x == p.x);
    // the y coordinate
    let ys = t * (x3 - x1) - y3;
    assert(ys - y1 == -(td - dy) - mi) by (nonlinear_arith)
        requires
            ys == t * (x3 - x1) - y3,
            td == t * (x1 - x3),
            dy == mi - y1 - y3,
    ;
    lemma_sum_vanishes(0, td - dy, mi);
    lemma_sum_vanishes(0 - (td - dy), mi, mi);
    lemma_mod_equivalence(ys, y1, mi);
    lemma_small_mod(p.y, m);
    assert(sum.y == ys % mi);
}

/// Over a field of odd prime order: where a reduced point has `y` other than zero,
/// and its double another `x` than the point, the double plus the negative of the
/// point is the point.
pub proof fn lemma_double_plus_negative_over_prime(m: nat, a: nat, p: SpecPoint)
    requires
        is_prime(m),
        m > 2,
        is_reduced(m, p),
        p.y != 0,
        spec_double(m, a, p).x != p.x,
    ensures
        double_defined(m, p),
        add_defined(m, spec_double(m, a, p), spec_neg(m, p)),
        spec_add(m, spec_double(m, a, p), spec_neg(m, p)) == p,
{
    let mi = m as int;
    lemma_double_defined_over_prime(m, p);
    let twice = spec_double(m, a, p);
    let minus = spec_neg(m, p);
    let s = double_slope(m, a, p);
    lemma_mod_bound(s * s - p.x - p.x, mi);
    lemma_mod_bound(s * (p.x - twice.x) - p.y, mi);
    lemma_add_defined_over_prime(m, twice, minus);
    lemma_double_plus_negative(m, a, p);
}

/// The negative of a point of a curve is a point of the curve.
pub proof fn lemma_neg_stays_on_curve(m: nat, a: nat, b: nat, p: SpecPoint)
    requires
        m > 0,
        on_curve(m, a, b, p),
        neg_defined(m, p),
    ensures
        on_curve(m, a, b, spec_neg(m, p)),
{
    let mi = m as int;
    let r = spec_neg(m, p);
    lemma_on_curve_is_no_defect(m, a, b, p);
    lemma_on_curve_is_no_defect(m, a, b, r);
    vstd::arithmetic::div_mod::lemma_mod_multiples_vanish(-1, r.y as int, mi);
    vstd::arithmetic::div_mod::lemma_mod_multiples_vanish(0, -(p.y as int), mi);
    assert(mi * (-1) + r.y == -(p.y as int));
    lemma_products_congruent(r.y as int, r.y as int, -(p.y as int), -(p.y as int), mi);
    assert((-(p.y as int)) * (-(p.y as int)) == p.y * p.y) by (nonlinear_arith);
    lemma_mod_equivalence((r.y * r.y) as int, (p.y * p.y) as int, mi);
    assert(curve_defect(a as int, b as int, r.x as int, r.y as int) - curve_defect(
        a as int,
        b as int,
        p.x as int,
        p.y as int,
    ) == r.y * r.y - p.y * p.y);
    lemma_mod_equivalence(
        curve_defect(a as int, b as int, r.x as int, r.y as int),
        curve_defect(a as int, b as int, p.x as int, p.y as int),
        mi,
    );
}

/// Double-and-add that starts from points of a curve ends on a point of the curve.
pub proof fn lemma_double_and_add_stays_on_curve(
    m: nat,
    a: nat,
    b: nat,
    acc: Option<SpecPoint>,
    temp: SpecPoint,
    k: nat,
    n: nat,
)
    requires
        on_curve(m, a, b, temp),
        acc matches Some(r) ==> on_curve(m, a, b, r),
        double_and_add(m, a, acc, temp, k, n) is Some,
    ensures
        on_curve(m, a, b, double_and_add(m, a, acc, temp, k, n)->0),
    decreases n,
{
    if n > 0 {
        let next = if k % 2 == 1 {
            match acc {
                None => Some(temp),
                Some(r) => Some(spec_add(m, r, temp)),
            }
        } else {
            acc
        };
        if k % 2 == 1 && acc is Some {
            lemma_add_stays_on_curve(m, a, b, acc->0, temp);
        }
        lemma_double_stays_on_curve(m, a, b, temp);
        lemma_double_and_add_stays_on_curve(
            m,
            a,
            b,
            next,
            spec_double(m, a, temp),
            k / 2,
            (n - 1) as nat,
        );
    }
}

/// A scalar multiple of a point of a curve is a point of the curve.
pub proof fn lemma_scalar_mul_stays_on_curve(
    m: nat,
    a: nat,
    b: nat,
    p: SpecPoint,
    k: nat,
    n: nat,
)
    requires
        on_curve(m, a, b, p),
        spec_scalar_mul(m, a, p, k, n) is Some,
    ensures
        on_curve(m, a, b, spec_scalar_mul(m, a, p, k, n)->0),
{
    lemma_double_and_add_stays_on_curve(m, a, b, None, p, k, n);
}

} // verus!
