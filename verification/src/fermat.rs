//! Fermat's little theorem: modulo a prime `p`, the power `p - 1` of a number that
//! `p` does not divide is 1, so the power `p - 2` is its inverse.
//!
//! The proof is the classic rearrangement: multiplying the residues `1, ..., p - 1`
//! by `a` only permutes them, so their product is both itself and itself times
//! `a^(p-1)`; the product is invertible and cancels.
use crate::modular::{
    has_inverse, is_inverse, is_prime, lemma_prime_has_inverses, lemma_product_has_inverse,
    mod_inverse,
};
use vstd::arithmetic::div_mod::{
    lemma_mod_bound, lemma_mul_mod_noop_general, lemma_mul_mod_noop_left,
    lemma_mul_mod_noop_right, lemma_small_mod,
};
use vstd::arithmetic::power::{lemma_pow0, lemma_pow1, lemma_pow_adds, pow};
use vstd::prelude::*;

verus! {

/// The product of the numbers of a sequence.
pub open spec fn product(s: Seq<int>) -> int
    decreases s.len(),
{
    if s.len() == 0 {
        1
    } else {
        product(s.drop_last()) * s.last()
    }
}

/// Any one factor can be taken out of a product.
proof fn lemma_product_remove(s: Seq<int>, j: int)
    requires
        0 <= j < s.len(),
    ensures
        product(s) == s[j] * product(s.remove(j)),
    decreases s.len(),
{
    let rest = s.drop_last();
    if j == s.len() - 1 {
        assert(s.remove(j) =~= rest);
        assert(product(rest) * s.last() == s.last() * product(rest)) by (nonlinear_arith);
    } else {
        lemma_product_remove(rest, j);
        let removed = s.remove(j);
        assert(removed.drop_last() =~= rest.remove(j));
        assert(removed.last() == s.last());
        assert(rest[j] == s[j]);
        let x = s[j];
        let y = product(rest.remove(j));
        let z = s.last();
        assert((x * y) * z == x * (y * z)) by (nonlinear_arith);
    }
}

/// Two sequences without repetitions that hold the same numbers have the same
/// product.
#[verifier::rlimit(40)]
proof fn lemma_product_rearranged(s: Seq<int>, t: Seq<int>)
    requires
        s.no_duplicates(),
        t.no_duplicates(),
        s.to_set() == t.to_set(),
    ensures
        product(s) == product(t),
    decreases s.len(),
{
    s.unique_seq_to_set();
    t.unique_seq_to_set();
    if s.len() == 0 {
        assert(t.len() == 0);
    } else {
        let x = s.last();
        assert(s.to_set().contains(x));
        assert(t.to_set().contains(x));
        let j = choose|j: int| 0 <= j < t.len() && t[j] == x;
        let rest = s.drop_last();
        let others = t.remove(j);
        t.remove_ensures(j);
        assert(others.no_duplicates());
        assert(rest.no_duplicates());
        assert(rest.to_set() =~= others.to_set()) by {
            assert forall|v: int| rest.to_set().contains(v) implies others.to_set().contains(
                v,
            ) by {
                let i = choose|i: int| 0 <= i < rest.len() && rest[i] == v;
                assert(s[i] == v && v != x);
                assert(t.to_set().contains(v));
                let k = choose|k: int| 0 <= k < t.len() && t[k] == v;
                if k < j {
                    assert(others[k] == v);
                } else {
                    assert(others[k - 1] == v);
                }
            }
            assert forall|v: int| others.to_set().contains(v) implies rest.to_set().contains(
                v,
            ) by {
                let k = choose|k: int| 0 <= k < others.len() && others[k] == v;
                let kt = if k < j {
                    k
                } else {
                    k + 1
                };
                assert(t[kt] == v && v != x);
                assert(s.to_set().contains(v));
                let i = choose|i: int| 0 <= i < s.len() && s[i] == v;
                assert(rest[i] == v);
            }
        }
        lemma_product_rearranged(rest, others);
        lemma_product_remove(t, j);
        assert(product(rest) * x == x * product(rest)) by (nonlinear_arith);
    }
}

/// The numbers `1, ..., n`.
pub open spec fn units(n: nat) -> Seq<int> {
    Seq::new(n, |i: int| i + 1)
}

/// The residues of `a * 1, ..., a * n` modulo `p`.
pub open spec fn multiples(a: int, p: int, n: nat) -> Seq<int> {
    Seq::new(n, |i: int| (a * (i + 1)) % p)
}

/// Multiplying by the inverse undoes multiplying by the number.
proof fn lemma_undo(a: nat, v: nat, p: nat, k: int)
    requires
        is_inverse(a, v, p),
        0 <= k < p,
    ensures
        (v * ((a * k) % (p as int))) % (p as int) == k,
{
    let pi = p as int;
    lemma_mul_mod_noop_right(v as int, a * k, pi);
    assert(v * (a * k) == (a * v) * k) by (nonlinear_arith);
    lemma_mul_mod_noop_left((a * v) as int, k, pi);
    assert(1 * k == k);
    lemma_small_mod(k as nat, p);
}

/// Modulo a prime, the multiples of an invertible number are the residues
/// `1, ..., p - 1` in another order, so the two have the same product.
#[verifier::rlimit(40)]
proof fn lemma_multiples_rearrange_units(a: nat, v: nat, p: nat)
    requires
        is_prime(p),
        is_inverse(a, v, p),
    ensures
        product(multiples(a as int, p as int, (p - 1) as nat)) == product(units((p - 1) as nat)),
{
    let pi = p as int;
    let n = (p - 1) as nat;
    let s = units(n);
    let t = multiples(a as int, pi, n);
    assert(s.no_duplicates());
    assert forall|i: int, j: int| 0 <= i < t.len() && 0 <= j < t.len() && i != j implies t[i]
        != t[j] by {
        lemma_undo(a, v, p, i + 1);
        lemma_undo(a, v, p, j + 1);
    }
    assert(t.no_duplicates());
    let range = vstd::set_lib::set_int_range(1, pi);
    vstd::set_lib::lemma_int_range(1, pi);
    assert(s.to_set() =~= range) by {
        assert forall|x: int| range.contains(x) implies s.to_set().contains(x) by {
            assert(s[x - 1] == x);
        }
    }
    assert(t.to_set().subset_of(range)) by {
        assert forall|x: int| t.to_set().contains(x) implies range.contains(x) by {
            let i = choose|i: int| 0 <= i < t.len() && t[i] == x;
            lemma_mod_bound(a * (i + 1), pi);
            lemma_undo(a, v, p, i + 1);
            if x == 0 {
                assert(v * 0 == 0);
                lemma_small_mod(0, p);
            }
        }
    }
    t.unique_seq_to_set();
    vstd::set_lib::lemma_set_subset_finite(range, t.to_set());
    vstd::set_lib::lemma_subset_equality(t.to_set(), range);
    lemma_product_rearranged(s, t);
    assert(product(s) == product(t));
}

/// The product of the residues of `a * 1, ..., a * n` is congruent to `a^n` times
/// the product of `1, ..., n`.
#[verifier::rlimit(40)]
proof fn lemma_product_of_multiples(a: int, p: int, n: nat)
    requires
        p > 0,
    ensures
        product(multiples(a, p, n)) % p == (pow(a, n) * product(units(n))) % p,
    decreases n,
{
    if n == 0 {
        lemma_pow0(a);
        assert(multiples(a, p, 0) =~= Seq::<int>::empty());
        assert(units(0) =~= Seq::<int>::empty());
        assert(product(multiples(a, p, 0)) == 1);
        assert(product(units(0)) == 1);
        assert(1 * 1 == 1);
    } else {
        let m = (n - 1) as nat;
        lemma_product_of_multiples(a, p, m);
        let t = multiples(a, p, n);
        let s = units(n);
        assert(t.drop_last() =~= multiples(a, p, m));
        assert(s.drop_last() =~= units(m));
        assert(t.last() == (a * n) % p);
        assert(s.last() == n);
        let tm = product(multiples(a, p, m));
        let sm = product(units(m));
        let am = pow(a, m);
        // product(t) = tm * ((a * n) % p), which is congruent to (am * sm) * (a * n)
        lemma_mul_mod_noop_general(tm, a * n, p);
        lemma_mul_mod_noop_general(am * sm, a * n, p);
        lemma_pow_adds(a, m, 1);
        lemma_pow1(a);
        assert(pow(a, n) == am * a);
        assert((am * sm) * (a * n) == (am * a) * (sm * n)) by (nonlinear_arith);
    }
}

/// The product of `1, ..., n` is positive, and modulo a prime above `n` it has an
/// inverse.
proof fn lemma_product_of_units(p: nat, n: nat)
    requires
        is_prime(p),
        n < p,
    ensures
        product(units(n)) >= 1,
        has_inverse(product(units(n)) as nat, p),
    decreases n,
{
    if n == 0 {
        assert(units(0) =~= Seq::<int>::empty());
        assert(product(units(0)) == 1);
        lemma_small_mod(1, p);
        lemma_prime_has_inverses(1, p);
    } else {
        let m = (n - 1) as nat;
        lemma_product_of_units(p, m);
        let s = units(n);
        assert(s.drop_last() =~= units(m));
        assert(s.last() == n);
        let f = product(units(m));
        lemma_small_mod(n, p);
        lemma_prime_has_inverses(n, p);
        lemma_product_has_inverse(f as nat, n, p);
        assert(f * n >= 1) by (nonlinear_arith)
            requires
                f >= 1,
                n >= 1,
        ;
    }
}

/// Fermat's little theorem: modulo a prime `p`, the power `p - 1` of a number that
/// `p` does not divide is 1.
#[verifier::rlimit(40)]
pub proof fn lemma_fermat(a: nat, p: nat)
    requires
        is_prime(p),
        a % p != 0,
    ensures
        pow(a as int, (p - 1) as nat) % (p as int) == 1,
{
    let pi = p as int;
    let n = (p - 1) as nat;
    lemma_prime_has_inverses(a, p);
    let v = mod_inverse(a, p);
    lemma_multiples_rearrange_units(a, v, p);
    lemma_product_of_multiples(a as int, pi, n);
    lemma_product_of_units(p, n);
    let f = product(units(n));
    let x = pow(a as int, n);
    // f is congruent to x * f, and f is invertible: x - 1 vanishes
    assert((x * f) % pi == f % pi);
    vstd::arithmetic::div_mod::lemma_mod_equivalence(x * f, f, pi);
    assert(x * f - f == f * (x - 1)) by (nonlinear_arith);
    let vf = mod_inverse(f as nat, p);
    lemma_mul_mod_noop_left(f, vf as int, pi);
    lemma_mod_bound(f, pi);
    crate::modular::lemma_cancel_invertible(p, f, vf, x - 1);
    vstd::arithmetic::div_mod::lemma_mod_equivalence(x, 1, pi);
    lemma_small_mod(1, p);
}

/// Modulo a prime `p`, the power `p - 2` of a number that `p` does not divide is its
/// inverse.
pub proof fn lemma_fermat_inverse(a: nat, p: nat)
    requires
        is_prime(p),
        a % p != 0,
    ensures
        is_inverse(a, (pow(a as int, (p - 2) as nat) % (p as int)) as nat, p),
{
    let pi = p as int;
    let e = (p - 2) as nat;
    lemma_fermat(a, p);
    lemma_pow_adds(a as int, e, 1);
    lemma_pow1(a as int);
    let y = pow(a as int, e);
    lemma_mod_bound(y, pi);
    lemma_mul_mod_noop_right(a as int, y, pi);
    assert(a * y == y * a) by (nonlinear_arith);
}

} // verus!
