//! Arbitrary-precision natural numbers held as little-endian base-256 digits.
//!
//! A [`BigNat`] is a plain value: a vector of bytes without a trailing zero, so that
//! two values are equal exactly when their digit vectors are. Its view is the number
//! the digits stand for. This module stores, compares and takes numbers apart;
//! modular arithmetic on them is done by the numeric backends, and the one
//! subtraction that the group law makes outside a field is done by `num`.
use num::BigUint;
use vstd::prelude::*;

verus! {

/// `256^n`.
pub open spec fn pow256(n: nat) -> nat
    decreases n,
{
    if n == 0 {
        1
    } else {
        256 * pow256((n - 1) as nat)
    }
}

/// The number that a little-endian byte string stands for: the sum of `s[i] * 256^i`.
pub open spec fn le_value(s: Seq<u8>) -> nat
    decreases s.len(),
{
    if s.len() == 0 {
        0
    } else {
        s[0] as nat + 256 * le_value(s.drop_first())
    }
}

/// A digit string is canonical when it has no trailing zero digit.
pub open spec fn is_canonical(s: Seq<u8>) -> bool {
    s.len() == 0 || s.last() != 0
}

/// The binary digit of weight `2^i` in `n`.
pub open spec fn bit_at(n: nat, i: nat) -> bool
    decreases i,
{
    if i == 0 {
        n % 2 == 1
    } else {
        bit_at(n / 2, (i - 1) as nat)
    }
}

/// A power of 256 is not zero.
pub proof fn lemma_pow256_positive(n: nat)
    ensures
        pow256(n) > 0,
    decreases n,
{
    if n > 0 {
        lemma_pow256_positive((n - 1) as nat);
    }
}

/// The powers of 256 grow with the exponent.
pub proof fn lemma_pow256_monotonic(a: nat, b: nat)
    requires
        a <= b,
    ensures
        pow256(a) <= pow256(b),
    decreases b,
{
    if a < b {
        lemma_pow256_monotonic(a, (b - 1) as nat);
        lemma_pow256_positive((b - 1) as nat);
    }
}

/// Appending a digit adds that digit at the next weight.
pub proof fn lemma_le_value_push(s: Seq<u8>, b: u8)
    ensures
        le_value(s.push(b)) == le_value(s) + b as nat * pow256(s.len()),
    decreases s.len(),
{
    let t = s.push(b);
    if s.len() == 0 {
        assert(t.drop_first() =~= Seq::<u8>::empty());
        assert(le_value(t.drop_first()) == 0);
        assert(t[0] == b);
        assert(le_value(t) == b as nat);
        assert(pow256(0) == 1);
        assert(b as nat * 1 == b as nat);
    } else {
        let rest = s.drop_first();
        assert(t.drop_first() =~= rest.push(b));
        lemma_le_value_push(rest, b);
        let w = pow256(rest.len());
        assert(pow256(s.len()) == 256 * w);
        assert(t[0] == s[0]);
        assert(le_value(t) == s[0] as nat + 256 * le_value(rest.push(b)));
        assert(256 * (b as nat * w) == b as nat * (256 * w)) by (nonlinear_arith);
    }
}

/// A string of `n` digits stands for a number below `256^n`.
pub proof fn lemma_le_value_bound(s: Seq<u8>)
    ensures
        le_value(s) < pow256(s.len()),
    decreases s.len(),
{
    if s.len() > 0 {
        lemma_le_value_bound(s.drop_first());
    }
}

/// A canonical string that is not empty stands for at least `256^(n-1)`.
pub proof fn lemma_canonical_lower_bound(s: Seq<u8>)
    requires
        s.len() > 0,
        s.last() != 0,
    ensures
        le_value(s) >= pow256((s.len() - 1) as nat),
    decreases s.len(),
{
    if s.len() > 1 {
        let rest = s.drop_first();
        assert(rest.last() == s.last());
        lemma_canonical_lower_bound(rest);
    } else {
        assert(s[0] == s.last());
    }
}

/// A number below `256^k` is written in at most `k` bytes (`k` at least 1).
pub proof fn lemma_written_length(s: Seq<u8>, k: nat)
    requires
        k >= 1,
        is_canonical(s) || s == seq![0u8],
        le_value(s) < pow256(k),
    ensures
        s.len() <= k,
{
    if s.len() > k {
        assert(s.last() != 0) by {
            if s == seq![0u8] {
                assert(s.len() == 1);
            }
        }
        lemma_canonical_lower_bound(s);
        lemma_pow256_monotonic(k, (s.len() - 1) as nat);
    }
}

/// Two canonical strings that stand for the same number are the same string.
pub proof fn lemma_canonical_injective(s: Seq<u8>, t: Seq<u8>)
    requires
        is_canonical(s),
        is_canonical(t),
        le_value(s) == le_value(t),
    ensures
        s == t,
    decreases s.len(),
{
    if s.len() == 0 {
        if t.len() > 0 {
            lemma_canonical_lower_bound(t);
            lemma_pow256_positive((t.len() - 1) as nat);
        }
        assert(s =~= t);
    } else if t.len() == 0 {
        lemma_canonical_lower_bound(s);
        lemma_pow256_positive((s.len() - 1) as nat);
    } else {
        let s1 = s.drop_first();
        let t1 = t.drop_first();
        assert(s1.len() > 0 ==> s1.last() == s.last());
        assert(t1.len() > 0 ==> t1.last() == t.last());
        assert(s[0] == t[0] && le_value(s1) == le_value(t1));
        lemma_canonical_injective(s1, t1);
        assert(s =~= seq![s[0]] + s1);
        assert(t =~= seq![t[0]] + t1);
    }
}

/// A number read from a string is its low `k` digits plus `256^k` times the rest.
pub proof fn lemma_le_value_split(s: Seq<u8>, k: int)
    requires
        0 <= k <= s.len(),
    ensures
        le_value(s) == le_value(s.take(k)) + pow256(k as nat) * le_value(s.skip(k)),
    decreases k,
{
    if k == 0 {
        assert(s.take(0) =~= Seq::<u8>::empty());
        assert(s.skip(0) =~= s);
        assert(pow256(0) == 1);
        assert(1 * le_value(s) == le_value(s));
    } else {
        let rest = s.drop_first();
        lemma_le_value_split(rest, k - 1);
        assert(s.take(k).drop_first() =~= rest.take(k - 1));
        assert(rest.skip(k - 1) =~= s.skip(k));
        assert(s.take(k)[0] == s[0]);
        let w = pow256((k - 1) as nat);
        let h = le_value(s.skip(k));
        assert(pow256(k as nat) == 256 * w);
        assert(le_value(s.take(k)) == s[0] as nat + 256 * le_value(rest.take(k - 1)));
        assert(256 * (w * h) == (256 * w) * h) by (nonlinear_arith);
    }
}

/// The `len` lowest base-256 digits of `n`, least first.
pub open spec fn le_bytes(n: nat, len: nat) -> Seq<u8>
    decreases len,
{
    if len == 0 {
        Seq::empty()
    } else {
        seq![(n % 256) as u8] + le_bytes(n / 256, (len - 1) as nat)
    }
}

/// The `len` lowest digits of `n` stand for `n` modulo `256^len`.
pub proof fn lemma_le_bytes(n: nat, len: nat)
    ensures
        le_bytes(n, len).len() == len,
        le_value(le_bytes(n, len)) == n % pow256(len),
    decreases len,
{
    if len > 0 {
        let h = pow256((len - 1) as nat);
        lemma_le_bytes(n / 256, (len - 1) as nat);
        lemma_pow256_positive((len - 1) as nat);
        let s = le_bytes(n, len);
        assert(s.drop_first() =~= le_bytes(n / 256, (len - 1) as nat));
        assert(s[0] == (n % 256) as u8);
        vstd::arithmetic::div_mod::lemma_mod_breakdown(n as int, 256, h as int);
    } else {
        assert(pow256(0) == 1);
    }
}

/// The eight little-endian bytes of a 64-bit word.
pub open spec fn word_le(w: u64) -> Seq<u8> {
    le_bytes(w as nat, 8)
}

/// The little-endian bytes of a number given as 64-bit words, least first.
pub open spec fn words_le(ws: Seq<u64>) -> Seq<u8>
    decreases ws.len(),
{
    if ws.len() == 0 {
        Seq::empty()
    } else {
        word_le(ws[0]) + words_le(ws.drop_first())
    }
}

/// The number that 64-bit words stand for, least first: the sum of `ws[i] * 2^(64*i)`.
pub open spec fn words_nat(ws: Seq<u64>) -> nat
    decreases ws.len(),
{
    if ws.len() == 0 {
        0
    } else {
        ws[0] as nat + 0x1_0000_0000_0000_0000 * words_nat(ws.drop_first())
    }
}

proof fn lemma_word_le_value(w: u64)
    ensures
        word_le(w).len() == 8,
        le_value(word_le(w)) == w,
{
    lemma_le_bytes(w as nat, 8);
    assert(pow256(8) == 0x1_0000_0000_0000_0000) by {
        reveal_with_fuel(pow256, 9);
    }
}

/// The bytes of words stand for the number that the words stand for.
pub proof fn lemma_words_le_value(ws: Seq<u64>)
    ensures
        words_le(ws).len() == 8 * ws.len(),
        le_value(words_le(ws)) == words_nat(ws),
    decreases ws.len(),
{
    if ws.len() > 0 {
        let rest = words_le(ws.drop_first());
        let s = words_le(ws);
        lemma_words_le_value(ws.drop_first());
        lemma_word_le_value(ws[0]);
        lemma_le_value_split(s, 8);
        assert(s.take(8) =~= word_le(ws[0]));
        assert(s.skip(8) =~= rest);
        assert(pow256(8) == 0x1_0000_0000_0000_0000) by {
            reveal_with_fuel(pow256, 9);
        }
    }
}

/// Appends the eight little-endian bytes of a word.
fn push_word_le(r: &mut Vec<u8>, w: u64)
    ensures
        final(r)@ == old(r)@ + word_le(w),
{
    let mut rest: u64 = w;
    let mut j: usize = 0;
    assert(r@ + le_bytes(rest as nat, 8) =~= old(r)@ + word_le(w));
    while j < 8
        invariant
            j <= 8,
            r@ + le_bytes(rest as nat, (8 - j) as nat) == old(r)@ + word_le(w),
        decreases 8 - j,
    {
        let ghost before = r@;
        let d: u8 = (rest % 256) as u8;
        r.push(d);
        proof {
            let tail = le_bytes((rest / 256) as nat, (8 - j - 1) as nat);
            assert(le_bytes(rest as nat, (8 - j) as nat) == seq![d] + tail);
            assert(before.push(d) + tail =~= before + (seq![d] + tail));
        }
        rest = rest / 256;
        j += 1;
    }
    assert(le_bytes(rest as nat, 0) =~= Seq::<u8>::empty());
    assert(r@ + Seq::<u8>::empty() =~= r@);
}

/// The little-endian bytes of a number given as 64-bit words, least first.
pub fn bytes_of_words(ws: &[u64]) -> (r: Vec<u8>)
    ensures
        r@ == words_le(ws@),
{
    let mut r: Vec<u8> = Vec::new();
    let mut k: usize = 0;
    assert(ws@.take(0) =~= Seq::<u64>::empty());
    assert(words_le(Seq::<u64>::empty()) =~= Seq::<u8>::empty());
    while k < ws.len()
        invariant
            k <= ws.len(),
            r@ == words_le(ws@.take(k as int)),
        decreases ws.len() - k,
    {
        let w: u64 = ws[k];
        push_word_le(&mut r, w);
        proof {
            lemma_words_le_push(ws@.take(k as int), w);
            assert(ws@.take(k + 1) =~= ws@.take(k as int).push(w));
        }
        k += 1;
    }
    assert(ws@.take(k as int) =~= ws@);
    r
}

/// The bytes of one more word come after the bytes of the words before it.
proof fn lemma_words_le_push(ws: Seq<u64>, w: u64)
    ensures
        words_le(ws.push(w)) == words_le(ws) + word_le(w),
    decreases ws.len(),
{
    let t = ws.push(w);
    if ws.len() == 0 {
        assert(t.drop_first() =~= Seq::<u64>::empty());
        assert(words_le(Seq::<u64>::empty()) =~= Seq::<u8>::empty());
        assert(t[0] == w);
        assert(words_le(t) =~= word_le(w) + Seq::<u8>::empty());
        assert(words_le(ws) =~= Seq::<u8>::empty());
        assert(words_le(ws) + word_le(w) =~= word_le(w));
        assert(word_le(w) + Seq::<u8>::empty() =~= word_le(w));
    } else {
        assert(t.drop_first() =~= ws.drop_first().push(w));
        assert(t[0] == ws[0]);
        lemma_words_le_push(ws.drop_first(), w);
        assert(words_le(t) =~= word_le(ws[0]) + (words_le(ws.drop_first()) + word_le(w)));
        assert(words_le(t) =~= words_le(ws) + word_le(w));
    }
}

/// The low eight binary digits of a number are those of its lowest base-256 digit;
/// the others are the binary digits of the remaining base-256 digits.
pub proof fn lemma_bit_at_le_value(s: Seq<u8>, i: nat)
    ensures
        bit_at(le_value(s), i) == (if i / 8 < s.len() {
            bit_at(s[(i / 8) as int] as nat, i % 8)
        } else {
            false
        }),
    decreases i,
{
    if s.len() == 0 {
        lemma_bit_at_zero(i);
    } else if i < 8 {
        lemma_bit_at_low(s[0] as nat, le_value(s.drop_first()), i);
    } else {
        let n = le_value(s);
        let r = le_value(s.drop_first());
        lemma_bit_at_shift8(n, i);
        assert(n / 256 == r);
        lemma_bit_at_le_value(s.drop_first(), (i - 8) as nat);
        assert((i - 8) / 8 == i / 8 - 1);
        assert((i - 8) % 8 == i % 8);
    }
}

proof fn lemma_bit_at_zero(i: nat)
    ensures
        !bit_at(0, i),
    decreases i,
{
    if i > 0 {
        lemma_bit_at_zero((i - 1) as nat);
    }
}

proof fn lemma_bit_at_shift8(n: nat, i: nat)
    requires
        i >= 8,
    ensures
        bit_at(n, i) == bit_at(n / 256, (i - 8) as nat),
{
    reveal_with_fuel(bit_at, 9);
    assert(n / 2 / 2 / 2 / 2 / 2 / 2 / 2 / 2 == n / 256);
}

proof fn lemma_bit_at_low(d: nat, r: nat, i: nat)
    requires
        d < 256,
        i < 8,
    ensures
        bit_at(d + 256 * r, i) == bit_at(d, i),
{
    reveal_with_fuel(bit_at, 9);
    let n = d + 256 * r;
    assert(n / 2 == d / 2 + 128 * r);
    assert(n / 2 / 2 == d / 2 / 2 + 64 * r);
    assert(n / 2 / 2 / 2 == d / 2 / 2 / 2 + 32 * r);
    assert(n / 2 / 2 / 2 / 2 == d / 2 / 2 / 2 / 2 + 16 * r);
    assert(n / 2 / 2 / 2 / 2 / 2 == d / 2 / 2 / 2 / 2 / 2 + 8 * r);
    assert(n / 2 / 2 / 2 / 2 / 2 / 2 == d / 2 / 2 / 2 / 2 / 2 / 2 + 4 * r);
    assert(n / 2 / 2 / 2 / 2 / 2 / 2 / 2 == d / 2 / 2 / 2 / 2 / 2 / 2 / 2 + 2 * r);
}

/// The binary digit `j` of a byte, read with a shift and a mask.
proof fn lemma_bit_at_byte(d: u8, j: u32)
    requires
        j < 8,
    ensures
        bit_at(d as nat, j as nat) == ((d >> j) & 1u8 == 1u8),
{
    reveal_with_fuel(bit_at, 9);
    let n = d as nat;
    assert(((d >> j) & 1u8 == 1u8) == (if j == 0 {
        d % 2 == 1
    } else if j == 1 {
        (d / 2) % 2 == 1
    } else if j == 2 {
        (d / 4) % 2 == 1
    } else if j == 3 {
        (d / 8) % 2 == 1
    } else if j == 4 {
        (d / 16) % 2 == 1
    } else if j == 5 {
        (d / 32) % 2 == 1
    } else if j == 6 {
        (d / 64) % 2 == 1
    } else {
        (d / 128) % 2 == 1
    })) by (bit_vector)
        requires
            j < 8,
    ;
    assert(n / 2 / 2 == n / 4);
    assert(n / 4 / 2 == n / 8);
    assert(n / 8 / 2 == n / 16);
    assert(n / 16 / 2 == n / 32);
    assert(n / 32 / 2 == n / 64);
    assert(n / 64 / 2 == n / 128);
}

/// The binary digits of `n` from weight `2^i` on, as a number: `n` halved `i` times.
pub open spec fn halved(n: nat, i: nat) -> nat
    decreases i,
{
    if i == 0 {
        n
    } else {
        halved(n / 2, (i - 1) as nat)
    }
}

/// Halving once more drops the lowest remaining binary digit, which is `bit_at`.
pub proof fn lemma_halved_step(n: nat, i: nat)
    ensures
        halved(n, i + 1) == halved(n, i) / 2,
        bit_at(n, i) == (halved(n, i) % 2 == 1),
    decreases i,
{
    if i > 0 {
        lemma_halved_step(n / 2, (i - 1) as nat);
    } else {
        assert(halved(n, 1) == halved(n / 2, 0));
    }
}

/// `BigUint`'s `-`, on numbers given and returned as little-endian bytes: the
/// difference, where the second is not the larger.
#[verifier::external_body]
fn biguint_sub(a: &[u8], b: &[u8]) -> (r: Vec<u8>)
    requires
        le_value(b@) <= le_value(a@),
    ensures
        le_value(r@) == le_value(a@) - le_value(b@),
{
    (BigUint::from_bytes_le(a) - BigUint::from_bytes_le(b)).to_bytes_le()
}

/// An arbitrary-precision natural number.
#[derive(Debug, PartialEq, Eq)]
pub struct BigNat {
    digits: Vec<u8>,
}

impl View for BigNat {
    type V = nat;

    closed spec fn view(&self) -> nat {
        le_value(self.digits@)
    }
}

impl Clone for BigNat {
    fn clone(&self) -> (r: Self)
        ensures
            r@ == self@,
    {
        proof {
            use_type_invariant(self);
        }
        let digits = self.digits.clone();
        assert(digits@ =~= self.digits@);
        BigNat { digits }
    }
}

impl BigNat {
    #[verifier::type_invariant]
    spec fn canonical(self) -> bool {
        is_canonical(self.digits@)
    }

    /// The canonical digits of the number: `le_value(self.digits()) == self@`.
    pub closed spec fn digits(&self) -> Seq<u8> {
        self.digits@
    }

    /// Zero.
    pub fn zero() -> (r: BigNat)
        ensures
            r@ == 0,
    {
        BigNat { digits: Vec::new() }
    }

    /// The number that `bytes` stands for, read as little-endian base-256 digits:
    /// the sum of `bytes[i] * 256^i`.
    pub fn from_bytes_le(bytes: &[u8]) -> (r: BigNat)
        ensures
            r@ == le_value(bytes@),
    {
        let mut len: usize = bytes.len();
        assert(bytes@.take(len as int) =~= bytes@);
        while len > 0 && bytes[len - 1] == 0
            invariant
                len <= bytes.len(),
                le_value(bytes@.take(len as int)) == le_value(bytes@),
            decreases len,
        {
            proof {
                let shorter = bytes@.take(len - 1);
                assert(bytes@.take(len as int) =~= shorter.push(0u8));
                lemma_le_value_push(shorter, 0u8);
            }
            len -= 1;
        }
        let mut digits: Vec<u8> = Vec::new();
        let mut i: usize = 0;
        while i < len
            invariant
                i <= len <= bytes.len(),
                digits@ == bytes@.take(i as int),
            decreases len - i,
        {
            digits.push(bytes[i]);
            assert(digits@ =~= bytes@.take(i + 1));
            i += 1;
        }
        BigNat { digits }
    }

    /// The number `v`.
    pub fn from_u64(v: u64) -> (r: BigNat)
        ensures
            r@ == v,
    {
        let mut digits: Vec<u8> = Vec::new();
        let mut rest: u64 = v;
        proof {
            assert(pow256(0) == 1);
            assert(rest as nat * 1 == rest as nat);
        }
        while rest > 0
            invariant
                le_value(digits@) + rest as nat * pow256(digits.len() as nat) == v,
                is_canonical(digits@) || rest > 0,
                rest == 0 ==> is_canonical(digits@),
            decreases rest,
        {
            let d: u8 = (rest % 256) as u8;
            proof {
                lemma_le_value_push(digits@, d);
                let w = pow256(digits.len() as nat);
                let q = (rest / 256) as nat;
                assert(rest as nat == d as nat + 256 * q);
                assert(rest as nat * w == d as nat * w + q * (256 * w)) by (nonlinear_arith)
                    requires
                        rest as nat == d as nat + 256 * q,
                ;
                assert(rest / 256 == 0 ==> d != 0);
            }
            digits.push(d);
            rest = rest / 256;
        }
        BigNat { digits }
    }

    /// The little-endian base-256 digits of the number, without a trailing zero;
    /// zero is written as the single digit 0.
    pub fn to_bytes_le(&self) -> (r: Vec<u8>)
        ensures
            le_value(r@) == self@,
            self@ == 0 ==> r@ == seq![0u8],
            self@ != 0 ==> r@ == self.digits(),
            r.len() > 0,
            self@ != 0 ==> r@.last() != 0,
    {
        proof {
            use_type_invariant(self);
        }
        if self.digits.len() == 0 {
            let r: Vec<u8> = vec![0u8];
            assert(r@ =~= seq![0u8]);
            assert(r@.drop_first() =~= Seq::<u8>::empty());
            assert(le_value(r@.drop_first()) == 0);
            r
        } else {
            proof {
                lemma_canonical_lower_bound(self.digits@);
                lemma_pow256_positive((self.digits.len() - 1) as nat);
            }
            let r = self.digits.clone();
            assert(r@ =~= self.digits@);
            r
        }
    }

    /// The number of base-256 digits of the number; zero has none.
    pub fn byte_len(&self) -> (n: usize)
        ensures
            n == self.digits().len(),
            self@ < pow256(n as nat),
            n > 0 ==> self@ >= pow256((n - 1) as nat),
    {
        proof {
            use_type_invariant(self);
            lemma_le_value_bound(self.digits@);
            if self.digits.len() > 0 {
                lemma_canonical_lower_bound(self.digits@);
            }
        }
        self.digits.len()
    }

    /// `self - other`, where `other` is not the larger.
    pub fn sub(&self, other: &BigNat) -> (r: BigNat)
        requires
            other@ <= self@,
        ensures
            r@ == self@ - other@,
    {
        let d = biguint_sub(self.digits.as_slice(), other.digits.as_slice());
        BigNat::from_bytes_le(d.as_slice())
    }

    /// Whether the number is zero.
    pub fn is_zero(&self) -> (r: bool)
        ensures
            r == (self@ == 0),
    {
        proof {
            use_type_invariant(self);
            if self.digits.len() > 0 {
                lemma_canonical_lower_bound(self.digits@);
                lemma_pow256_positive((self.digits.len() - 1) as nat);
            }
        }
        self.digits.len() == 0
    }

    /// Whether two numbers are the same.
    pub fn is_equal(&self, other: &BigNat) -> (r: bool)
        ensures
            r == (self@ == other@),
    {
        proof {
            use_type_invariant(self);
            use_type_invariant(other);
            if self@ == other@ {
                lemma_canonical_injective(self.digits@, other.digits@);
            }
        }
        if self.digits.len() != other.digits.len() {
            return false;
        }
        let n: usize = self.digits.len();
        let mut i: usize = 0;
        while i < n
            invariant
                i <= n,
                n == self.digits.len(),
                n == other.digits.len(),
                self@ == other@ ==> self.digits@ == other.digits@,
                forall|j: int| 0 <= j < i ==> self.digits@[j] == other.digits@[j],
            decreases n - i,
        {
            if self.digits[i] != other.digits[i] {
                return false;
            }
            i += 1;
        }
        assert(self.digits@ =~= other.digits@);
        true
    }

    /// Whether `self` is strictly below `other`.
    pub fn is_less_than(&self, other: &BigNat) -> (r: bool)
        ensures
            r == (self@ < other@),
    {
        proof {
            use_type_invariant(self);
            use_type_invariant(other);
        }
        let n: usize = self.digits.len();
        let m: usize = other.digits.len();
        if n != m {
            proof {
                lemma_le_value_bound(self.digits@);
                lemma_le_value_bound(other.digits@);
                if n < m {
                    lemma_canonical_lower_bound(other.digits@);
                    lemma_pow256_monotonic(n as nat, (m - 1) as nat);
                } else {
                    lemma_canonical_lower_bound(self.digits@);
                    lemma_pow256_monotonic(m as nat, (n - 1) as nat);
                }
            }
            return n < m;
        }
        let mut i: usize = n;
        assert(self.digits@.skip(i as int) =~= other.digits@.skip(i as int));
        while i > 0
            invariant
                i <= n,
                n == self.digits.len(),
                n == other.digits.len(),
                self.digits@.skip(i as int) == other.digits@.skip(i as int),
            decreases i,
        {
            let a: u8 = self.digits[i - 1];
            let b: u8 = other.digits[i - 1];
            if a != b {
                proof {
                    lemma_top_digit_decides(self.digits@, other.digits@, i - 1);
                }
                return a < b;
            }
            assert(self.digits@.skip(i - 1) =~= seq![a] + self.digits@.skip(i as int));
            assert(other.digits@.skip(i - 1) =~= seq![b] + other.digits@.skip(i as int));
            i -= 1;
        }
        assert(self.digits@.skip(0) =~= self.digits@);
        assert(other.digits@.skip(0) =~= other.digits@);
        false
    }

    /// The binary digit of weight `2^i`.
    pub fn bit(&self, i: usize) -> (r: bool)
        ensures
            r == bit_at(self@, i as nat),
    {
        let k: usize = i / 8;
        let j: u32 = (i % 8) as u32;
        proof {
            lemma_bit_at_le_value(self.digits@, i as nat);
        }
        if k < self.digits.len() {
            let d: u8 = self.digits[k];
            proof {
                lemma_bit_at_byte(d, j);
            }
            (d >> j) & 1u8 == 1u8
        } else {
            false
        }
    }
}

/// Where two strings of one length agree above digit `k` and differ at it, that digit
/// orders the numbers.
proof fn lemma_top_digit_decides(s: Seq<u8>, t: Seq<u8>, k: int)
    requires
        s.len() == t.len(),
        0 <= k < s.len(),
        s.skip(k + 1) == t.skip(k + 1),
        s[k] != t[k],
    ensures
        (le_value(s) < le_value(t)) == (s[k] < t[k]),
{
    lemma_le_value_split(s, k);
    lemma_le_value_split(t, k);
    lemma_le_value_bound(s.take(k));
    lemma_le_value_bound(t.take(k));
    let hs = s.skip(k);
    let ht = t.skip(k);
    assert(hs.drop_first() =~= s.skip(k + 1));
    assert(ht.drop_first() =~= t.skip(k + 1));
    assert(hs[0] == s[k] && ht[0] == t[k]);
    let w = pow256(k as nat);
    let ls = le_value(s.take(k));
    let lt = le_value(t.take(k));
    let vs = le_value(hs);
    let vt = le_value(ht);
    assert(s[k] < t[k] ==> vs + 1 <= vt);
    assert(t[k] < s[k] ==> vt + 1 <= vs);
    assert(vs + 1 <= vt ==> ls + w * vs < lt + w * vt) by (nonlinear_arith)
        requires
            ls < w,
    ;
    assert(vt + 1 <= vs ==> lt + w * vt < ls + w * vs) by (nonlinear_arith)
        requires
            lt < w,
    ;
}

} // verus!
