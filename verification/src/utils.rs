//! Taking numbers apart.
use crate::bignat::{bit_at, BigNat};
use vstd::prelude::*;

verus! {

/// The lowest `num_bits` binary digits of `integer`, least significant first.
///
/// Digits of higher weight are left out: the result stands for `integer` modulo
/// `2^num_bits`.
pub fn biguint_to_bits_le(integer: &BigNat, num_bits: usize) -> (bits: Vec<bool>)
    ensures
        bits.len() == num_bits,
        forall|i: int| 0 <= i < num_bits ==> bits[i] == bit_at(integer@, i as nat),
{
    let mut bits: Vec<bool> = Vec::new();
    let mut i: usize = 0;
    while i < num_bits
        invariant
            i <= num_bits,
            bits.len() == i,
            forall|j: int| 0 <= j < i ==> bits[j] == bit_at(integer@, j as nat),
        decreases num_bits - i,
    {
        bits.push(integer.bit(i));
        i += 1;
    }
    bits
}

} // verus!
