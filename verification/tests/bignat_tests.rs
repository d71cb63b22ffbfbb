use curves::bignat::{bytes_of_words, BigNat};
use curves::utils::biguint_to_bits_le;
use num::bigint::RandBigInt;
use num::BigUint;
use rand::{thread_rng, Rng};

#[test]
fn from_bytes_le_strips_trailing_zeros() {
    let n = BigNat::from_bytes_le(&[101, 4, 0, 0]);
    assert_eq!(n.to_bytes_le(), vec![101, 4]);
    assert_eq!(n.byte_len(), 2);
    assert_eq!(n, BigNat::from_u64(1125));
}

#[test]
fn from_bytes_le_accumulates_base_256_digits() {
    // 1 + 2 * 256 + 3 * 65536
    assert_eq!(BigNat::from_bytes_le(&[1, 2, 3]), BigNat::from_u64(197_121));
}

#[test]
fn zero_is_written_as_one_zero_byte() {
    assert_eq!(BigNat::zero().to_bytes_le(), vec![0]);
    assert_eq!(BigNat::from_bytes_le(&[]).to_bytes_le(), vec![0]);
    assert_eq!(BigNat::from_bytes_le(&[0, 0, 0]), BigNat::zero());
    assert!(BigNat::zero().is_zero());
    assert!(!BigNat::from_u64(1).is_zero());
    assert_eq!(BigNat::zero().byte_len(), 0);
}

#[test]
fn from_u64_writes_little_endian() {
    assert_eq!(BigNat::from_u64(0x0102_0304).to_bytes_le(), vec![4, 3, 2, 1]);
    assert_eq!(BigNat::from_u64(u64::MAX).to_bytes_le(), vec![255; 8]);
    assert_eq!(BigNat::from_u64(256).to_bytes_le(), vec![0, 1]);
}

#[test]
fn equality_is_by_value() {
    let a = BigNat::from_bytes_le(&[7, 1]);
    let b = BigNat::from_bytes_le(&[7, 1, 0, 0, 0]);
    let c = BigNat::from_bytes_le(&[7, 2]);
    assert!(a.is_equal(&b));
    assert!(!a.is_equal(&c));
    assert!(!a.is_equal(&BigNat::from_bytes_le(&[7])));
    assert!(a.clone().is_equal(&a));
}

#[test]
fn ordering_is_by_value() {
    let small = BigNat::from_u64(255);
    let longer = BigNat::from_u64(256);
    assert!(small.is_less_than(&longer));
    assert!(!longer.is_less_than(&small));
    assert!(!small.is_less_than(&small));
    // same length: the highest differing digit decides
    let a = BigNat::from_bytes_le(&[9, 1, 5]);
    let b = BigNat::from_bytes_le(&[0, 2, 5]);
    assert!(a.is_less_than(&b));
    assert!(!b.is_less_than(&a));
    assert!(BigNat::zero().is_less_than(&BigNat::from_u64(1)));
    assert!(!BigNat::zero().is_less_than(&BigNat::zero()));
}

#[test]
fn subtraction_is_exact() {
    let a = BigNat::from_bytes_le(&[0, 0, 1]); // 65536
    let b = BigNat::from_u64(1);
    assert_eq!(a.sub(&b), BigNat::from_u64(65_535));
    assert_eq!(a.sub(&a), BigNat::zero());
    assert_eq!(a.sub(&BigNat::zero()), a);
}

#[test]
fn bit_reads_binary_digits() {
    let n = BigNat::from_u64(0b1010_0000_0101);
    let set: Vec<usize> = (0..20).filter(|i| n.bit(*i)).collect();
    assert_eq!(set, vec![0, 2, 9, 11]);
    assert!(!n.bit(1_000_000));
}

#[test]
fn bits_le_are_least_significant_first() {
    let bits = biguint_to_bits_le(&BigNat::from_u64(6), 4);
    assert_eq!(bits, vec![false, true, true, false]);
}

#[test]
fn bits_le_pad_with_zeros() {
    let bits = biguint_to_bits_le(&BigNat::from_u64(1), 16);
    assert_eq!(bits.len(), 16);
    assert!(bits[0]);
    assert!(bits[1..].iter().all(|b| !*b));
}

#[test]
fn bits_le_drop_the_digits_above_the_width() {
    // 0x1_05 in 8 bits is 0x05
    let bits = biguint_to_bits_le(&BigNat::from_u64(0x105), 8);
    assert_eq!(bits, vec![true, false, true, false, false, false, false, false]);
    assert_eq!(biguint_to_bits_le(&BigNat::from_u64(7), 0), Vec::<bool>::new());
}

#[test]
fn bytes_of_words_are_little_endian() {
    assert_eq!(
        bytes_of_words(&[0x0807_0605_0403_0201, 0x11]),
        vec![1, 2, 3, 4, 5, 6, 7, 8, 0x11, 0, 0, 0, 0, 0, 0, 0]
    );
    assert_eq!(bytes_of_words(&[]), Vec::<u8>::new());
}

#[test]
fn bignat_matches_reference_on_random_numbers() {
    let mut rng = thread_rng();
    for _ in 0..300 {
        let bits_a: u64 = rng.gen_range(0..300);
        let bits_b: u64 = rng.gen_range(0..300);
        let a = rng.gen_biguint(bits_a);
        let b = rng.gen_biguint(bits_b);
        let x = BigNat::from_bytes_le(&a.to_bytes_le());
        let y = BigNat::from_bytes_le(&b.to_bytes_le());
        assert_eq!(x.to_bytes_le(), a.to_bytes_le());
        assert_eq!(x.is_less_than(&y), a < b);
        assert_eq!(x.is_equal(&y), a == b);
        assert_eq!(x.is_zero(), a == BigUint::from(0u32));
        let (hi, lo, big_hi, big_lo) = if a >= b { (&x, &y, &a, &b) } else { (&y, &x, &b, &a) };
        assert_eq!(hi.sub(lo).to_bytes_le(), (big_hi - big_lo).to_bytes_le());
        let i: usize = rng.gen_range(0..320);
        assert_eq!(x.bit(i), a.bit(i as u64));
        let width: usize = rng.gen_range(0..320);
        let bits = biguint_to_bits_le(&x, width);
        assert_eq!(bits.len(), width);
        assert!(bits.iter().enumerate().all(|(j, bit)| *bit == a.bit(j as u64)));
    }
}
