use libzeropool::bits::{from_bits_le, into_bits_le};
use libzeropool::field::Num;

const MODULUS: [u64; 4] =
    [0x43e1f593f0000001, 0x2833e84879b97091, 0xb85045b68181585d, 0x30644e72e131a029];

#[test]
fn zero_is_from_zero() {
    assert_eq!(Num::zero(), Num::from_u64(0));
    assert_eq!(Num::zero().limbs(), [0, 0, 0, 0]);
}

#[test]
fn from_u64_fills_the_low_limb() {
    assert_eq!(Num::from_u64(7).limbs(), [7, 0, 0, 0]);
    assert_eq!(Num::from_u64(u64::MAX).limbs(), [u64::MAX, 0, 0, 0]);
}

#[test]
fn from_limbs_accepts_what_is_below_the_modulus() {
    let mut below = MODULUS;
    below[0] -= 1;
    assert_eq!(Num::from_limbs(below).unwrap().limbs(), below);
    assert_eq!(Num::from_limbs([1, 2, 3, 4]).unwrap().limbs(), [1, 2, 3, 4]);
    assert_eq!(Num::from_limbs([u64::MAX, u64::MAX, u64::MAX, 0]).unwrap().limbs()[3], 0);
    assert!(Num::from_limbs([0, 0, 0, MODULUS[3]]).is_some());
    assert!(Num::from_limbs([u64::MAX, u64::MAX, MODULUS[2] - 1, MODULUS[3]]).is_some());
    assert!(Num::from_limbs([u64::MAX, MODULUS[1] - 1, MODULUS[2], MODULUS[3]]).is_some());
}

#[test]
fn from_limbs_rejects_the_modulus_and_above() {
    assert!(Num::from_limbs(MODULUS).is_none());
    let mut above = MODULUS;
    above[0] += 1;
    assert!(Num::from_limbs(above).is_none());
    assert!(Num::from_limbs([0, 0, 0, MODULUS[3] + 1]).is_none());
    assert!(Num::from_limbs([0, 0, MODULUS[2] + 1, MODULUS[3]]).is_none());
    assert!(Num::from_limbs([0, MODULUS[1] + 1, MODULUS[2], MODULUS[3]]).is_none());
    assert!(Num::from_limbs([u64::MAX; 4]).is_none());
}

#[test]
fn equals_is_equality_of_values() {
    let a = Num::from_limbs([5, 6, 7, 8]).unwrap();
    let b = Num::from_limbs([5, 6, 7, 8]).unwrap();
    let c = Num::from_limbs([5, 6, 7, 9]).unwrap();
    assert!(a.equals(&b));
    assert!(!a.equals(&c));
    assert!(!Num::from_u64(1).equals(&Num::from_limbs([0, 1, 0, 0]).unwrap()));
    assert_eq!(a, b);
    assert_ne!(a, c);
}

#[test]
fn switch_selects_self_when_the_bit_is_set() {
    let a = Num::from_u64(1);
    let b = Num::from_u64(2);
    assert_eq!(a.switch(true, &b), a);
    assert_eq!(a.switch(false, &b), b);
}

#[test]
fn from_bits_le_reads_little_endian() {
    assert_eq!(from_bits_le(&[]), 0);
    assert_eq!(from_bits_le(&[true]), 1);
    assert_eq!(from_bits_le(&[false, true]), 2);
    assert_eq!(from_bits_le(&[true, true, false, true]), 11);
    assert_eq!(from_bits_le(&[true; 64]), u64::MAX);
    let mut high = [false; 64];
    high[63] = true;
    assert_eq!(from_bits_le(&high), 1u64 << 63);
}

#[test]
fn into_bits_le_writes_little_endian() {
    assert_eq!(into_bits_le(11, 4), vec![true, true, false, true]);
    assert_eq!(into_bits_le(11, 6), vec![true, true, false, true, false, false]);
    assert_eq!(into_bits_le(0, 3), vec![false, false, false]);
    assert_eq!(into_bits_le(5, 0), Vec::<bool>::new());
}

#[test]
fn into_bits_le_drops_the_bits_above_the_limit() {
    assert_eq!(into_bits_le(11, 2), vec![true, true]);
    assert_eq!(into_bits_le(1u128 << 41, 41), vec![false; 41]);
}

#[test]
fn bits_round_trip() {
    for index in [0u64, 1, 2, 3, 1000, (1 << 41) - 1] {
        let bits = into_bits_le(index as u128, 41);
        assert_eq!(bits.len(), 41);
        assert_eq!(from_bits_le(&bits), index);
    }
}
