use eternal_os::bitvec::BitVec;
use eternal_os::vec::{Bit, CapacityExceeded, Vec};

#[test]
fn new_vector_is_empty() {
    let v: Vec<u8, 4> = Vec::new();
    assert_eq!(v.len(), 0);
    assert_eq!(v.capacity(), 4);
    assert!(!v.is_full());
}

#[test]
fn push_until_full_then_fail() {
    let mut v: Vec<u8, 3> = Vec::new();
    for i in 0..3u8 {
        assert_eq!(v.push(i * 10), Ok(()));
        assert_eq!(v.len(), (i + 1) as usize);
    }
    assert!(v.is_full());
    assert_eq!(v.push(99), Err(CapacityExceeded));
    assert_eq!(v.len(), 3);
    assert_eq!(v.get(0), 0);
    assert_eq!(v.get(2), 20);
}

#[test]
fn zero_capacity_push_fails() {
    let mut v: Vec<Bit, 0> = Vec::new();
    assert_eq!(v.push(Bit::One), Err(CapacityExceeded));
    assert_eq!(v.len(), 0);
    let mut b: BitVec<0> = BitVec::new();
    assert_eq!(b.push(Bit::Zero), Err(CapacityExceeded));
    assert_eq!(b.len(), 0);
}

#[test]
fn bitvec_push_and_capacity() {
    let mut b: BitVec<2> = BitVec::new();
    assert_eq!(b.capacity(), 2);
    assert_eq!(b.push(Bit::One), Ok(()));
    assert_eq!(b.push(Bit::Zero), Ok(()));
    assert_eq!(b.push(Bit::One), Err(CapacityExceeded));
    assert_eq!(b.len(), 2);
    assert_eq!(b.get(0), Bit::One);
    assert_eq!(b.get(1), Bit::Zero);
}

#[test]
fn from_bytes_most_significant_first() {
    let b: BitVec<16> = BitVec::from_bytes(&[0b1000_0001, 0x40]).unwrap();
    assert_eq!(b.len(), 16);
    let expected = [1, 0, 0, 0, 0, 0, 0, 1, 0, 1, 0, 0, 0, 0, 0, 0];
    for (i, e) in expected.iter().enumerate() {
        assert_eq!(b.get(i).is_one(), *e == 1);
    }
    assert_eq!(b.byte(0), 0x81);
    assert_eq!(b.byte(1), 0x40);
}

#[test]
fn from_bytes_too_many_fails() {
    let r: Result<BitVec<15>, CapacityExceeded> = BitVec::from_bytes(&[0, 0]);
    assert_eq!(r.err(), Some(CapacityExceeded));
    let r: Result<BitVec<8>, CapacityExceeded> = BitVec::from_bytes(&[0xFF]);
    assert!(r.is_ok());
}

#[test]
fn bit_from_bool() {
    assert_eq!(Bit::from_bool(true), Bit::One);
    assert_eq!(Bit::from_bool(false), Bit::Zero);
    assert!(!Bit::Zero.is_one());
}
