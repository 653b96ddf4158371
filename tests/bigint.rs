use bigint::as_bytes::AsBytes;
use bigint::bigint::BigInt;

fn zeros_then(tail: &[u8]) -> Vec<u8> {
    let mut v = vec![0u8; 16];
    v.extend_from_slice(tail);
    v
}

#[test]
fn with_capacity_is_empty() {
    let bigint = BigInt::with_capacity(100);
    assert!(bigint.backing().capacity() >= 100);
    assert!(bigint.backing().is_empty());
    assert_eq!(bigint.to_value::<u8>(), None);
}

#[test]
fn from_backing_keeps_bytes() {
    let bigint = BigInt::from_backing(vec![1, 2, 3, 4]);
    assert_eq!(bigint.to_value(), Some(67305985i32));
    assert_eq!(bigint.backing(), &vec![1, 2, 3, 4]);
}

#[test]
fn from_value_writes_low_byte_first() {
    let bigint = BigInt::from_value(701u16);
    assert_eq!(bigint.to_value(), Some(701u16));
    assert_eq!(bigint.backing(), &vec![189, 2]);
}

#[test]
fn to_value_reads_backing() {
    let bigint = BigInt::from_backing(vec![189, 2]);
    assert_eq!(bigint.to_value(), Some(701u16));
}

#[test]
fn signed_values_use_twos_complement() {
    assert_eq!(BigInt::from_value(-4i32).backing(), &vec![252, 255, 255, 255]);
    assert_eq!(BigInt::from_value(i8::MIN).backing(), &vec![128]);
    assert_eq!(BigInt::from_backing(vec![255, 255]).to_value(), Some(-1i16));
    assert_eq!(BigInt::from_backing(vec![0, 128]).to_value(), Some(i16::MIN));
    assert_eq!(BigInt::from_backing(vec![255, 127]).to_value(), Some(i16::MAX));
}

#[test]
fn round_trip_every_type() {
    for v in [0u8, 1, 127, 128, 255] {
        assert_eq!(u8::from_bytes(&v.as_bytes()), Some(v));
    }
    for v in [0u16, 701, u16::MAX] {
        assert_eq!(u16::from_bytes(&v.as_bytes()), Some(v));
    }
    for v in [0u32, 67305985, u32::MAX] {
        assert_eq!(u32::from_bytes(&v.as_bytes()), Some(v));
    }
    for v in [0u64, 578437695752307201, u64::MAX] {
        assert_eq!(u64::from_bytes(&v.as_bytes()), Some(v));
    }
    for v in [0u128, u128::MAX / 2, u128::MAX] {
        assert_eq!(u128::from_bytes(&v.as_bytes()), Some(v));
    }
    for v in [0usize, 12345, usize::MAX] {
        assert_eq!(usize::from_bytes(&v.as_bytes()), Some(v));
    }
    for v in [i8::MIN, -1, 0, 1, i8::MAX] {
        assert_eq!(i8::from_bytes(&v.as_bytes()), Some(v));
    }
    for v in [i16::MIN, -701, 0, 701, i16::MAX] {
        assert_eq!(i16::from_bytes(&v.as_bytes()), Some(v));
    }
    for v in [i32::MIN, -4, 0, 10, i32::MAX] {
        assert_eq!(i32::from_bytes(&v.as_bytes()), Some(v));
    }
    for v in [i64::MIN, -1, 0, i64::MAX] {
        assert_eq!(i64::from_bytes(&v.as_bytes()), Some(v));
    }
    for v in [i128::MIN, -1, 0, i128::MAX] {
        assert_eq!(i128::from_bytes(&v.as_bytes()), Some(v));
    }
    for v in [isize::MIN, -1, 0, isize::MAX] {
        assert_eq!(isize::from_bytes(&v.as_bytes()), Some(v));
    }
}

#[test]
fn encodings_have_the_type_width() {
    assert_eq!(0x0102u16.as_bytes(), vec![2, 1]);
    assert_eq!(578437695752307201u64.as_bytes(), vec![1, 2, 3, 4, 5, 6, 7, 8]);
    assert_eq!(
        u128::from_bytes(&[1, 2, 3, 4, 5, 6, 7, 8, 9, 10, 11, 12, 13, 14, 15, 16]),
        Some(0x100f0e0d0c0b0a090807060504030201u128)
    );
    assert_eq!(usize::MAX.as_bytes().len(), std::mem::size_of::<usize>());
    assert_eq!((-1isize).as_bytes().len(), std::mem::size_of::<isize>());
}

#[test]
fn length_mismatch_is_rejected() {
    assert_eq!(u8::from_bytes(&[]), None);
    assert_eq!(u8::from_bytes(&[1, 2]), None);
    assert_eq!(u16::from_bytes(&[1]), None);
    assert_eq!(u32::from_bytes(&[1, 2, 3]), None);
    assert_eq!(i64::from_bytes(&[1, 2, 3, 4, 5, 6, 7, 8, 9]), None);
    assert_eq!(u128::from_bytes(&[0; 8]), None);
    assert_eq!(BigInt::from_value(3u8).to_value::<u16>(), None);
    assert_eq!(BigInt::from_backing(vec![1, 2, 3]).to_value::<u32>(), None);
    assert_eq!(BigInt::from_backing(vec![1, 2, 3]).to_value::<u16>(), None);
}

#[test]
fn carry_policy_by_type() {
    assert!(!u8::keep_carry());
    assert!(!u16::keep_carry());
    assert!(!u32::keep_carry());
    assert!(!u64::keep_carry());
    assert!(!u128::keep_carry());
    assert!(!usize::keep_carry());
    assert!(i8::keep_carry());
    assert!(i16::keep_carry());
    assert!(i32::keep_carry());
    assert!(i64::keep_carry());
    assert!(i128::keep_carry());
    assert!(isize::keep_carry());
}

#[test]
fn add_single_bytes() {
    assert_eq!((BigInt::from_value(3u8) + BigInt::from_value(16u8)).to_value(), Some(19u8));
    let grown = BigInt::from_value(3u8) + BigInt::from_value(255u8);
    assert_eq!(grown.backing().len(), 2);
    assert_eq!(grown.to_value(), Some(258u16));
    let twice = BigInt::from_value(255u8) + BigInt::from_value(255u8);
    assert_eq!(twice.backing(), &vec![254, 1]);
    assert_eq!(twice.to_value(), Some(510u16));
}

#[test]
fn add_mixed_widths() {
    let sum = BigInt::from_value(u64::MAX) + BigInt::from_value(u128::MAX / 2);
    assert_eq!(sum.to_value(), Some(u64::MAX as u128 + u128::MAX / 2));
}

#[test]
fn add_unsigned_grows() {
    let sum = BigInt::from_value(0xffffu16) + BigInt::from_value(1u16);
    assert_eq!(sum.backing(), &vec![0, 0, 1]);
    let sum = BigInt::from_value(u32::MAX) + BigInt::from_value(u32::MAX);
    assert_eq!(sum.backing(), &vec![254, 255, 255, 255, 1]);
    assert_eq!(sum.to_value::<u32>(), None);
}

#[test]
fn add_signed_discards_carry() {
    let sum = BigInt::from_value(10i32) + BigInt::from_value(-4i32);
    assert_eq!(sum.backing().len(), 4);
    assert_eq!(sum.to_value(), Some(6i32));
    let sum = BigInt::from_value(-1i8) + BigInt::from_value(-1i8);
    assert_eq!(sum.backing(), &vec![254]);
    assert_eq!(sum.to_value(), Some(-2i8));
    let sum = BigInt::from_value(200u8) + BigInt::from_value(-100i8);
    assert_eq!(sum.backing(), &vec![100]);
}

#[test]
fn add_carry_past_shorter_operand() {
    let one = BigInt::from_backing(zeros_then(&[255]));
    let two = BigInt::from_backing(zeros_then(&[2, 17, 1]));
    assert_eq!((one + two).backing(), &zeros_then(&[1, 18, 1]));
}

#[test]
fn add_carry_through_longer_operand() {
    let one = BigInt::from_backing(vec![1]);
    let two = BigInt::from_backing(vec![255, 255, 255]);
    assert_eq!((&one + &two).backing(), &vec![0, 0, 0, 1]);
    assert_eq!((&two + &one).backing(), &vec![0, 0, 0, 1]);
}

#[test]
fn add_empty_operands() {
    let empty = BigInt::from_backing(vec![]);
    let other = BigInt::from_backing(vec![7, 9]);
    assert_eq!((&empty + &empty).backing(), &Vec::<u8>::new());
    assert_eq!((&empty + &other).backing(), &vec![7, 9]);
    assert_eq!((&other + &empty).backing(), &vec![7, 9]);
}

#[test]
fn add_result_grows_again() {
    let first = BigInt::from_value(-1i8) + BigInt::from_value(-1i8);
    assert_eq!(first.backing(), &vec![254]);
    let second = &first + &first;
    assert_eq!(second.backing(), &vec![252, 1]);
}

#[test]
fn add_is_commutative_on_equal_lengths() {
    let a = BigInt::from_backing(vec![200, 17, 255, 3]);
    let b = BigInt::from_backing(vec![100, 250, 1, 255]);
    let ab = &a + &b;
    let ba = &b + &a;
    assert_eq!(ab.backing(), ba.backing());
    assert_eq!(ab.backing(), &vec![44, 12, 1, 3, 1]);
}

#[test]
fn add_operator_forms_agree() {
    let expected = vec![19];
    let a = BigInt::from_value(3u8);
    let b = BigInt::from_value(16u8);
    assert_eq!((&a + &b).backing(), &expected);
    assert_eq!((&a + BigInt::from_value(16u8)).backing(), &expected);
    assert_eq!((BigInt::from_value(3u8) + &b).backing(), &expected);
    assert_eq!((a + b).backing(), &expected);
    let c = BigInt::from_value(3u8);
    let d = BigInt::from_value(16u8);
    assert_eq!(std::ops::Add::add(&c, &d).backing(), &expected);
    assert_eq!(c.backing(), &vec![3]);
    assert_eq!(d.backing(), &vec![16]);
}
