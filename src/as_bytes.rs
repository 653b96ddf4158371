//! The byte encoding of fixed-width integer types.
//!
//! A value of a type of `w` bytes is written as `w` bytes, least significant
//! first: an unsigned value as itself, a signed one in two's complement.

use crate::le::{
    decode_le, encode_le, le_bytes, le_value, lemma_le_value_bound, lemma_le_value_of_bytes,
    pow256,
};
use vstd::layout::size_of;
use vstd::prelude::*;

verus! {

/// A fixed-width type that can be written to bytes and read back from them.
pub trait AsBytes: Sized {
    /// The number of bytes that a value of the type takes.
    spec fn byte_width() -> nat;

    /// The number below `256^byte_width()` that the bytes of a value stand for.
    spec fn spec_encoded(&self) -> nat;

    /// The value that such a number stands for.
    spec fn spec_decoded(n: nat) -> Self;

    /// Whether additions of values of this type drop their final carry.
    spec fn spec_keep_carry() -> bool;

    /// Every value has a number within the width, and is read back from it.
    proof fn lemma_encoding(v: Self)
        ensures
            v.spec_encoded() < pow256(Self::byte_width()),
            Self::spec_decoded(v.spec_encoded()) == v,
    ;

    /// Gets the byte representation of the value.
    fn as_bytes(&self) -> (r: Vec<u8>)
        ensures
            r@ == le_bytes(self.spec_encoded(), Self::byte_width()),
    ;

    /// Reads a value back from its byte representation; `None` when the
    /// length is not the type's width.
    fn from_bytes(bytes: &[u8]) -> (r: Option<Self>)
        ensures
            bytes@.len() == Self::byte_width() ==> r == Some(Self::spec_decoded(le_value(bytes@))),
            bytes@.len() != Self::byte_width() ==> r is None,
    ;

    /// Whether the final carry of an addition is dropped rather than appended:
    /// `false` for unsigned types, `true` for signed ones.
    fn keep_carry() -> (r: bool)
        ensures
            r == Self::spec_keep_carry(),
    ;
}

/// The bytes of `v`.
pub open spec fn encoding<T: AsBytes>(v: T) -> Seq<u8> {
    le_bytes(v.spec_encoded(), T::byte_width())
}

/// The value that `b` stands for, if its length is the width of `T`.
pub open spec fn decoding<T: AsBytes>(b: Seq<u8>) -> Option<T> {
    if b.len() == T::byte_width() {
        Some(T::spec_decoded(le_value(b)))
    } else {
        None
    }
}

/// Decoding the encoding of any value gives the value back.
pub proof fn lemma_round_trip<T: AsBytes>(v: T)
    ensures
        encoding(v).len() == T::byte_width(),
        decoding::<T>(encoding(v)) == Some(v),
{
    T::lemma_encoding(v);
    crate::le::lemma_le_bytes_len(v.spec_encoded(), T::byte_width());
    lemma_le_value_of_bytes(v.spec_encoded(), T::byte_width());
    vstd::arithmetic::div_mod::lemma_small_mod(
        v.spec_encoded(),
        pow256(T::byte_width()),
    );
}

/// The two's complement of `v` in `w` bytes.
pub open spec fn twos(v: int, w: nat) -> nat {
    if v >= 0 {
        v as nat
    } else {
        (v + pow256(w)) as nat
    }
}

/// The signed number whose two's complement in `w` bytes is `n`.
pub open spec fn from_twos(n: nat, w: nat) -> int {
    if 2 * n < pow256(w) {
        n as int
    } else {
        n - pow256(w)
    }
}

proof fn lemma_twos_round_trip(v: int, w: nat)
    requires
        -pow256(w) <= 2 * v < pow256(w),
    ensures
        twos(v, w) < pow256(w),
        from_twos(twos(v, w), w) == v,
{
}

fn encode_twos(v: i128, w: usize, umax: u128) -> (r: Vec<u8>)
    requires
        umax + 1 == pow256(w as nat),
        -pow256(w as nat) <= 2 * v < pow256(w as nat),
    ensures
        r@ == le_bytes(twos(v as int, w as nat), w as nat),
{
    if v >= 0 {
        encode_le(v as u128, w)
    } else {
        let m = (-(v + 1)) as u128;
        encode_le(umax - m, w)
    }
}

fn decode_twos(b: &[u8], umax: u128) -> (r: i128)
    requires
        1 <= b@.len() <= 16,
        umax + 1 == pow256(b@.len()),
    ensures
        r == from_twos(le_value(b@), b@.len()),
{
    proof {
        lemma_le_value_bound(b@);
        assert(pow256(b@.len()) == 256 * pow256((b@.len() - 1) as nat));
    }
    let u = decode_le(b);
    if u <= umax / 2 {
        u as i128
    } else {
        -((umax - u) as i128) - 1
    }
}

impl AsBytes for u8 {
    open spec fn byte_width() -> nat {
        1
    }

    open spec fn spec_encoded(&self) -> nat {
        *self as nat
    }

    open spec fn spec_decoded(n: nat) -> u8 {
        n as u8
    }

    open spec fn spec_keep_carry() -> bool {
        false
    }

    proof fn lemma_encoding(v: u8) {
        assert(pow256(1) == u8::MAX + 1) by {
            reveal_with_fuel(pow256, 2);
        }
    }

    fn as_bytes(&self) -> (r: Vec<u8>) {
        encode_le(*self as u128, 1)
    }

    fn from_bytes(bytes: &[u8]) -> (r: Option<u8>) {
        if bytes.len() != 1 {
            return None;
        }
        proof {
            lemma_le_value_bound(bytes@);
            assert(pow256(1) == u8::MAX + 1) by {
                reveal_with_fuel(pow256, 2);
            }
        }
        Some(decode_le(bytes) as u8)
    }

    fn keep_carry() -> (r: bool) {
        false
    }
}

impl AsBytes for u16 {
    open spec fn byte_width() -> nat {
        2
    }

    open spec fn spec_encoded(&self) -> nat {
        *self as nat
    }

    open spec fn spec_decoded(n: nat) -> u16 {
        n as u16
    }

    open spec fn spec_keep_carry() -> bool {
        false
    }

    proof fn lemma_encoding(v: u16) {
        assert(pow256(2) == u16::MAX + 1) by {
            reveal_with_fuel(pow256, 3);
        }
    }

    fn as_bytes(&self) -> (r: Vec<u8>) {
        encode_le(*self as u128, 2)
    }

    fn from_bytes(bytes: &[u8]) -> (r: Option<u16>) {
        if bytes.len() != 2 {
            return None;
        }
        proof {
            lemma_le_value_bound(bytes@);
            assert(pow256(2) == u16::MAX + 1) by {
                reveal_with_fuel(pow256, 3);
            }
        }
        Some(decode_le(bytes) as u16)
    }

    fn keep_carry() -> (r: bool) {
        false
    }
}

impl AsBytes for u32 {
    open spec fn byte_width() -> nat {
        4
    }

    open spec fn spec_encoded(&self) -> nat {
        *self as nat
    }

    open spec fn spec_decoded(n: nat) -> u32 {
        n as u32
    }

    open spec fn spec_keep_carry() -> bool {
        false
    }

    proof fn lemma_encoding(v: u32) {
        assert(pow256(4) == u32::MAX + 1) by {
            reveal_with_fuel(pow256, 5);
        }
    }

    fn as_bytes(&self) -> (r: Vec<u8>) {
        encode_le(*self as u128, 4)
    }

    fn from_bytes(bytes: &[u8]) -> (r: Option<u32>) {
        if bytes.len() != 4 {
            return None;
        }
        proof {
            lemma_le_value_bound(bytes@);
            assert(pow256(4) == u32::MAX + 1) by {
                reveal_with_fuel(pow256, 5);
            }
        }
        Some(decode_le(bytes) as u32)
    }

    fn keep_carry() -> (r: bool) {
        false
    }
}

impl AsBytes for u64 {
    open spec fn byte_width() -> nat {
        8
    }

    open spec fn spec_encoded(&self) -> nat {
        *self as nat
    }

    open spec fn spec_decoded(n: nat) -> u64 {
        n as u64
    }

    open spec fn spec_keep_carry() -> bool {
        false
    }

    proof fn lemma_encoding(v: u64) {
        assert(pow256(8) == u64::MAX + 1) by {
            reveal_with_fuel(pow256, 9);
        }
    }

    fn as_bytes(&self) -> (r: Vec<u8>) {
        encode_le(*self as u128, 8)
    }

    fn from_bytes(bytes: &[u8]) -> (r: Option<u64>) {
        if bytes.len() != 8 {
            return None;
        }
        proof {
            lemma_le_value_bound(bytes@);
            assert(pow256(8) == u64::MAX + 1) by {
                reveal_with_fuel(pow256, 9);
            }
        }
        Some(decode_le(bytes) as u64)
    }

    fn keep_carry() -> (r: bool) {
        false
    }
}

impl AsBytes for u128 {
    open spec fn byte_width() -> nat {
        16
    }

    open spec fn spec_encoded(&self) -> nat {
        *self as nat
    }

    open spec fn spec_decoded(n: nat) -> u128 {
        n as u128
    }

    open spec fn spec_keep_carry() -> bool {
        false
    }

    proof fn lemma_encoding(v: u128) {
        assert(pow256(16) == u128::MAX + 1) by {
            reveal_with_fuel(pow256, 17);
        }
    }

    fn as_bytes(&self) -> (r: Vec<u8>) {
        encode_le(*self as u128, 16)
    }

    fn from_bytes(bytes: &[u8]) -> (r: Option<u128>) {
        if bytes.len() != 16 {
            return None;
        }
        proof {
            lemma_le_value_bound(bytes@);
            assert(pow256(16) == u128::MAX + 1) by {
                reveal_with_fuel(pow256, 17);
            }
        }
        Some(decode_le(bytes) as u128)
    }

    fn keep_carry() -> (r: bool) {
        false
    }
}

impl AsBytes for i8 {
    open spec fn byte_width() -> nat {
        1
    }

    open spec fn spec_encoded(&self) -> nat {
        twos(*self as int, 1)
    }

    open spec fn spec_decoded(n: nat) -> i8 {
        from_twos(n, 1) as i8
    }

    open spec fn spec_keep_carry() -> bool {
        true
    }

    proof fn lemma_encoding(v: i8) {
        assert(pow256(1) == u8::MAX + 1) by {
            reveal_with_fuel(pow256, 2);
        }
        lemma_twos_round_trip(v as int, 1);
    }

    fn as_bytes(&self) -> (r: Vec<u8>) {
        proof {
            assert(pow256(1) == u8::MAX + 1) by {
                reveal_with_fuel(pow256, 2);
            }
        }
        encode_twos(*self as i128, 1, u8::MAX as u128)
    }

    fn from_bytes(bytes: &[u8]) -> (r: Option<i8>) {
        if bytes.len() != 1 {
            return None;
        }
        proof {
            assert(pow256(1) == u8::MAX + 1) by {
                reveal_with_fuel(pow256, 2);
            }
        }
        Some(decode_twos(bytes, u8::MAX as u128) as i8)
    }

    fn keep_carry() -> (r: bool) {
        true
    }
}

impl AsBytes for i16 {
    open spec fn byte_width() -> nat {
        2
    }

    open spec fn spec_encoded(&self) -> nat {
        twos(*self as int, 2)
    }

    open spec fn spec_decoded(n: nat) -> i16 {
        from_twos(n, 2) as i16
    }

    open spec fn spec_keep_carry() -> bool {
        true
    }

    proof fn lemma_encoding(v: i16) {
        assert(pow256(2) == u16::MAX + 1) by {
            reveal_with_fuel(pow256, 3);
        }
        lemma_twos_round_trip(v as int, 2);
    }

    fn as_bytes(&self) -> (r: Vec<u8>) {
        proof {
            assert(pow256(2) == u16::MAX + 1) by {
                reveal_with_fuel(pow256, 3);
            }
        }
        encode_twos(*self as i128, 2, u16::MAX as u128)
    }

    fn from_bytes(bytes: &[u8]) -> (r: Option<i16>) {
        if bytes.len() != 2 {
            return None;
        }
        proof {
            assert(pow256(2) == u16::MAX + 1) by {
                reveal_with_fuel(pow256, 3);
            }
        }
        Some(decode_twos(bytes, u16::MAX as u128) as i16)
    }

    fn keep_carry() -> (r: bool) {
        true
    }
}

impl AsBytes for i32 {
    open spec fn byte_width() -> nat {
        4
    }

    open spec fn spec_encoded(&self) -> nat {
        twos(*self as int, 4)
    }

    open spec fn spec_decoded(n: nat) -> i32 {
        from_twos(n, 4) as i32
    }

    open spec fn spec_keep_carry() -> bool {
        true
    }

    proof fn lemma_encoding(v: i32) {
        assert(pow256(4) == u32::MAX + 1) by {
            reveal_with_fuel(pow256, 5);
        }
        lemma_twos_round_trip(v as int, 4);
    }

    fn as_bytes(&self) -> (r: Vec<u8>) {
        proof {
            assert(pow256(4) == u32::MAX + 1) by {
                reveal_with_fuel(pow256, 5);
            }
        }
        encode_twos(*self as i128, 4, u32::MAX as u128)
    }

    fn from_bytes(bytes: &[u8]) -> (r: Option<i32>) {
        if bytes.len() != 4 {
            return None;
        }
        proof {
            assert(pow256(4) == u32::MAX + 1) by {
                reveal_with_fuel(pow256, 5);
            }
        }
        Some(decode_twos(bytes, u32::MAX as u128) as i32)
    }

    fn keep_carry() -> (r: bool) {
        true
    }
}

impl AsBytes for i64 {
    open spec fn byte_width() -> nat {
        8
    }

    open spec fn spec_encoded(&self) -> nat {
        twos(*self as int, 8)
    }

    open spec fn spec_decoded(n: nat) -> i64 {
        from_twos(n, 8) as i64
    }

    open spec fn spec_keep_carry() -> bool {
        true
    }

    proof fn lemma_encoding(v: i64) {
        assert(pow256(8) == u64::MAX + 1) by {
            reveal_with_fuel(pow256, 9);
        }
        lemma_twos_round_trip(v as int, 8);
    }

    fn as_bytes(&self) -> (r: Vec<u8>) {
        proof {
            assert(pow256(8) == u64::MAX + 1) by {
                reveal_with_fuel(pow256, 9);
            }
        }
        encode_twos(*self as i128, 8, u64::MAX as u128)
    }

    fn from_bytes(bytes: &[u8]) -> (r: Option<i64>) {
        if bytes.len() != 8 {
            return None;
        }
        proof {
            assert(pow256(8) == u64::MAX + 1) by {
                reveal_with_fuel(pow256, 9);
            }
        }
        Some(decode_twos(bytes, u64::MAX as u128) as i64)
    }

    fn keep_carry() -> (r: bool) {
        true
    }
}

impl AsBytes for i128 {
    open spec fn byte_width() -> nat {
        16
    }

    open spec fn spec_encoded(&self) -> nat {
        twos(*self as int, 16)
    }

    open spec fn spec_decoded(n: nat) -> i128 {
        from_twos(n, 16) as i128
    }

    open spec fn spec_keep_carry() -> bool {
        true
    }

    proof fn lemma_encoding(v: i128) {
        assert(pow256(16) == u128::MAX + 1) by {
            reveal_with_fuel(pow256, 17);
        }
        lemma_twos_round_trip(v as int, 16);
    }

    fn as_bytes(&self) -> (r: Vec<u8>) {
        proof {
            assert(pow256(16) == u128::MAX + 1) by {
                reveal_with_fuel(pow256, 17);
            }
        }
        encode_twos(*self as i128, 16, u128::MAX as u128)
    }

    fn from_bytes(bytes: &[u8]) -> (r: Option<i128>) {
        if bytes.len() != 16 {
            return None;
        }
        proof {
            assert(pow256(16) == u128::MAX + 1) by {
                reveal_with_fuel(pow256, 17);
            }
        }
        Some(decode_twos(bytes, u128::MAX as u128) as i128)
    }

    fn keep_carry() -> (r: bool) {
        true
    }
}
/// The width of `usize` and `isize`, with the largest `usize`.
proof fn lemma_word_width()
    ensures
        size_of::<usize>() == size_of::<isize>(),
        size_of::<usize>() == 4 || size_of::<usize>() == 8,
        pow256(size_of::<usize>()) == usize::MAX + 1,
{
    broadcast use vstd::layout::layout_of_primitives;

    assert(pow256(4) == 0x1_0000_0000) by {
        reveal_with_fuel(pow256, 5);
    }
    assert(pow256(8) == 0x1_0000_0000_0000_0000) by {
        reveal_with_fuel(pow256, 9);
    }
    assert(usize::BITS == 32 || usize::BITS == 64);
    assert(usize::BITS == 32 ==> usize::MAX == 0xffff_ffff);
    assert(usize::BITS == 64 ==> usize::MAX == 0xffff_ffff_ffff_ffff);
}

impl AsBytes for usize {
    open spec fn byte_width() -> nat {
        size_of::<usize>()
    }

    open spec fn spec_encoded(&self) -> nat {
        *self as nat
    }

    open spec fn spec_decoded(n: nat) -> usize {
        n as usize
    }

    open spec fn spec_keep_carry() -> bool {
        false
    }

    proof fn lemma_encoding(v: usize) {
        lemma_word_width();
    }

    fn as_bytes(&self) -> (r: Vec<u8>) {
        encode_le(*self as u128, core::mem::size_of::<usize>())
    }

    fn from_bytes(bytes: &[u8]) -> (r: Option<usize>) {
        proof {
            lemma_word_width();
        }
        if bytes.len() != core::mem::size_of::<usize>() {
            return None;
        }
        proof {
            lemma_le_value_bound(bytes@);
        }
        Some(decode_le(bytes) as usize)
    }

    fn keep_carry() -> (r: bool) {
        false
    }
}

impl AsBytes for isize {
    open spec fn byte_width() -> nat {
        size_of::<isize>()
    }

    open spec fn spec_encoded(&self) -> nat {
        twos(*self as int, size_of::<isize>())
    }

    open spec fn spec_decoded(n: nat) -> isize {
        from_twos(n, size_of::<isize>()) as isize
    }

    open spec fn spec_keep_carry() -> bool {
        true
    }

    proof fn lemma_encoding(v: isize) {
        lemma_word_width();
        lemma_twos_round_trip(v as int, size_of::<isize>());
    }

    fn as_bytes(&self) -> (r: Vec<u8>) {
        proof {
            lemma_word_width();
        }
        encode_twos(*self as i128, core::mem::size_of::<isize>(), usize::MAX as u128)
    }

    fn from_bytes(bytes: &[u8]) -> (r: Option<isize>) {
        proof {
            lemma_word_width();
        }
        if bytes.len() != core::mem::size_of::<isize>() {
            return None;
        }
        Some(decode_twos(bytes, usize::MAX as u128) as isize)
    }

    fn keep_carry() -> (r: bool) {
        true
    }
}

} // verus!
