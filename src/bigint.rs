//! The byte-backed integer and its addition.

use crate::as_bytes::{decoding, encoding, AsBytes};
use crate::le::{
    le_bytes, le_value, lemma_bytes_of_le_value, lemma_le_bytes_len, lemma_le_bytes_mod,
    lemma_le_value_bound, lemma_le_value_push, lemma_pow256_positive, pow256,
};
use itertools::{EitherOrBoth, Itertools};
use vstd::arithmetic::div_mod::lemma_fundamental_div_mod_converse;
use vstd::prelude::*;

verus! {

/// A big integer type, supporting arbitrarily sized integers.
///
/// All backing data is stored on the heap, allowing this integer to grow if needed.
#[derive(Debug, Default)]
pub struct BigInt {
    /// Backing data for storing the big integer, least significant byte first.
    backing: Vec<u8>,
    /// Whether to discard the final carry value in an operation like addition.
    discard_carry: bool,
}

/// What the two operands of an addition hold at one byte position.
enum Position {
    Both(u8, u8),
    Left(u8),
    Right(u8),
}

/// The longer of two lengths.
pub open spec fn longer_len(a: Seq<u8>, b: Seq<u8>) -> nat {
    if a.len() >= b.len() {
        a.len()
    } else {
        b.len()
    }
}

/// What the operands `a` and `b` hold at position `i`.
spec fn position(a: Seq<u8>, b: Seq<u8>, i: int) -> Position {
    if i < a.len() && i < b.len() {
        Position::Both(a[i], b[i])
    } else if i < a.len() {
        Position::Left(a[i])
    } else {
        Position::Right(b[i])
    }
}

/// The byte of `s` at position `i`, zero past its end.
spec fn digit(s: Seq<u8>, i: nat) -> nat {
    if i < s.len() {
        s[i as int] as nat
    } else {
        0
    }
}

/// The bytes of `s` below position `i`.
spec fn low(s: Seq<u8>, i: nat) -> Seq<u8> {
    if i <= s.len() {
        s.take(i as int)
    } else {
        s
    }
}

/// Whether adding `a` and `b` appends a byte for the final carry: the sum
/// does not fit in the longer length, and neither operand drops the carry.
pub open spec fn grows(a: Seq<u8>, discard_a: bool, b: Seq<u8>, discard_b: bool) -> bool {
    &&& le_value(a) + le_value(b) >= pow256(longer_len(a, b))
    &&& !discard_a
    &&& !discard_b
}

/// The bytes of the sum of `a` and `b`: as long as the longer operand, with
/// one byte more when the sum grows, and otherwise modulo that length.
pub open spec fn sum_bytes(a: Seq<u8>, discard_a: bool, b: Seq<u8>, discard_b: bool) -> Seq<u8> {
    let len = if grows(a, discard_a, b, discard_b) {
        longer_len(a, b) + 1
    } else {
        longer_len(a, b)
    };
    le_bytes(le_value(a) + le_value(b), len)
}

/// Relies on itertools' `zip_longest`: it pairs the bytes of both slices
/// position by position until both are exhausted, giving `Both` while each
/// has a byte and `Left` or `Right` for the one that is left.
#[verifier::external_body]
fn zip_longest_bytes(a: &Vec<u8>, b: &Vec<u8>) -> (r: Vec<Position>)
    ensures
        r@.len() == longer_len(a@, b@),
        forall|i: int| 0 <= i < r@.len() ==> r@[i] == position(a@, b@, i),
{
    a.iter().zip_longest(b.iter()).map(|item| match item {
        EitherOrBoth::Both(left, right) => Position::Both(*left, *right),
        EitherOrBoth::Left(left) => Position::Left(*left),
        EitherOrBoth::Right(right) => Position::Right(*right),
    }).collect()
}

/// Adds two bytes with wraparound, and tells whether the sum overflowed.
fn overflowing_add(a: u8, b: u8) -> (r: (u8, bool))
    ensures
        r.1 == (a + b >= 256),
        r.0 == if r.1 {
            a + b - 256
        } else {
            a + b
        },
{
    let s: u16 = a as u16 + b as u16;
    if s >= 256 {
        ((s - 256) as u8, true)
    } else {
        (s as u8, false)
    }
}

proof fn lemma_low_step(s: Seq<u8>, i: nat)
    ensures
        le_value(low(s, i + 1)) == le_value(low(s, i)) + digit(s, i) * pow256(i),
{
    if i < s.len() {
        assert(s.take((i + 1) as int) =~= s.take(i as int).push(s[i as int]));
        lemma_le_value_push(s.take(i as int), s[i as int]);
    } else {
        lemma_low_full(s, i);
        lemma_low_full(s, i + 1);
        assert(digit(s, i) * pow256(i) == 0);
    }
}

proof fn lemma_low_full(s: Seq<u8>, i: nat)
    requires
        s.len() <= i,
    ensures
        low(s, i) == s,
{
    if i == s.len() {
        assert(s.take(i as int) =~= s);
    }
}

impl BigInt {
    /// The bytes of the integer, least significant first.
    pub closed spec fn bytes(&self) -> Seq<u8> {
        self.backing@
    }

    /// Whether an addition with this integer as an operand drops its final carry.
    pub closed spec fn discards_carry(&self) -> bool {
        self.discard_carry
    }

    /// Constructs a big integer with a backing vector with a given capacity.
    pub fn with_capacity(capacity: usize) -> (r: Self)
        ensures
            r.bytes() == Seq::<u8>::empty(),
            !r.discards_carry(),
    {
        Self { backing: Vec::with_capacity(capacity), discard_carry: false }
    }

    /// Constructs a big integer from an existing backing vector.
    pub fn from_backing(backing: Vec<u8>) -> (r: Self)
        ensures
            r.bytes() == backing@,
            !r.discards_carry(),
    {
        Self { backing, discard_carry: false }
    }

    /// Constructs a big integer from the bytes of a given value, taking the
    /// carry policy of its type.
    pub fn from_value<T: AsBytes>(value: T) -> (r: Self)
        ensures
            r.bytes() == encoding(value),
            r.discards_carry() == T::spec_keep_carry(),
    {
        Self { backing: value.as_bytes(), discard_carry: T::keep_carry() }
    }

    /// Constructs a value from the bytes stored, returning `None` if the byte
    /// length is not the width of `T`.
    pub fn to_value<T: AsBytes>(&self) -> (r: Option<T>)
        ensures
            r == decoding::<T>(self.bytes()),
            self.bytes().len() != T::byte_width() ==> r is None,
    {
        T::from_bytes(self.backing.as_slice())
    }

    /// Gets a reference to the backing data of the big integer.
    pub fn backing(&self) -> (r: &Vec<u8>)
        ensures
            r@ == self.bytes(),
    {
        &self.backing
    }
}

/// With equal lengths, the sum of two integers that does not fit takes one
/// byte more when neither operand drops the carry (as for unsigned sources),
/// and keeps the operands' length when either does (as for signed ones).
pub proof fn lemma_growth_policy(a: BigInt, b: BigInt)
    requires
        a.bytes().len() == b.bytes().len(),
        le_value(a.bytes()) + le_value(b.bytes()) >= pow256(a.bytes().len()),
    ensures
        !a.discards_carry() && !b.discards_carry() ==> sum_bytes(
            a.bytes(),
            a.discards_carry(),
            b.bytes(),
            b.discards_carry(),
        ).len() == a.bytes().len() + 1,
        a.discards_carry() || b.discards_carry() ==> sum_bytes(
            a.bytes(),
            a.discards_carry(),
            b.bytes(),
            b.discards_carry(),
        ).len() == a.bytes().len(),
{
    let v = le_value(a.bytes()) + le_value(b.bytes());
    lemma_le_bytes_len(v, a.bytes().len() + 1);
    lemma_le_bytes_len(v, a.bytes().len());
}

/// Adding two integers of equal length and equal carry policy gives the same
/// bytes in either order.
pub proof fn lemma_add_commutative(a: BigInt, b: BigInt)
    requires
        a.bytes().len() == b.bytes().len(),
        a.discards_carry() == b.discards_carry(),
    ensures
        sum_bytes(a.bytes(), a.discards_carry(), b.bytes(), b.discards_carry()) == sum_bytes(
            b.bytes(),
            b.discards_carry(),
            a.bytes(),
            a.discards_carry(),
        ),
{
}

/// What the operator returns is stated in the `ensures` of its `add`, not
/// through a spec function here.
impl vstd::std_specs::ops::AddSpecImpl<&BigInt> for &BigInt {
    open spec fn obeys_add_spec() -> bool {
        false
    }

    open spec fn add_req(self, rhs: &BigInt) -> bool {
        true
    }

    open spec fn add_spec(self, rhs: &BigInt) -> BigInt {
        arbitrary()
    }
}

impl core::ops::Add<&BigInt> for &BigInt {
    type Output = BigInt;

    /// Adds two big integers together, byte by byte with carries; the result
    /// takes one more byte for a final carry unless either operand drops it.
    fn add(self, rhs: &BigInt) -> (r: BigInt)
        ensures
            r.bytes() == sum_bytes(
                self.bytes(),
                self.discards_carry(),
                rhs.bytes(),
                rhs.discards_carry(),
            ),
            !r.discards_carry(),
    {
        let ghost a = self.backing@;
        let ghost b = rhs.backing@;
        let max_len = self.backing.len().max(rhs.backing.len());

        let mut out: Vec<u8> = Vec::with_capacity(max_len.saturating_add(1));
        let mut carry: u8 = 0;

        // walk the bytes of both integers, position by position
        let positions = zip_longest_bytes(&self.backing, &rhs.backing);
        let mut i: usize = 0;
        while i < positions.len()
            invariant
                positions@.len() == longer_len(a, b),
                forall|j: int| 0 <= j < positions@.len() ==> positions@[j] == position(a, b, j),
                i <= positions@.len(),
                out@.len() == i,
                carry <= 1,
                le_value(out@) + carry * pow256(i as nat) == le_value(low(a, i as nat)) + le_value(
                    low(b, i as nat),
                ),
            decreases positions@.len() - i,
        {
            // the byte at this position, and how many overflows it took
            let (byte, overflow) = match &positions[i] {
                Position::Both(left, right) => {
                    let (output, overflow_a) = overflowing_add(*left, *right);
                    let (output, overflow_b) = overflowing_add(output, carry);
                    // two overflows count as two, not one
                    (output, overflow_a as u8 + overflow_b as u8)
                },
                Position::Left(single) | Position::Right(single) => {
                    let (output, overflow) = overflowing_add(*single, carry);
                    (output, overflow as u8)
                },
            };
            proof {
                let n = i as nat;
                let p = pow256(n);
                let x = digit(a, n);
                let y = digit(b, n);
                assert(byte + 256 * overflow == x + y + carry);
                lemma_low_step(a, n);
                lemma_low_step(b, n);
                lemma_le_value_push(out@, byte);
                assert(pow256(n + 1) == 256 * p);
                assert(byte * p + overflow * (256 * p) == x * p + y * p + carry * p)
                    by (nonlinear_arith)
                    requires
                        byte + 256 * overflow == x + y + carry,
                ;
            }
            out.push(byte);
            carry = overflow;
            i = i + 1;
        }

        proof {
            let m = longer_len(a, b);
            lemma_low_full(a, m);
            lemma_low_full(b, m);
            lemma_le_value_bound(out@);
            lemma_bytes_of_le_value(out@);
            lemma_pow256_positive(m);
            lemma_le_bytes_mod(le_value(a) + le_value(b), m);
        }
        // keep the final carry unless it is zero or either operand drops it
        if !(carry == 0 || self.discard_carry || rhs.discard_carry) {
            proof {
                lemma_le_value_push(out@, carry);
            }
            out.push(carry);
            proof {
                lemma_bytes_of_le_value(out@);
            }
        } else if carry != 0 {
            proof {
                lemma_fundamental_div_mod_converse(
                    (le_value(a) + le_value(b)) as int,
                    pow256(longer_len(a, b)) as int,
                    1,
                    le_value(out@) as int,
                );
            }
        }
        BigInt::from_backing(out)
    }
}

/// What the operator returns is stated in the `ensures` of its `add`, not
/// through a spec function here.
impl vstd::std_specs::ops::AddSpecImpl<&BigInt> for BigInt {
    open spec fn obeys_add_spec() -> bool {
        false
    }

    open spec fn add_req(self, rhs: &BigInt) -> bool {
        true
    }

    open spec fn add_spec(self, rhs: &BigInt) -> BigInt {
        arbitrary()
    }
}

impl core::ops::Add<&BigInt> for BigInt {
    type Output = BigInt;

    fn add(self, rhs: &BigInt) -> (r: BigInt)
        ensures
            r.bytes() == sum_bytes(
                self.bytes(),
                self.discards_carry(),
                rhs.bytes(),
                rhs.discards_carry(),
            ),
            !r.discards_carry(),
    {
        <&BigInt as core::ops::Add<&BigInt>>::add(&self, rhs)
    }
}

/// What the operator returns is stated in the `ensures` of its `add`, not
/// through a spec function here.
impl vstd::std_specs::ops::AddSpecImpl<BigInt> for &BigInt {
    open spec fn obeys_add_spec() -> bool {
        false
    }

    open spec fn add_req(self, rhs: BigInt) -> bool {
        true
    }

    open spec fn add_spec(self, rhs: BigInt) -> BigInt {
        arbitrary()
    }
}

impl core::ops::Add<BigInt> for &BigInt {
    type Output = BigInt;

    fn add(self, rhs: BigInt) -> (r: BigInt)
        ensures
            r.bytes() == sum_bytes(
                self.bytes(),
                self.discards_carry(),
                rhs.bytes(),
                rhs.discards_carry(),
            ),
            !r.discards_carry(),
    {
        <&BigInt as core::ops::Add<&BigInt>>::add(self, &rhs)
    }
}

/// What the operator returns is stated in the `ensures` of its `add`, not
/// through a spec function here.
impl vstd::std_specs::ops::AddSpecImpl<BigInt> for BigInt {
    open spec fn obeys_add_spec() -> bool {
        false
    }

    open spec fn add_req(self, rhs: BigInt) -> bool {
        true
    }

    open spec fn add_spec(self, rhs: BigInt) -> BigInt {
        arbitrary()
    }
}

impl core::ops::Add<BigInt> for BigInt {
    type Output = BigInt;

    fn add(self, rhs: BigInt) -> (r: BigInt)
        ensures
            r.bytes() == sum_bytes(
                self.bytes(),
                self.discards_carry(),
                rhs.bytes(),
                rhs.discards_carry(),
            ),
            !r.discards_carry(),
    {
        <&BigInt as core::ops::Add<&BigInt>>::add(&self, &rhs)
    }
}

} // verus!
