//! Little-endian byte strings read as natural numbers.

use vstd::arithmetic::div_mod::{lemma_fundamental_div_mod_converse, lemma_mod_breakdown};
use vstd::prelude::*;

verus! {

/// `256` raised to the power `w`: one more than the largest number that `w` bytes hold.
pub open spec fn pow256(w: nat) -> nat
    decreases w,
{
    if w == 0 {
        1
    } else {
        256 * pow256((w - 1) as nat)
    }
}

/// The number that a byte string stands for, least significant byte first.
pub open spec fn le_value(s: Seq<u8>) -> nat
    decreases s.len(),
{
    if s.len() == 0 {
        0
    } else {
        s[0] as nat + 256 * le_value(s.drop_first())
    }
}

/// The `w` bytes of `n` modulo `256^w`, least significant byte first.
pub open spec fn le_bytes(n: nat, w: nat) -> Seq<u8>
    decreases w,
{
    if w == 0 {
        Seq::empty()
    } else {
        seq![(n % 256) as u8] + le_bytes(n / 256, (w - 1) as nat)
    }
}

pub proof fn lemma_pow256_positive(w: nat)
    ensures
        pow256(w) > 0,
    decreases w,
{
    if w > 0 {
        lemma_pow256_positive((w - 1) as nat);
    }
}

pub proof fn lemma_pow256_monotonic(v: nat, w: nat)
    requires
        v <= w,
    ensures
        pow256(v) <= pow256(w),
    decreases w,
{
    if v < w {
        lemma_pow256_monotonic(v, (w - 1) as nat);
        lemma_pow256_positive((w - 1) as nat);
    }
}

pub proof fn lemma_le_bytes_len(n: nat, w: nat)
    ensures
        le_bytes(n, w).len() == w,
    decreases w,
{
    if w > 0 {
        lemma_le_bytes_len(n / 256, (w - 1) as nat);
    }
}

/// A byte string of length `w` stands for a number below `256^w`.
pub proof fn lemma_le_value_bound(s: Seq<u8>)
    ensures
        le_value(s) < pow256(s.len()),
    decreases s.len(),
{
    if s.len() > 0 {
        lemma_le_value_bound(s.drop_first());
        let r = le_value(s.drop_first());
        let p = pow256(s.drop_first().len());
        assert(s[0] as nat + 256 * r < 256 * p) by (nonlinear_arith)
            requires
                s[0] < 256,
                r < p,
        ;
    }
}

/// Appending a byte adds it at the next power of `256`.
pub proof fn lemma_le_value_push(s: Seq<u8>, x: u8)
    ensures
        le_value(s.push(x)) == le_value(s) + x as nat * pow256(s.len()),
    decreases s.len(),
{
    if s.len() == 0 {
        assert(s.push(x).drop_first() =~= Seq::<u8>::empty());
        assert(le_value(Seq::<u8>::empty()) == 0);
        assert(pow256(0) == 1);
        assert(x as nat * 1 == x as nat);
    } else {
        assert(s.push(x).drop_first() =~= s.drop_first().push(x));
        lemma_le_value_push(s.drop_first(), x);
        let r = le_value(s.drop_first());
        let p = pow256(s.drop_first().len());
        assert(pow256(s.len()) == 256 * p);
        assert(256 * (r + x as nat * p) == 256 * r + x as nat * (256 * p)) by (nonlinear_arith);
    }
}

/// Encoding a number in `w` bytes keeps it modulo `256^w`.
pub proof fn lemma_le_value_of_bytes(n: nat, w: nat)
    ensures
        le_value(le_bytes(n, w)) == n % pow256(w),
    decreases w,
{
    if w == 0 {
        assert(n % 1 == 0);
    } else {
        let s = le_bytes(n, w);
        lemma_le_bytes_len(n, w);
        assert(s.drop_first() =~= le_bytes(n / 256, (w - 1) as nat));
        lemma_le_value_of_bytes(n / 256, (w - 1) as nat);
        lemma_pow256_positive((w - 1) as nat);
        lemma_mod_breakdown(n as int, 256, pow256((w - 1) as nat) as int);
    }
}

/// Reading a byte string and writing it back in as many bytes gives it back.
pub proof fn lemma_bytes_of_le_value(s: Seq<u8>)
    ensures
        le_bytes(le_value(s), s.len()) == s,
    decreases s.len(),
{
    if s.len() == 0 {
        assert(le_bytes(0, 0) =~= s);
    } else {
        let r = le_value(s.drop_first());
        let v = le_value(s);
        lemma_fundamental_div_mod_converse(v as int, 256, r as int, s[0] as int);
        lemma_bytes_of_le_value(s.drop_first());
        assert(le_bytes(v, s.len()) =~= s);
    }
}

/// The bytes of a number are those of its residue modulo `256^w`.
pub proof fn lemma_le_bytes_mod(n: nat, w: nat)
    ensures
        le_bytes(n, w) == le_bytes(n % pow256(w), w),
{
    lemma_le_value_of_bytes(n, w);
    lemma_le_bytes_len(n, w);
    lemma_bytes_of_le_value(le_bytes(n, w));
}

/// Writes the `w` low bytes of `n`, least significant first.
pub fn encode_le(n: u128, w: usize) -> (r: Vec<u8>)
    ensures
        r@ == le_bytes(n as nat, w as nat),
{
    let mut r: Vec<u8> = Vec::with_capacity(w);
    let mut x: u128 = n;
    let mut i: usize = 0;
    while i < w
        invariant
            i <= w,
            le_bytes(n as nat, w as nat) == r@ + le_bytes(x as nat, (w - i) as nat),
        decreases w - i,
    {
        let ghost before = r@;
        r.push((x % 256) as u8);
        assert(le_bytes(x as nat, (w - i) as nat) =~= seq![(x % 256) as u8] + le_bytes(
            (x / 256) as nat,
            (w - (i + 1)) as nat,
        ));
        assert(before + le_bytes(x as nat, (w - i) as nat) =~= r@ + le_bytes(
            (x / 256) as nat,
            (w - (i + 1)) as nat,
        ));
        x = x / 256;
        i = i + 1;
    }
    assert(r@ + le_bytes(x as nat, 0) =~= r@);
    r
}

/// Reads at most sixteen bytes, least significant first, as a number.
pub fn decode_le(b: &[u8]) -> (r: u128)
    requires
        b@.len() <= 16,
    ensures
        r as nat == le_value(b@),
{
    let len = b.len();
    let mut acc: u128 = 0;
    let mut i: usize = len;
    while i > 0
        invariant
            i <= len,
            len == b@.len(),
            len <= 16,
            acc as nat == le_value(b@.subrange(i as int, len as int)),
        decreases i,
    {
        i = i - 1;
        let ghost tail = b@.subrange(i as int, len as int);
        proof {
            assert(tail.drop_first() =~= b@.subrange(i + 1, len as int));
            lemma_le_value_bound(tail.drop_first());
            lemma_pow256_monotonic(tail.len(), 16);
            assert(pow256(16) == 0x1_0000_0000_0000_0000_0000_0000_0000_0000) by {
                reveal_with_fuel(pow256, 17);
            }
        }
        acc = b[i] as u128 + 256 * acc;
    }
    assert(b@.subrange(0, len as int) =~= b@);
    acc
}

} // verus!
