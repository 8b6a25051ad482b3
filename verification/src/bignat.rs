//! Arbitrary-precision unsigned integers held as byte sequences, with the
//! big-endian and little-endian value interpretations the contracts use.
use vstd::prelude::*;

verus! {

use vstd::arithmetic::power::{pow, lemma_pow_positive, lemma_pow_adds, lemma_pow0, lemma_pow1};

/// Value of a byte sequence read as a big-endian unsigned integer.
pub open spec fn be_val(s: Seq<u8>) -> nat
    decreases s.len(),
{
    if s.len() == 0 {
        0
    } else {
        (256 * be_val(s.drop_last()) + s.last()) as nat
    }
}

/// Value of a byte sequence read as a little-endian unsigned integer.
pub open spec fn le_val(s: Seq<u8>) -> nat
    decreases s.len(),
{
    if s.len() == 0 {
        0
    } else {
        (s.first() + 256 * le_val(s.drop_first())) as nat
    }
}

/// A big-endian byte value is below 256 to the number of its digits.
pub proof fn lemma_be_val_bound(s: Seq<u8>)
    ensures
        be_val(s) < pow(256, s.len()),
    decreases s.len(),
{
    if s.len() == 0 {
        lemma_pow0(256);
    } else {
        lemma_be_val_bound(s.drop_last());
        lemma_pow_adds(256, (s.len() - 1) as nat, 1);
        lemma_pow1(256);
        assert(pow(256, s.len()) == 256 * pow(256, (s.len() - 1) as nat));
    }
}

/// Peels the most significant byte off a big-endian value.
pub proof fn lemma_be_val_first(s: Seq<u8>)
    requires
        s.len() > 0,
    ensures
        be_val(s) == s.first() * pow(256, (s.len() - 1) as nat) + be_val(s.drop_first()),
    decreases s.len(),
{
    if s.len() == 1 {
        assert(s.drop_last().len() == 0);
        assert(s.drop_first().len() == 0);
        assert(be_val(s.drop_last()) == 0);
        assert(be_val(s.drop_first()) == 0);
        assert(s.first() == s.last());
        lemma_pow0(256);
    } else {
        let d = s.drop_last();
        lemma_be_val_first(d);
        assert(d.drop_first() =~= s.drop_first().drop_last());
        assert(s.drop_first().last() == s.last());
        let n = s.len();
        let p = pow(256, (n - 2) as nat);
        lemma_pow_adds(256, (n - 2) as nat, 1);
        lemma_pow1(256);
        assert(pow(256, (n - 1) as nat) == 256 * p);
        assert(256 * (s.first() * p + be_val(d.drop_first())) + s.last() == s.first() * (256 * p)
            + (256 * be_val(d.drop_first()) + s.last())) by (nonlinear_arith);
    }
}

/// Reversing a byte sequence swaps the two interpretations.
pub proof fn lemma_le_val_reverse(s: Seq<u8>)
    ensures
        le_val(s.reverse()) == be_val(s),
    decreases s.len(),
{
    if s.len() == 0 {
        assert(s.reverse() =~= s);
    } else {
        let r = s.reverse();
        assert(r.first() == s.last());
        assert(r.drop_first() =~= s.drop_last().reverse());
        lemma_le_val_reverse(s.drop_last());
    }
}

/// A sequence of zero bytes has value zero under either interpretation.
pub proof fn lemma_le_val_zeros(s: Seq<u8>)
    requires
        forall|i: int| 0 <= i < s.len() ==> s[i] == 0,
    ensures
        le_val(s) == 0,
    decreases s.len(),
{
    if s.len() > 0 {
        lemma_le_val_zeros(s.drop_first());
    }
}

/// If two equally long big-endian values share a most significant byte of
/// zero in one and a nonzero one in the other, the first is smaller.
pub proof fn lemma_be_val_leading_zero_lt(s: Seq<u8>, t: Seq<u8>)
    requires
        s.len() == t.len(),
        s.len() > 0,
        s.first() == 0,
        t.first() > 0,
    ensures
        be_val(s) < be_val(t),
{
    let p = pow(256, (s.len() - 1) as nat);
    lemma_be_val_first(s);
    lemma_be_val_first(t);
    lemma_be_val_bound(s.drop_first());
    lemma_pow_positive(256, (s.len() - 1) as nat);
    assert(be_val(s) == be_val(s.drop_first()));
    assert(be_val(s.drop_first()) < p);
    assert(t.first() * p >= 1 * p) by (nonlinear_arith)
        requires
            t.first() >= 1,
            p > 0,
    ;
}

/// An unsigned arbitrary-precision integer, stored as its big-endian bytes.
/// Leading zero bytes are allowed and do not change the value.
#[derive(Clone, Debug, PartialEq, Eq)]
pub struct BigNat {
    pub bytes_be: Vec<u8>,
}

impl BigNat {
    /// The integer this byte string denotes.
    pub open spec fn value(&self) -> nat {
        be_val(self.bytes_be@)
    }

    /// The integer zero, as an empty byte string.
    pub fn zero() -> (r: Self)
        ensures
            r.value() == 0,
    {
        BigNat { bytes_be: Vec::new() }
    }

    /// Wraps big-endian bytes without copying them.
    pub fn from_bytes_be(bytes: Vec<u8>) -> (r: Self)
        ensures
            r.bytes_be@ == bytes@,
            r.value() == be_val(bytes@),
    {
        BigNat { bytes_be: bytes }
    }
}

/// Copies a byte vector in reverse order.
pub fn reverse_bytes(src: &Vec<u8>) -> (r: Vec<u8>)
    ensures
        r@ == src@.reverse(),
{
    let n = src.len();
    let mut out: Vec<u8> = Vec::new();
    for i in 0..n
        invariant
            n == src@.len(),
            out@.len() == i,
            forall|k: int| 0 <= k < i ==> out@[k] == src@[n - 1 - k],
    {
        out.push(src[n - 1 - i]);
    }
    proof {
        assert(out@ =~= src@.reverse());
    }
    out
}

} // verus!
