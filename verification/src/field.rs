//! The BN254 scalar field: its modulus, reduction into the field, random
//! sampling, and the crate's field-element representation.
use vstd::prelude::*;

use ark_ff::{BigInteger, PrimeField};
use num_bigint::{BigInt, RandBigInt, Sign};

verus! {

use vstd::arithmetic::div_mod::lemma_mod_bound;
use crate::bignat::{
    be_val, le_val, BigNat, reverse_bytes, lemma_le_val_reverse, lemma_le_val_zeros,
    lemma_be_val_leading_zero_lt,
};

/// The 32 big-endian bytes of the BN254 scalar-field modulus
/// 21888242871839275222246405745257275088548364400416034343698204186575808495617.
pub open spec fn fr_modulus_be_bytes() -> Seq<u8> {
    seq![
        0x30u8, 0x64, 0x4e, 0x72, 0xe1, 0x31, 0xa0, 0x29, 0xb8, 0x50, 0x45, 0xb6, 0x81, 0x81,
        0x58, 0x5d, 0x28, 0x33, 0xe8, 0x48, 0x79, 0xb9, 0x70, 0x91, 0x43, 0xe1, 0xf5, 0x93,
        0xf0, 0x00, 0x00, 0x01,
    ]
}

/// The BN254 scalar-field modulus, as a natural number.
pub open spec fn bn254_r() -> nat {
    be_val(fr_modulus_be_bytes())
}

/// The modulus is positive.
pub proof fn lemma_modulus_positive()
    ensures
        bn254_r() >= 1,
{
    let s = fr_modulus_be_bytes();
    assert(s.last() == 1);
    assert(be_val(s) == 256 * be_val(s.drop_last()) + 1);
}

/// A 32-byte big-endian buffer whose leading byte is zero denotes an integer
/// strictly below the modulus: the packing scheme never wraps around.
pub proof fn lemma_leading_zero_in_field(s: Seq<u8>)
    requires
        s.len() == 32,
        s[0] == 0,
    ensures
        be_val(s) < bn254_r(),
{
    let m = fr_modulus_be_bytes();
    assert(m.first() == 0x30);
    lemma_be_val_leading_zero_lt(s, m);
}

/// Relies on ark_bn254's scalar field `Fr`: ark_ff exposes its modulus as
/// `PrimeField::MODULUS`, and `BigInteger::to_bytes_be` writes that constant
/// as its 32 big-endian bytes.
#[verifier::external_body]
fn fr_modulus_bytes() -> (r: Vec<u8>)
    ensures
        r@ == fr_modulus_be_bytes(),
{
    <ark_bn254::Fr as PrimeField>::MODULUS.to_bytes_be()
}

/// Relies on num_bigint's `RandBigInt::gen_bigint_range`, which draws a
/// uniformly random integer in `[low, high)` from the given generator and
/// panics unless `low < high`; the generator is the operating system's
/// entropy source.
#[verifier::external_body]
fn os_random_below(bound_be: &Vec<u8>) -> (r: Vec<u8>)
    requires
        be_val(bound_be@) > 0,
    ensures
        be_val(r@) < be_val(bound_be@),
{
    let low = BigInt::from(0u8);
    let high = BigInt::from_bytes_be(Sign::Plus, bound_be.as_slice());
    let sample = rand::rngs::OsRng.gen_bigint_range(&low, &high);
    sample.to_bytes_be().1
}

/// Relies on ark_ff's `PrimeField::from_le_bytes_mod_order`, which reads
/// little-endian bytes and reduces the integer they denote modulo the field
/// modulus, and on `into_bigint`/`to_bytes_le`, which write the reduced value
/// back as its 32 little-endian bytes.
#[verifier::external_body]
fn reduce_le_mod_r(bytes_le: &Vec<u8>) -> (r: Vec<u8>)
    ensures
        r@.len() == 32,
        le_val(r@) == le_val(bytes_le@) % bn254_r(),
{
    let f = <ark_bn254::Fr as PrimeField>::from_le_bytes_mod_order(bytes_le.as_slice());
    f.into_bigint().to_bytes_le()
}

/// One BN254 scalar-field element, stored as its 32 little-endian bytes.
#[derive(Clone, Debug, PartialEq, Eq)]
pub struct FieldElement {
    pub le_bytes: Vec<u8>,
}

impl FieldElement {
    /// The representation is exactly 32 bytes and denotes a value below the
    /// modulus.
    pub open spec fn wf(&self) -> bool {
        self.le_bytes@.len() == 32 && le_val(self.le_bytes@) < bn254_r()
    }

    /// The integer this element represents.
    pub open spec fn value(&self) -> nat {
        le_val(self.le_bytes@)
    }

    /// The field's zero element.
    pub fn zero() -> (r: Self)
        ensures
            r.wf(),
            r.value() == 0,
    {
        let mut b: Vec<u8> = Vec::new();
        for i in 0..32usize
            invariant
                b@.len() == i,
                forall|k: int| 0 <= k < i ==> b@[k] == 0,
        {
            b.push(0);
        }
        proof {
            lemma_le_val_zeros(b@);
            lemma_modulus_positive();
        }
        FieldElement { le_bytes: b }
    }

    /// Reduces an arbitrary-precision integer into the field.
    pub fn from_bignat(n: &BigNat) -> (r: Self)
        ensures
            r.wf(),
            r.value() == n.value() % bn254_r(),
    {
        let le = reverse_bytes(&n.bytes_be);
        proof {
            lemma_le_val_reverse(n.bytes_be@);
        }
        let reduced = reduce_le_mod_r(&le);
        proof {
            lemma_modulus_positive();
            lemma_mod_bound(le_val(le@) as int, bn254_r() as int);
        }
        FieldElement { le_bytes: reduced }
    }
}

/// Draws a uniformly random integer in `[0, r)`, `r` the scalar-field
/// modulus, as an arbitrary-precision integer.
pub fn random_f_bigint() -> (r: BigNat)
    ensures
        r.value() < bn254_r(),
{
    let modulus = fr_modulus_bytes();
    proof {
        lemma_modulus_positive();
    }
    let sample = os_random_below(&modulus);
    BigNat::from_bytes_be(sample)
}

/// Draws a uniformly random field element.
pub fn random_fr() -> (r: FieldElement)
    ensures
        r.wf(),
{
    let n = random_f_bigint();
    FieldElement::from_bignat(&n)
}

} // verus!
