//! The input-encoding subsystem: fixed-width encoding of phrases and
//! usernames into field elements, and assembly of one step's external-input
//! vector for the circuit.
use vstd::prelude::*;

verus! {

use vstd::arithmetic::div_mod::lemma_small_mod;
use vstd::array::array_index_get;
use crate::bignat::{be_val, BigNat};
use crate::field::{bn254_r, lemma_leading_zero_in_field, random_fr, FieldElement};
use crate::{MAX_SECRET_LENGTH, MAX_USERNAME_LENGTH, SECRET_FIELD_LENGTH};

/// The error an encoding operation reports.
#[derive(Clone, Copy, Debug, PartialEq, Eq, Structural)]
pub enum InputError {
    /// A phrase was longer than `MAX_SECRET_LENGTH` bytes, or a username
    /// longer than `MAX_USERNAME_LENGTH` bytes.
    LengthExceeded,
}

/// One step's raw, pre-encoding input.
///
/// Slot 0 of `usernames` and `auth_secrets` is the prior identity, slot 1 the
/// current one; a genesis step leaves slot 0 empty, a chaff step leaves
/// everything empty and sets `chaff`.
#[derive(Clone, Debug)]
pub struct CircomPrivateInput {
    /// The secret phrase's bytes, present only on the step that reveals it.
    pub phrase: Option<Vec<u8>>,
    /// The prior and current usernames' bytes.
    pub usernames: [Option<Vec<u8>>; 2],
    /// The prior and current secret values, parallel to `usernames`.
    pub auth_secrets: [Option<BigNat>; 2],
    /// Marks a padding step that carries no real data.
    pub chaff: bool,
}

impl CircomPrivateInput {
    /// A filled slot 0 demands a filled slot 1: the prior identity exists
    /// only as the predecessor of a current one.
    pub open spec fn slots_wf(&self) -> bool {
        &&& (self.usernames[0] is Some ==> self.usernames[1] is Some)
        &&& (self.auth_secrets[0] is Some ==> self.auth_secrets[1] is Some)
    }

    /// Every present phrase and username is within the encoder's byte
    /// limits.
    pub open spec fn lengths_ok(&self) -> bool {
        &&& (self.phrase matches Some(p) ==> p@.len() <= MAX_SECRET_LENGTH)
        &&& (forall|k: int|
            0 <= k < 2 ==> ((#[trigger] self.usernames[k]) matches Some(u) ==> u@.len()
                <= MAX_USERNAME_LENGTH))
    }

    /// Creates empty inputs; `chaff` marks a padding step whose encoding is
    /// filled with random elements.
    pub fn empty(chaff: bool) -> (r: Self)
        ensures
            r.phrase is None,
            r.usernames[0] is None,
            r.usernames[1] is None,
            r.auth_secrets[0] is None,
            r.auth_secrets[1] is None,
            r.chaff == chaff,
    {
        CircomPrivateInput {
            phrase: None,
            usernames: [None, None],
            auth_secrets: [None, None],
            chaff,
        }
    }

    /// True when the record carries no data yet is not marked as chaff.
    pub fn uninitialized(&self) -> (r: bool)
        ensures
            r == (self.phrase is None && self.usernames[0] is None && self.usernames[1] is None
                && self.auth_secrets[0] is None && self.auth_secrets[1] is None && !self.chaff),
    {
        let not_chaff = self.phrase.is_none() && array_index_get(&self.usernames, 0).is_none()
            && array_index_get(&self.usernames, 1).is_none()
            && array_index_get(&self.auth_secrets, 0).is_none()
            && array_index_get(&self.auth_secrets, 1).is_none();
        not_chaff && !self.chaff
    }
}

/// Bytes of phrase chunk `i`: a zero byte, then phrase bytes
/// `31·i .. 31·(i+1)`, zero-padded past the phrase's end.
pub open spec fn phrase_chunk(s: Seq<u8>, i: int) -> Seq<u8>
    recommends
        0 <= i,
{
    Seq::new(
        32,
        |j: int|
            if 1 <= j && 31 * i + j - 1 < s.len() {
                s[31 * i + j - 1]
            } else {
                0u8
            },
    )
}

/// Bytes of an encoded username: a zero byte, then the username's bytes,
/// zero-padded to 32.
pub open spec fn username_bytes(s: Seq<u8>) -> Seq<u8> {
    Seq::new(
        32,
        |j: int|
            if 1 <= j && j - 1 < s.len() {
                s[j - 1]
            } else {
                0u8
            },
    )
}

/// No modular wraparound: every phrase chunk denotes a value strictly below
/// the field modulus, whatever the phrase holds.
pub proof fn lemma_phrase_chunk_in_field(s: Seq<u8>, i: int)
    ensures
        be_val(phrase_chunk(s, i)) < bn254_r(),
{
    lemma_leading_zero_in_field(phrase_chunk(s, i));
}

/// No modular wraparound: an encoded username denotes a value strictly below
/// the field modulus, whatever the username holds.
pub proof fn lemma_username_bytes_in_field(s: Seq<u8>)
    ensures
        be_val(username_bytes(s)) < bn254_r(),
{
    lemma_leading_zero_in_field(username_bytes(s));
}

/// Splits a phrase of at most `MAX_SECRET_LENGTH` bytes into
/// `SECRET_FIELD_LENGTH` chunks of 31 raw bytes, each packed big-endian
/// behind a leading zero byte.
pub fn serialize_phrase(phrase: &Vec<u8>) -> (r: Result<Vec<BigNat>, InputError>)
    ensures
        match r {
            Ok(chunks) => phrase@.len() <= MAX_SECRET_LENGTH && chunks@.len()
                == SECRET_FIELD_LENGTH && forall|i: int|
                0 <= i < SECRET_FIELD_LENGTH ==> (#[trigger] chunks@[i]).bytes_be@
                    == phrase_chunk(phrase@, i),
            Err(e) => phrase@.len() > MAX_SECRET_LENGTH && e == InputError::LengthExceeded,
        },
{
    if phrase.len() > MAX_SECRET_LENGTH {
        return Err(InputError::LengthExceeded);
    }
    let mut chunks: Vec<BigNat> = Vec::new();
    for i in 0..SECRET_FIELD_LENGTH
        invariant
            chunks@.len() == i,
            forall|k: int|
                0 <= k < i ==> (#[trigger] chunks@[k]).bytes_be@ == phrase_chunk(phrase@, k),
    {
        let start: usize = i * 31;
        let mut chunk: Vec<u8> = Vec::new();
        chunk.push(0);
        for j in 0..31usize
            invariant
                start == i * 31,
                i < SECRET_FIELD_LENGTH,
                chunk@.len() == j + 1,
                forall|t: int| 0 <= t < j + 1 ==> chunk@[t] == phrase_chunk(phrase@, i as int)[t],
        {
            if start + j < phrase.len() {
                chunk.push(phrase[start + j]);
            } else {
                chunk.push(0);
            }
        }
        proof {
            assert(chunk@ =~= phrase_chunk(phrase@, i as int));
        }
        chunks.push(BigNat { bytes_be: chunk });
    }
    Ok(chunks)
}

/// Determinism of the phrase encoding: any two chunk sequences that the
/// contract of `serialize_phrase` admits for the same phrase are equal,
/// byte for byte — the encoding is a pure function of the phrase's bytes.
pub proof fn lemma_serialize_phrase_deterministic(p: Seq<u8>, a: Seq<BigNat>, b: Seq<BigNat>)
    requires
        a.len() == SECRET_FIELD_LENGTH,
        b.len() == SECRET_FIELD_LENGTH,
        forall|i: int|
            0 <= i < SECRET_FIELD_LENGTH ==> (#[trigger] a[i]).bytes_be@ == phrase_chunk(p, i),
        forall|i: int|
            0 <= i < SECRET_FIELD_LENGTH ==> (#[trigger] b[i]).bytes_be@ == phrase_chunk(p, i),
    ensures
        forall|i: int|
            0 <= i < SECRET_FIELD_LENGTH ==> (#[trigger] a[i]).bytes_be@ == b[i].bytes_be@,
{
}

/// Packs a username of at most `MAX_USERNAME_LENGTH` bytes into one 32-byte
/// big-endian buffer behind a leading zero byte.
pub fn serialize_username(username: &Vec<u8>) -> (r: Result<BigNat, InputError>)
    ensures
        match r {
            Ok(b) => username@.len() <= MAX_USERNAME_LENGTH && b.bytes_be@
                == username_bytes(username@),
            Err(e) => username@.len() > MAX_USERNAME_LENGTH && e == InputError::LengthExceeded,
        },
{
    if username.len() > MAX_USERNAME_LENGTH {
        return Err(InputError::LengthExceeded);
    }
    let mut bytes: Vec<u8> = Vec::new();
    bytes.push(0);
    for j in 0..31usize
        invariant
            username@.len() <= MAX_USERNAME_LENGTH,
            bytes@.len() == j + 1,
            forall|t: int| 0 <= t < j + 1 ==> bytes@[t] == username_bytes(username@)[t],
    {
        if j < username.len() {
            bytes.push(username[j]);
        } else {
            bytes.push(0);
        }
    }
    proof {
        assert(bytes@ =~= username_bytes(username@));
    }
    Ok(BigNat { bytes_be: bytes })
}

/// The initial IVC state: four zero field elements.
pub fn get_z0() -> (r: Vec<FieldElement>)
    ensures
        r@.len() == 4,
        forall|i: int| 0 <= i < 4 ==> (#[trigger] r@[i]).wf() && r@[i].value() == 0,
{
    let mut z: Vec<FieldElement> = Vec::new();
    for i in 0..4usize
        invariant
            z@.len() == i,
            forall|k: int| 0 <= k < i ==> (#[trigger] z@[k]).wf() && z@[k].value() == 0,
    {
        z.push(FieldElement::zero());
    }
    z
}

/// Assembles one step's external-input vector: six phrase chunks, the two
/// usernames, the two secrets, in that order, each reduced into the field.
/// Slots that carry no data are filled as the step kind demands: a genesis
/// step puts zero in slot 0, a chaff step draws random elements.
pub fn prepare_external_inputs(inputs: &CircomPrivateInput) -> (r: Result<
    Vec<FieldElement>,
    InputError,
>)
    requires
        inputs.slots_wf(),
    ensures
        match r {
            Ok(v) => {
                &&& inputs.lengths_ok()
                &&& v@.len() == 10
                &&& (forall|i: int| 0 <= i < 10 ==> (#[trigger] v@[i]).wf())
                &&& (inputs.phrase matches Some(p) ==> (forall|i: int|
                    0 <= i < 6 ==> (#[trigger] v@[i]).value() == be_val(phrase_chunk(p@, i))))
                &&& (inputs.usernames[0] matches Some(u0) ==> v@[6].value() == be_val(
                    username_bytes(u0@),
                ))
                &&& (inputs.usernames[0] is Some ==> (inputs.usernames[1] matches Some(u1)
                    ==> v@[7].value() == be_val(username_bytes(u1@))))
                &&& (inputs.usernames[0] is None ==> (inputs.usernames[1] matches Some(u1)
                    ==> v@[6].value() == 0 && v@[7].value() == be_val(username_bytes(u1@))))
                &&& (inputs.auth_secrets[0] matches Some(s0) ==> v@[8].value() == s0.value()
                    % bn254_r())
                &&& (inputs.auth_secrets[0] is Some ==> (inputs.auth_secrets[1] matches Some(s1)
                    ==> v@[9].value() == s1.value() % bn254_r()))
                &&& (inputs.auth_secrets[0] is None ==> (inputs.auth_secrets[1] matches Some(s1)
                    ==> v@[8].value() == 0 && v@[9].value() == s1.value() % bn254_r()))
            },
            Err(e) => !inputs.lengths_ok() && e == InputError::LengthExceeded,
        },
{
    let mut out: Vec<FieldElement> = Vec::new();

    // Phrase segment: encode it when present, else chaff.
    match &inputs.phrase {
        Some(p) => {
            let chunks = match serialize_phrase(p) {
                Ok(c) => c,
                Err(e) => {
                    return Err(e);
                },
            };
            for i in 0..SECRET_FIELD_LENGTH
                invariant
                    out@.len() == i,
                    chunks@.len() == SECRET_FIELD_LENGTH,
                    inputs.phrase matches Some(q) && q@ == p@,
                    forall|k: int|
                        0 <= k < SECRET_FIELD_LENGTH ==> (#[trigger] chunks@[k]).bytes_be@
                            == phrase_chunk(p@, k),
                    forall|k: int|
                        0 <= k < i ==> (#[trigger] out@[k]).wf() && out@[k].value() == be_val(
                            phrase_chunk(p@, k),
                        ),
            {
                let fe = FieldElement::from_bignat(&chunks[i]);
                proof {
                    lemma_phrase_chunk_in_field(p@, i as int);
                    lemma_small_mod(be_val(phrase_chunk(p@, i as int)), bn254_r());
                }
                out.push(fe);
            }
        },
        None => {
            for i in 0..SECRET_FIELD_LENGTH
                invariant
                    out@.len() == i,
                    forall|k: int| 0 <= k < i ==> (#[trigger] out@[k]).wf(),
            {
                out.push(random_fr());
            }
        },
    }

    // Username segment: prior and current, genesis, or chaff.
    match (array_index_get(&inputs.usernames, 0), array_index_get(&inputs.usernames, 1)) {
        (Some(u0), Some(u1)) => {
            let e0 = match serialize_username(u0) {
                Ok(b) => b,
                Err(e) => {
                    return Err(e);
                },
            };
            let e1 = match serialize_username(u1) {
                Ok(b) => b,
                Err(e) => {
                    return Err(e);
                },
            };
            proof {
                lemma_username_bytes_in_field(u0@);
                lemma_username_bytes_in_field(u1@);
                lemma_small_mod(be_val(username_bytes(u0@)), bn254_r());
                lemma_small_mod(be_val(username_bytes(u1@)), bn254_r());
            }
            out.push(FieldElement::from_bignat(&e0));
            out.push(FieldElement::from_bignat(&e1));
        },
        (None, Some(u1)) => {
            let e1 = match serialize_username(u1) {
                Ok(b) => b,
                Err(e) => {
                    return Err(e);
                },
            };
            proof {
                lemma_username_bytes_in_field(u1@);
                lemma_small_mod(be_val(username_bytes(u1@)), bn254_r());
            }
            out.push(FieldElement::zero());
            out.push(FieldElement::from_bignat(&e1));
        },
        (None, None) => {
            out.push(random_fr());
            out.push(random_fr());
        },
        (Some(_), None) => {
            proof {
                assert(false);
            }
        },
    }

    // Secret segment: the secrets are already field-sized integers; reduce
    // them into the field without byte-packing.
    match (array_index_get(&inputs.auth_secrets, 0), array_index_get(&inputs.auth_secrets, 1)) {
        (Some(s0), Some(s1)) => {
            out.push(FieldElement::from_bignat(s0));
            out.push(FieldElement::from_bignat(s1));
        },
        (None, Some(s1)) => {
            out.push(FieldElement::zero());
            out.push(FieldElement::from_bignat(s1));
        },
        (None, None) => {
            out.push(random_fr());
            out.push(random_fr());
        },
        (Some(_), None) => {
            proof {
                assert(false);
            }
        },
    }

    Ok(out)
}

} // verus!

