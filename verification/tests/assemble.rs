//! Tests for the input assembler: the three step kinds, chaff shape,
//! modular reduction of secrets, and error propagation.
use grapevine_inputs::bignat::BigNat;
use grapevine_inputs::inputs::{
    prepare_external_inputs, serialize_phrase, serialize_username, CircomPrivateInput, InputError,
};
use num_bigint::BigUint;

fn modulus() -> BigUint {
    BigUint::parse_bytes(
        b"21888242871839275222246405745257275088548364400416034343698204186575808495617",
        10,
    )
    .unwrap()
}

fn bignat_of(v: &BigUint) -> BigNat {
    BigNat { bytes_be: v.to_bytes_be() }
}

#[test]
fn test_assemble_genesis_dispatch() {
    let secret = BigUint::from(1234567890u64);
    let record = CircomPrivateInput {
        phrase: Some(b"This is a secret".to_vec()),
        usernames: [None, Some(b"alice".to_vec())],
        auth_secrets: [None, Some(bignat_of(&secret))],
        chaff: false,
    };
    let v = prepare_external_inputs(&record).unwrap();
    assert_eq!(v.len(), 10);

    // Phrase segment: the six encoded chunks, in order.
    let chunks = serialize_phrase(&b"This is a secret".to_vec()).unwrap();
    for i in 0..6 {
        assert_eq!(
            BigUint::from_bytes_le(&v[i].le_bytes),
            BigUint::from_bytes_be(&chunks[i].bytes_be)
        );
    }

    // Username segment: zero for the absent prior, then the current one.
    assert_eq!(BigUint::from_bytes_le(&v[6].le_bytes), BigUint::from(0u8));
    let alice = serialize_username(&b"alice".to_vec()).unwrap();
    assert_eq!(
        BigUint::from_bytes_le(&v[7].le_bytes),
        BigUint::from_bytes_be(&alice.bytes_be)
    );

    // Secret segment: zero, then the secret reduced into the field.
    assert_eq!(BigUint::from_bytes_le(&v[8].le_bytes), BigUint::from(0u8));
    assert_eq!(BigUint::from_bytes_le(&v[9].le_bytes), secret % modulus());
}

#[test]
fn test_assemble_interior_dispatch() {
    let s0 = BigUint::from(7u8);
    let s1 = BigUint::from(11u8);
    let record = CircomPrivateInput {
        phrase: None,
        usernames: [Some(b"alice".to_vec()), Some(b"bob".to_vec())],
        auth_secrets: [Some(bignat_of(&s0)), Some(bignat_of(&s1))],
        chaff: false,
    };
    let v = prepare_external_inputs(&record).unwrap();
    assert_eq!(v.len(), 10);

    let r = modulus();
    for i in 0..6 {
        assert!(BigUint::from_bytes_le(&v[i].le_bytes) < r);
    }
    let alice = serialize_username(&b"alice".to_vec()).unwrap();
    let bob = serialize_username(&b"bob".to_vec()).unwrap();
    assert_eq!(
        BigUint::from_bytes_le(&v[6].le_bytes),
        BigUint::from_bytes_be(&alice.bytes_be)
    );
    assert_eq!(
        BigUint::from_bytes_le(&v[7].le_bytes),
        BigUint::from_bytes_be(&bob.bytes_be)
    );
    assert_eq!(BigUint::from_bytes_le(&v[8].le_bytes), s0);
    assert_eq!(BigUint::from_bytes_le(&v[9].le_bytes), s1);
}

#[test]
fn test_assemble_reduces_large_secret() {
    // A secret at the modulus plus five must come out as five: the encoder
    // reduces, never passes a value through unreduced.
    let secret = modulus() + BigUint::from(5u8);
    let record = CircomPrivateInput {
        phrase: None,
        usernames: [None, Some(b"alice".to_vec())],
        auth_secrets: [None, Some(bignat_of(&secret))],
        chaff: false,
    };
    let v = prepare_external_inputs(&record).unwrap();
    assert_eq!(BigUint::from_bytes_le(&v[9].le_bytes), BigUint::from(5u8));
}

#[test]
fn test_assemble_chaff_shape() {
    let record = CircomPrivateInput::empty(true);
    let first = prepare_external_inputs(&record).unwrap();
    let second = prepare_external_inputs(&record).unwrap();
    assert_eq!(first.len(), 10);
    assert_eq!(second.len(), 10);
    let r = modulus();
    for fe in &first {
        assert_eq!(fe.le_bytes.len(), 32);
        assert!(BigUint::from_bytes_le(&fe.le_bytes) < r);
    }
    // Random chaff: two assemblies agree only with negligible probability.
    assert_ne!(first, second);
}

#[test]
fn test_assemble_rejects_long_phrase() {
    let record = CircomPrivateInput {
        phrase: Some(vec![b'a'; 181]),
        usernames: [None, Some(b"alice".to_vec())],
        auth_secrets: [None, Some(BigNat::zero())],
        chaff: false,
    };
    assert_eq!(prepare_external_inputs(&record), Err(InputError::LengthExceeded));
}

#[test]
fn test_assemble_rejects_long_username() {
    let record = CircomPrivateInput {
        phrase: None,
        usernames: [Some(b"alice".to_vec()), Some(vec![b'u'; 31])],
        auth_secrets: [Some(BigNat::zero()), Some(BigNat::zero())],
        chaff: false,
    };
    assert_eq!(prepare_external_inputs(&record), Err(InputError::LengthExceeded));
}

#[test]
fn test_empty_and_uninitialized() {
    let empty_chaff = CircomPrivateInput::empty(true);
    assert!(empty_chaff.phrase.is_none());
    assert!(empty_chaff.usernames.iter().all(|u| u.is_none()));
    assert!(empty_chaff.auth_secrets.iter().all(|s| s.is_none()));
    assert!(empty_chaff.chaff);
    assert!(!empty_chaff.uninitialized());

    let empty_plain = CircomPrivateInput::empty(false);
    assert!(empty_plain.uninitialized());

    let with_data = CircomPrivateInput {
        phrase: None,
        usernames: [None, Some(b"alice".to_vec())],
        auth_secrets: [None, Some(BigNat::zero())],
        chaff: false,
    };
    assert!(!with_data.uninitialized());
}
