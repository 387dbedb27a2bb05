use secure_send::crypto::ecdh::{generate_salt, import_public_key, EcdhError, EcdhKeyPair, PUBLIC_KEY_LEN, SALT_LEN};

#[test]
fn both_sides_derive_same_key() {
    let alice = EcdhKeyPair::generate().unwrap();
    let bob = EcdhKeyPair::generate().unwrap();
    let salt = generate_salt().unwrap();

    let ka = alice.derive_aes_key(&bob.public_key_bytes, &salt).unwrap();
    let kb = bob.derive_aes_key(&alice.public_key_bytes, &salt).unwrap();
    assert_eq!(ka, kb);
}

#[test]
fn different_salt_differs() {
    let alice = EcdhKeyPair::generate().unwrap();
    let bob = EcdhKeyPair::generate().unwrap();
    let k1 = alice.derive_aes_key(&bob.public_key_bytes, &[9u8; 16]).unwrap();
    let k2 = alice.derive_aes_key(&bob.public_key_bytes, &[8u8; 16]).unwrap();
    assert_ne!(k1, k2);
}

#[test]
fn rejects_bad_public_key() {
    assert!(import_public_key(&[0u8; 10]).is_err());
    assert!(import_public_key(&[0u8; 65]).is_err()); // prefix != 0x04
}

#[test]
fn import_errors_name_the_problem() {
    assert_eq!(
        import_public_key(&[4u8; 10]).unwrap_err(),
        EcdhError::InvalidPublicKeyLength { expected: PUBLIC_KEY_LEN, actual: 10 }
    );
    assert_eq!(import_public_key(&[0u8; 65]).unwrap_err(), EcdhError::MissingUncompressedPrefix);
    let mut off_curve = [0u8; 65];
    off_curve[0] = 4;
    off_curve[64] = 1;
    assert_eq!(import_public_key(&off_curve).unwrap_err(), EcdhError::PointNotOnCurve);
}

#[test]
fn generated_public_key_imports_back() {
    let kp = EcdhKeyPair::generate().unwrap();
    assert_eq!(kp.public_key_bytes[0], 4);
    let peer = import_public_key(&kp.public_key_bytes).unwrap();
    assert_eq!(peer.as_bytes(), &kp.public_key_bytes);
}

#[test]
fn short_salt_and_bad_peer_are_refused() {
    let alice = EcdhKeyPair::generate().unwrap();
    let bob = EcdhKeyPair::generate().unwrap();
    assert_eq!(
        alice.derive_aes_key(&bob.public_key_bytes, &[1u8; 15]).unwrap_err(),
        EcdhError::SaltTooShort { expected: SALT_LEN, actual: 15 }
    );
    assert_eq!(
        alice.derive_aes_key(&[0u8; 65], &[1u8; 16]).unwrap_err(),
        EcdhError::MissingUncompressedPrefix
    );
}

#[test]
fn salts_are_fresh() {
    let a = generate_salt().unwrap();
    let b = generate_salt().unwrap();
    assert_eq!(a.len(), SALT_LEN);
    assert_ne!(a, b);
}

#[test]
fn public_key_getter_gives_the_public_key_bytes() {
    let a = EcdhKeyPair::generate().unwrap();
    let b = EcdhKeyPair::generate().unwrap();
    assert_eq!(a.public_key(), a.public_key_bytes);
    let salt = [1u8; 16];
    assert_eq!(
        a.derive_aes_key(&b.public_key(), &salt).unwrap(),
        b.derive_aes_key(&a.public_key(), &salt).unwrap()
    );
}

#[test]
fn key_pairs_come_from_valid_scalars_only() {
    assert!(EcdhKeyPair::from_secret([0u8; 32]).is_none());
    assert!(EcdhKeyPair::from_secret([0xffu8; 32]).is_none());
    let mut one = [0u8; 32];
    one[31] = 1;
    let kp = EcdhKeyPair::from_secret(one).unwrap();
    // The public key of scalar 1 is the generator of P-256.
    assert_eq!(kp.public_key()[0], 4);
    assert_eq!(
        &kp.public_key()[1..33],
        &[
            0x6b, 0x17, 0xd1, 0xf2, 0xe1, 0x2c, 0x42, 0x47, 0xf8, 0xbc, 0xe6, 0xe5, 0x63, 0xa4, 0x40, 0xf2, 0x77, 0x03,
            0x7d, 0x81, 0x2d, 0xeb, 0x33, 0xa0, 0xf4, 0xa1, 0x39, 0x45, 0xd8, 0x98, 0xc2, 0x96
        ]
    );
    let b = EcdhKeyPair::generate().unwrap();
    let salt = [2u8; 16];
    assert_eq!(
        kp.derive_aes_key(&b.public_key(), &salt).unwrap(),
        b.derive_aes_key(&kp.public_key(), &salt).unwrap()
    );
}
