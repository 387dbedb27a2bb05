use secure_send::crypto::aead::{
    decrypt, decrypt_chunk, encrypt, encrypt_chunk, open_sealed, parse_chunk_message, seal_with_nonce,
};

#[test]
fn sealed_bodies_open_under_their_key_only() {
    let key = [1u8; 32];
    let sealed = encrypt(&key, b"hello").unwrap();
    assert_eq!(sealed.len(), 5 + 12 + 16);
    assert_eq!(decrypt(&key, &sealed), Some(b"hello".to_vec()));
    assert_eq!(decrypt(&[2u8; 32], &sealed), None);
    let mut tampered = sealed.clone();
    tampered[20] ^= 1;
    assert_eq!(decrypt(&key, &tampered), None);
    assert_eq!(decrypt(&key, &sealed[..27]), None);
    assert_ne!(encrypt(&key, b"hello").unwrap(), sealed);
}

#[test]
fn sealing_with_a_nonce_is_deterministic() {
    let key = [3u8; 32];
    let nonce = [9u8; 12];
    let a = seal_with_nonce(&key, &nonce, b"data", b"aad").unwrap();
    let b = seal_with_nonce(&key, &nonce, b"data", b"aad").unwrap();
    assert_eq!(a, b);
    assert_eq!(&a[..12], &nonce);
    assert_eq!(open_sealed(&key, &a, b"aad"), Some(b"data".to_vec()));
    assert_eq!(open_sealed(&key, &a, b"other"), None);
    // The empty plaintext seals to nonce and tag only.
    let e = seal_with_nonce(&key, &nonce, b"", b"").unwrap();
    assert_eq!(e.len(), 28);
    assert_eq!(open_sealed(&key, &e, b""), Some(Vec::new()));
}

#[test]
fn chunk_messages_carry_and_authenticate_their_index() {
    let key = [4u8; 32];
    let msg = encrypt_chunk(&key, b"chunk bytes", 0x1234).unwrap();
    assert_eq!(&msg[..2], &[0x12, 0x34]);
    assert_eq!(msg.len(), 11 + 2 + 28);
    let (index, sealed) = parse_chunk_message(&msg).unwrap();
    assert_eq!(index, 0x1234);
    assert_eq!(decrypt_chunk(&key, &sealed, index), Some(b"chunk bytes".to_vec()));
    assert_eq!(decrypt_chunk(&key, &sealed, 0x1235), None);
    assert!(parse_chunk_message(&msg[..29]).is_none());
    assert!(parse_chunk_message(&msg[..30]).is_some());
}
