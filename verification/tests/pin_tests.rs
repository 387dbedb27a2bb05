use secure_send::crypto::pin::{
    compute_pin_hint, derive_nostr_transfer_keys, generate_pin, generate_salt, generate_transfer_id,
    hex_lower, is_expired_at, is_valid_pin, now_ms, now_sec, pin_hint_for_bucket, PinError, PinKeyLabel, PinSampler,
    PIN_CHARSET, PIN_LENGTH, SALT_LENGTH, TRANSFER_EXPIRATION_MS,
};

#[test]
fn generated_pin_validates() {
    let pin = generate_pin().unwrap();
    assert_eq!(pin.len(), PIN_LENGTH);
    assert!(is_valid_pin(&pin));
}

#[test]
fn checksum_rejects_typo() {
    let mut pin = generate_pin().unwrap().into_bytes();
    pin[0] = if pin[0] == b'A' { b'B' } else { b'A' };
    assert!(!is_valid_pin(std::str::from_utf8(&pin).unwrap()));
}

#[test]
fn labels_are_domain_separated() {
    let pin = "ABCDEFGHJKL2";
    let salt = [7u8; SALT_LENGTH];
    let keys = derive_nostr_transfer_keys(pin, &salt).unwrap();
    assert_ne!(keys.metadata, keys.signals);
    assert_ne!(keys.signals, keys.p2p_content);
}

#[test]
fn pin_of_wrong_length_or_charset_is_invalid() {
    assert!(!is_valid_pin(""));
    assert!(!is_valid_pin("ABCDEFGHJKL"));
    assert!(!is_valid_pin("ABCDEFGHJKLMN"));
    // 'I' and 'O' are not in the charset.
    assert!(!is_valid_pin("IIIIIIIIIIII"));
    assert!(!is_valid_pin("OOOOOOOOOOOO"));
}

#[test]
fn checksum_is_the_weighted_sum_character() {
    // Eleven 'A's weigh nothing: the checksum is the first charset character.
    assert!(is_valid_pin("AAAAAAAAAAAA"));
    assert!(!is_valid_pin("AAAAAAAAAAAB"));
    // 'B' (index 1) in first position, weight 1: checksum 'B'.
    assert!(is_valid_pin("BAAAAAAAAAAB"));
    // 'B' in second position, weight 2: checksum 'C'.
    assert!(is_valid_pin("ABAAAAAAAAAC"));
    assert!(!is_valid_pin("ABAAAAAAAAAB"));
}

#[test]
fn every_generated_pin_uses_the_charset() {
    for _ in 0..20 {
        let pin = generate_pin().unwrap();
        assert!(pin.chars().all(|c| PIN_CHARSET.contains(&c)));
        assert!(is_valid_pin(&pin));
    }
}

#[test]
fn hex_lower_formats_bytes() {
    assert_eq!(hex_lower(&[]), "");
    assert_eq!(hex_lower(&[0x00, 0x0f, 0xa5, 0xff]), "000fa5ff");
}

#[test]
fn expiry_counts_only_time_past() {
    assert!(!is_expired_at(1_000, 1_000));
    assert!(!is_expired_at(TRANSFER_EXPIRATION_MS, 0));
    assert!(is_expired_at(TRANSFER_EXPIRATION_MS + 1, 0));
    // A creation time in the future is not expired.
    assert!(!is_expired_at(0, u64::MAX));
}

#[test]
fn clock_is_plausible() {
    let ms = now_ms();
    let s = now_sec();
    assert!(ms > 1_600_000_000_000);
    assert!(s >= ms / 1000);
}

#[test]
fn salt_and_transfer_id_shapes() {
    let salt = generate_salt().unwrap();
    assert_eq!(salt.len(), SALT_LENGTH);
    let id = generate_transfer_id().unwrap();
    assert_eq!(id.len(), 16);
    assert!(id.chars().all(|c| c.is_ascii_hexdigit() && !c.is_ascii_uppercase()));
}

#[test]
fn pin_hint_is_sixteen_hex_digits_and_depends_on_bucket() {
    let a = pin_hint_for_bucket("ABCDEFGHJKL2", 100);
    let b = pin_hint_for_bucket("ABCDEFGHJKL2", 101);
    assert_eq!(a.len(), 16);
    assert!(a.chars().all(|c| c.is_ascii_hexdigit()));
    assert_ne!(a, b);
    assert_eq!(a, pin_hint_for_bucket("ABCDEFGHJKL2", 100));
    let now = compute_pin_hint("ABCDEFGHJKL2", 0);
    assert_eq!(now.len(), 16);
}

#[test]
fn short_salt_is_refused() {
    match derive_nostr_transfer_keys("ABCDEFGHJKL2", &[1u8; 15]) {
        Err(PinError::SaltTooShort { expected, actual }) => {
            assert_eq!(expected, 16);
            assert_eq!(actual, 15);
        }
        _ => panic!("expected SaltTooShort"),
    }
}

#[test]
fn key_labels_read_as_their_names() {
    assert_eq!(PinKeyLabel::Metadata.as_str(), "metadata");
    assert_eq!(PinKeyLabel::Signals.as_str(), "signals");
    assert_eq!(PinKeyLabel::P2pContent.as_str(), "p2p-content");
}

#[test]
fn sampler_draws_bytes_below_207_modulo_69() {
    let mut s = PinSampler::new();
    // 207..=255 are rejected; 69 and 138 wrap to 'A'; 1 is 'B'.
    s.feed(&[0, 255, 207, 69, 138, 1]);
    assert!(!s.is_full());
    s.feed(&[2, 3, 4, 5, 6, 7, 8, 9, 10]);
    assert!(s.is_full());
    let pin = s.pin();
    assert!(pin.starts_with("AAABCDEFGHJ"));
    assert!(is_valid_pin(&pin));
    // weighted sum: B*4 + C*5 + D*6 + E*7 + F*8 + G*9 + H*10 + J*11
    // = 4 + 10 + 18 + 28 + 40 + 54 + 70 + 88 = 312, 312 % 69 = 36 -> 'p'
    assert_eq!(pin, "AAABCDEFGHJp");
}

#[test]
fn sampler_stops_at_eleven() {
    let mut s = PinSampler::new();
    s.feed(&[1u8; 30]);
    assert!(s.is_full());
    assert_eq!(s.pin(), "BBBBBBBBBBB.");
}
