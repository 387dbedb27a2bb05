use secure_send::crypto::aead::encrypt;
use secure_send::signaling::nostr::{
    ack_body, candidate_signal, check_ack_body, create_authenticated_ack_event, create_pin_exchange_event,
    create_signal_event, data_kind, default_relays_vec, parse_ack_event, parse_pin_exchange_event,
    parse_signal_event, pin_exchange_event_at, pin_exchange_kind, signal_envelope, signal_from_envelope, tag_value, EventData, Signal,
    SignalEnvelope, TagData,
};

#[test]
fn kinds_and_relays() {
    assert_eq!(data_kind(), 24242);
    assert_eq!(pin_exchange_kind(), 24243);
    let relays = default_relays_vec();
    assert_eq!(relays.len(), 6);
    assert_eq!(relays[0], "wss://relay.damus.io");
    assert!(relays.iter().all(|r| r.starts_with("wss://")));
}

#[test]
fn pin_exchange_event_round_trips() {
    let payload = vec![1u8, 2, 3, 250, 251];
    let salt = [9u8; 16];
    let event = create_pin_exchange_event(&payload, &salt, "0011223344556677", "abcdef0123456789");
    assert_eq!(event.kind, 24243);
    assert_eq!(event.content, "AQID+vs=");
    assert_eq!(tag_value(&event, "type").as_deref(), Some("pin_exchange"));
    assert!(tag_value(&event, "expiration").unwrap().parse::<u64>().is_ok());
    let (hint, s, t, p) = parse_pin_exchange_event(&event).unwrap();
    assert_eq!(hint, "abcdef0123456789");
    assert_eq!(s, salt.to_vec());
    assert_eq!(t, "0011223344556677");
    assert_eq!(p, payload);
}

#[test]
fn pin_exchange_event_needs_its_parts() {
    let mut event = create_pin_exchange_event(&[1], &[2], "t", "h");
    event.kind = 24242;
    assert!(parse_pin_exchange_event(&event).is_none());
    let mut event = create_pin_exchange_event(&[1], &[2], "t", "h");
    event.content = "not base64!".to_string();
    assert!(parse_pin_exchange_event(&event).is_none());
    let mut event = create_pin_exchange_event(&[1], &[2], "t", "h");
    event.tags.retain(|t| t.name != "s");
    assert!(parse_pin_exchange_event(&event).is_none());
}

#[test]
fn ack_event_round_trips() {
    let key = [5u8; 32];
    let body = b"{\"type\":\"ack\"}".to_vec();
    let sealed = encrypt(&key, &body).unwrap();
    assert_eq!(sealed.len(), body.len() + 28);
    let event = create_authenticated_ack_event("ab".repeat(32).as_str(), "tid", 0, &sealed, Some("hint"));
    assert_eq!(event.kind, 24242);
    assert_eq!(tag_value(&event, "seq").as_deref(), Some("0"));
    assert_eq!(tag_value(&event, "h").as_deref(), Some("hint"));
    assert_eq!(parse_ack_event(&event, &key, "tid", 0), Some(body.clone()));
    assert_eq!(parse_ack_event(&event, &[6u8; 32], "tid", 0), None);
    assert_eq!(parse_ack_event(&event, &key, "other", 0), None);
    assert_eq!(parse_ack_event(&event, &key, "tid", 1), None);
    let negative = create_authenticated_ack_event("p", "tid", -5, &sealed, None);
    assert_eq!(tag_value(&negative, "seq").as_deref(), Some("-5"));
    assert_eq!(tag_value(&negative, "h"), None);
    assert_eq!(parse_ack_event(&negative, &key, "tid", -5), Some(body));
    let unsealed = create_authenticated_ack_event("p", "tid", 0, &[1, 2, 3], None);
    assert_eq!(parse_ack_event(&unsealed, &key, "tid", 0), None);
}

#[test]
fn ack_body_checks() {
    let body = ack_body("tid", 0);
    assert_eq!(body.payload_type, "ack");
    assert!(check_ack_body(&body, "tid", 0));
    assert!(!check_ack_body(&body, "tid", 1));
    assert!(!check_ack_body(&body, "x", 0));
}

#[test]
fn signal_event_round_trips() {
    let key = [7u8; 32];
    let env = vec![0u8, 255, 128];
    let sealed = encrypt(&key, &env).unwrap();
    let event = create_signal_event("pk", "tid", &sealed);
    assert_eq!(tag_value(&event, "type").as_deref(), Some("signal"));
    assert_eq!(tag_value(&event, "p").as_deref(), Some("pk"));
    assert_eq!(parse_signal_event(&event, &key, "tid"), Some(env));
    assert_eq!(parse_signal_event(&event, &key, "other"), None);
    assert_eq!(parse_signal_event(&event, &[0u8; 32], "tid"), None);
}

#[test]
fn tag_value_takes_first_named_tag() {
    let event = EventData {
        kind: 1,
        content: String::new(),
        tags: vec![
            TagData { name: "x".to_string(), content: None },
            TagData { name: "t".to_string(), content: Some("first".to_string()) },
            TagData { name: "t".to_string(), content: Some("second".to_string()) },
        ],
    };
    assert_eq!(tag_value(&event, "t").as_deref(), Some("first"));
    assert_eq!(tag_value(&event, "x"), None);
    assert_eq!(tag_value(&event, "y"), None);
}

#[test]
fn signal_envelopes() {
    let env = signal_envelope(Signal::Offer { sdp: "v=0".to_string() });
    assert_eq!(env.payload_type, "signal");
    assert!(matches!(signal_from_envelope(env), Some(Signal::Offer { ref sdp }) if sdp == "v=0"));
    let other = SignalEnvelope { payload_type: "ack".to_string(), signal: Signal::Answer { sdp: String::new() } };
    assert!(signal_from_envelope(other).is_none());
    match candidate_signal("candidate:1 1 udp 1 1.2.3.4 5 typ host") {
        Signal::Candidate { candidate: Some(c) } => {
            assert_eq!(c.candidate, "candidate:1 1 udp 1 1.2.3.4 5 typ host");
            assert_eq!(c.sdp_mid.as_deref(), Some("0"));
            assert_eq!(c.sdp_m_line_index, Some(0));
        }
        _ => panic!("expected a candidate"),
    }
}

#[test]
fn pin_exchange_event_expires_one_hour_after_publication() {
    let event = pin_exchange_event_at(&[1], &[2; 16], "tid", "hint", 1_700_000_000);
    assert_eq!(tag_value(&event, "expiration").as_deref(), Some("1700003600"));
    let names: Vec<&str> = event.tags.iter().map(|t| t.name.as_str()).collect();
    assert_eq!(names, vec!["h", "s", "t", "type", "expiration"]);
    assert_eq!(tag_value(&event, "s").as_deref(), Some("AgICAgICAgICAgICAgICAg=="));
}
