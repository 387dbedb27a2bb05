use secure_send::crypto::pin::TRANSFER_EXPIRATION_MS;
use secure_send::signaling::nostr::{candidate_signal, create_pin_exchange_event, EventData, Signal};
use secure_send::webrtc::{
    advertise_max_message_size, check_incoming_size, check_outgoing_size, newest_first_order, open_exchange_payload,
    receiver_candidate, ExchangeCandidate, ExchangeSearch, ExchangeSearchError, ReceiverSignals, SeenEvents,
    SenderSignalAction, SenderSignals, SizeError,
};

#[test]
fn sdp_gets_message_size_after_sctp_port() {
    let sdp = "v=0\r\nm=application 9 UDP/DTLS/SCTP webrtc-datachannel\r\na=sctp-port:5000\r\na=setup:actpass\r\n";
    let out = advertise_max_message_size(sdp.to_string());
    assert_eq!(
        out,
        "v=0\r\nm=application 9 UDP/DTLS/SCTP webrtc-datachannel\r\na=sctp-port:5000\r\na=max-message-size:262144\r\na=setup:actpass\r\n"
    );
    assert_eq!(advertise_max_message_size(out.clone()), out);
}

#[test]
fn sdp_without_sctp_or_with_size_is_unchanged() {
    let plain = "v=0\r\nm=audio 9\r\n";
    assert_eq!(advertise_max_message_size(plain.to_string()), plain);
    let sized = "v=0\r\na=sctp-port:5000\r\na=max-message-size:1024\r\n";
    assert_eq!(advertise_max_message_size(sized.to_string()), sized);
    let last = "v=0\r\na=sctp-port:5000";
    assert_eq!(advertise_max_message_size(last.to_string()), "v=0\r\na=sctp-port:5000a=max-message-size:262144\r\n");
}

#[test]
fn sender_queues_candidates_until_answer() {
    let mut s = SenderSignals::new();
    assert!(matches!(s.on_signal(true, true, Some(candidate_signal("c1"))), SenderSignalAction::Queued));
    assert!(matches!(s.on_signal(true, false, Some(candidate_signal("x"))), SenderSignalAction::Ignore));
    assert!(matches!(s.on_signal(false, true, Some(candidate_signal("x"))), SenderSignalAction::Ignore));
    assert!(matches!(s.on_signal(true, true, Some(candidate_signal("c2"))), SenderSignalAction::Queued));
    match s.on_signal(true, true, Some(Signal::Answer { sdp: "answer".to_string() })) {
        SenderSignalAction::ApplyAnswer { sdp, candidates } => {
            assert_eq!(sdp, "answer");
            assert_eq!(candidates, vec!["c1".to_string(), "c2".to_string()]);
        }
        _ => panic!("expected the answer"),
    }
    assert!(s.answer_set());
    assert!(matches!(s.on_signal(true, true, Some(Signal::Answer { sdp: "again".to_string() })), SenderSignalAction::Ignore));
    assert!(matches!(s.on_signal(true, true, Some(candidate_signal("c3"))),
        SenderSignalAction::AddCandidate { ref candidate } if candidate == "c3"));
    assert!(matches!(s.on_signal(true, true, None), SenderSignalAction::Ignore));
}

#[test]
fn receiver_keeps_latest_offer_and_candidates() {
    let mut r = ReceiverSignals::new();
    assert!(!r.has_offer());
    r.on_pre_offer_signal(true, true, Some(candidate_signal("c1")));
    r.on_pre_offer_signal(true, true, Some(Signal::Offer { sdp: "o1".to_string() }));
    r.on_pre_offer_signal(true, false, Some(Signal::Offer { sdp: "bad".to_string() }));
    r.on_pre_offer_signal(true, true, Some(Signal::Offer { sdp: "o2".to_string() }));
    r.on_pre_offer_signal(false, true, Some(candidate_signal("dup")));
    assert!(r.has_offer());
    let (offer, queued) = r.into_parts();
    assert_eq!(offer.as_deref(), Some("o2"));
    assert_eq!(queued, vec!["c1".to_string()]);
    assert_eq!(receiver_candidate(true, true, Some(candidate_signal("c9"))).as_deref(), Some("c9"));
    assert_eq!(receiver_candidate(true, true, Some(Signal::Candidate { candidate: None })), None);
    assert_eq!(receiver_candidate(false, true, Some(candidate_signal("c9"))), None);
}

#[test]
fn events_are_tried_newest_first_and_stably() {
    assert_eq!(newest_first_order(&[]), Vec::<usize>::new());
    assert_eq!(newest_first_order(&[5, 9, 5, 1, 9]), vec![1, 4, 0, 2, 3]);
    let created = [3u64, 3, 3];
    assert_eq!(newest_first_order(&created), vec![0, 1, 2]);
    let created: Vec<u64> = (0..50).map(|i| (i * 7919) % 13).collect();
    let order = newest_first_order(&created);
    let mut expected: Vec<usize> = (0..created.len()).collect();
    expected.sort_by_key(|&i| std::cmp::Reverse(created[i]));
    assert_eq!(order, expected);
}

fn exchange_event() -> EventData {
    create_pin_exchange_event(&[1, 2, 3], &[4u8; 16], "tid", "hint")
}

#[test]
fn exchange_search_screens_events() {
    let mut search = ExchangeSearch::new();
    let now = 10_000_000_000u64;
    let fresh_secs = now / 1000 - 10;
    match search.screen(&exchange_event(), fresh_secs, now) {
        ExchangeCandidate::Readable { matched_hint, salt, transfer_id, encrypted_payload, created_at_ms } => {
            assert_eq!(matched_hint, "hint");
            assert_eq!(salt, vec![4u8; 16]);
            assert_eq!(transfer_id, "tid");
            assert_eq!(encrypted_payload, vec![1, 2, 3]);
            assert_eq!(created_at_ms, fresh_secs * 1000);
        }
        _ => panic!("expected a readable event"),
    }
    assert_eq!(search.candidates_checked(), 1);
    let mut broken = exchange_event();
    broken.content = "%%%".to_string();
    assert!(matches!(search.screen(&broken, fresh_secs, now), ExchangeCandidate::Unreadable));
    assert_eq!(search.candidates_checked(), 1);
    assert_eq!(search.finish(), ExchangeSearchError::NotFound);
    let old_secs = (now - TRANSFER_EXPIRATION_MS - 1000) / 1000;
    assert!(matches!(search.screen(&exchange_event(), old_secs, now), ExchangeCandidate::Expired));
    assert_eq!(search.finish(), ExchangeSearchError::Expired);
}

#[test]
fn size_limits() {
    assert_eq!(check_outgoing_size(0, 10), Ok(()));
    assert_eq!(check_outgoing_size(10, 10), Ok(()));
    assert_eq!(check_outgoing_size(11, 10), Err(SizeError::TooLarge { size: 11, limit: 10 }));
    assert_eq!(check_incoming_size(0, 10), Err(SizeError::Empty));
    assert_eq!(check_incoming_size(5, 10), Ok(()));
    assert_eq!(check_incoming_size(11, 10), Err(SizeError::TooLarge { size: 11, limit: 10 }));
}

#[test]
fn seen_events_report_first_sightings_only() {
    let mut seen = SeenEvents::new();
    assert!(seen.insert([1u8; 32]));
    assert!(seen.insert([2u8; 32]));
    assert!(!seen.insert([1u8; 32]));
    let mut other = [1u8; 32];
    other[31] = 0;
    assert!(seen.insert(other));
    assert!(!seen.insert(other));
}

#[test]
fn exchange_payload_needs_a_full_salt_and_an_authentic_payload() {
    let pin = "ABCDEFGHJKL2";
    assert!(open_exchange_payload(pin, &[3u8; 15], &[0u8; 40]).is_none());
    assert!(open_exchange_payload(pin, &[3u8; 16], &[0u8; 40]).is_none());
}
