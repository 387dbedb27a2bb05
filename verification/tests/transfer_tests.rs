use secure_send::crypto::aead::{decrypt_chunk, encrypt_chunk, parse_chunk_message};
use secure_send::transfer::{
    chunk_count, done_message, is_ack_message, parse_done_count, plaintext_len, ChunkReceiver, ChunkSender,
    DoneCountError, ReceiveError, SendError, ENCRYPTION_CHUNK_SIZE, MAX_CHUNKS, NONCE_LEN, TAG_LEN,
};

#[test]
fn done_count_accepts_digits_only() {
    assert_eq!(parse_done_count("0").unwrap(), 0);
    assert_eq!(parse_done_count("42").unwrap(), 42);
    assert!(parse_done_count("").is_err());
    assert!(parse_done_count("42 ").is_err());
    assert!(parse_done_count("42x").is_err());
}

#[test]
fn done_count_errors() {
    assert_eq!(parse_done_count("-1"), Err(DoneCountError::NonNumeric));
    assert_eq!(parse_done_count("+1"), Err(DoneCountError::NonNumeric));
    assert_eq!(parse_done_count("18446744073709551615"), Ok(u64::MAX));
    assert_eq!(parse_done_count("18446744073709551616"), Err(DoneCountError::OutOfRange));
    assert_eq!(parse_done_count("007"), Ok(7));
}

#[test]
fn done_message_reads_back() {
    for n in [0u64, 1, 9, 10, 65536, u64::MAX] {
        let m = done_message(n);
        assert_eq!(m, format!("DONE:{n}"));
        assert_eq!(parse_done_count(&m[5..]), Ok(n));
    }
}

#[test]
fn chunk_math() {
    assert_eq!(ENCRYPTION_CHUNK_SIZE, 131072);
    assert_eq!(chunk_count(0), 0);
    assert_eq!(chunk_count(1), 1);
    assert_eq!(chunk_count(131072), 1);
    assert_eq!(chunk_count(131073), 2);
    assert_eq!(plaintext_len(0, 131073), 131072);
    assert_eq!(plaintext_len(1, 131073), 1);
    assert_eq!(plaintext_len(0, 5), 5);
    assert_eq!(chunk_count(MAX_CHUNKS * ENCRYPTION_CHUNK_SIZE), MAX_CHUNKS);
}

#[test]
fn ack_message_is_the_text_ack() {
    assert!(is_ack_message(true, b"ACK"));
    assert!(!is_ack_message(false, b"ACK"));
    assert!(!is_ack_message(true, b"ACK "));
    assert!(!is_ack_message(true, b"ack"));
}

#[test]
fn receiver_completes_in_any_order() {
    let total = 2 * ENCRYPTION_CHUNK_SIZE + 10;
    let mut r = ChunkReceiver::new(total);
    assert_eq!(r.expected_chunks(), 3);
    for index in [2u16, 0, 1] {
        let plain = r.check_chunk(index, plaintext_len(index as u64, total) + NONCE_LEN + TAG_LEN).unwrap();
        let offset = r.accept_chunk(index, plain).unwrap();
        assert_eq!(offset, index as u64 * ENCRYPTION_CHUNK_SIZE);
    }
    assert_eq!(r.received_bytes(), total);
    assert_eq!(r.finish(), Err(ReceiveError::ClosedBeforeDone));
    assert_eq!(r.on_text("DONE:3"), Ok(()));
    assert_eq!(r.finish(), Ok(()));
}

#[test]
fn receiver_rejects_bad_chunks_and_messages() {
    let total = ENCRYPTION_CHUNK_SIZE + 1;
    let mut r = ChunkReceiver::new(total);
    assert_eq!(r.check_chunk(2, 29), Err(ReceiveError::ChunkIndexOutOfRange { index: 2, expected: 2 }));
    assert_eq!(
        r.check_chunk(1, 30),
        Err(ReceiveError::EncryptedLengthMismatch { index: 1, expected: 29, actual: 30 })
    );
    assert_eq!(r.check_chunk(1, 29), Ok(1));
    assert_eq!(
        r.accept_chunk(1, 2),
        Err(ReceiveError::PlaintextLengthMismatch { index: 1, expected: 1, actual: 2 })
    );
    assert_eq!(r.accept_chunk(1, 1), Ok(ENCRYPTION_CHUNK_SIZE));
    assert_eq!(r.check_chunk(1, 29), Err(ReceiveError::DuplicateChunk { index: 1 }));
    assert_eq!(r.on_text("hello"), Err(ReceiveError::UnexpectedControlMessage));
    assert_eq!(r.on_text("DONE:x"), Err(ReceiveError::InvalidDoneMessage(DoneCountError::NonNumeric)));
    assert_eq!(r.on_text("DONE:3"), Err(ReceiveError::ChunkCountMismatch { reported: 3, expected: 2 }));
    assert_eq!(r.on_text("DONE:2"), Ok(()));
    assert_eq!(
        r.finish(),
        Err(ReceiveError::Incomplete { chunks: 1, expected_chunks: 2, bytes: 1, total_bytes: total })
    );
}

#[test]
fn sender_numbers_chunks_and_announces_count() {
    let total = 2 * ENCRYPTION_CHUNK_SIZE + 7;
    let mut s = ChunkSender::new(total).unwrap();
    assert_eq!(s.next_index(), 0);
    assert_eq!(s.record_sent(ENCRYPTION_CHUNK_SIZE), Ok(false));
    assert_eq!(s.next_index(), 1);
    assert_eq!(s.record_sent(ENCRYPTION_CHUNK_SIZE), Ok(false));
    assert_eq!(s.next_index(), 2);
    assert_eq!(s.record_sent(7), Ok(true));
    assert_eq!(s.sent_bytes(), total);
    assert_eq!(s.finish().unwrap(), "DONE:3");
}

#[test]
fn sender_refuses_oversized_files_and_short_counts() {
    let too_big = MAX_CHUNKS * ENCRYPTION_CHUNK_SIZE + 1;
    assert_eq!(
        ChunkSender::new(too_big).err(),
        Some(SendError::FileTooLarge { chunks: MAX_CHUNKS + 1, limit: MAX_CHUNKS })
    );
    let s = ChunkSender::new(10).unwrap();
    assert_eq!(
        s.finish(),
        Err(SendError::ChunkCountMismatch { sent_chunks: 0, expected_chunks: 1, sent_bytes: 0 })
    );
}

#[test]
fn sender_and_receiver_agree() {
    let total = 3 * ENCRYPTION_CHUNK_SIZE;
    let mut s = ChunkSender::new(total).unwrap();
    let mut r = ChunkReceiver::new(total);
    loop {
        let index = s.next_index();
        let n = plaintext_len(index as u64, total);
        let plain = r.check_chunk(index, n + NONCE_LEN + TAG_LEN).unwrap();
        r.accept_chunk(index, plain).unwrap();
        if s.record_sent(n).unwrap() {
            break;
        }
    }
    let done = s.finish().unwrap();
    assert_eq!(r.on_text(&done), Ok(()));
    assert_eq!(r.finish(), Ok(()));
}

#[test]
fn chunks_tile_the_file() {
    for total in [1u64, 131071, 131072, 131073, 5 * 131072 + 17] {
        let mut end = 0u64;
        for index in 0..chunk_count(total) {
            assert_eq!(index * ENCRYPTION_CHUNK_SIZE, end);
            end += plaintext_len(index, total);
        }
        assert_eq!(end, total);
    }
}

#[test]
fn whole_transfer_with_sealed_chunks() {
    let key = [8u8; 32];
    let total = 2 * ENCRYPTION_CHUNK_SIZE + 5;
    let data: Vec<u8> = (0..total).map(|i| (i % 251) as u8).collect();
    let mut s = ChunkSender::new(total).unwrap();
    let mut r = ChunkReceiver::new(total);
    let mut out = vec![0u8; total as usize];
    let mut offset = 0usize;
    loop {
        let n = plaintext_len(s.next_index() as u64, total) as usize;
        let msg = encrypt_chunk(&key, &data[offset..offset + n], s.next_index()).unwrap();
        offset += n;
        let (index, sealed) = parse_chunk_message(&msg).unwrap();
        r.check_chunk(index, sealed.len() as u64).unwrap();
        let plain = decrypt_chunk(&key, &sealed, index).unwrap();
        let at = r.accept_chunk(index, plain.len() as u64).unwrap() as usize;
        out[at..at + plain.len()].copy_from_slice(&plain);
        if s.record_sent(n as u64).unwrap() {
            break;
        }
    }
    assert_eq!(r.on_text(&s.finish().unwrap()), Ok(()));
    assert_eq!(r.finish(), Ok(()));
    assert_eq!(out, data);
}
