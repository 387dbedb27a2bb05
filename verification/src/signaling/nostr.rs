//! Nostr signaling records for the PIN exchange mode: the events' kinds,
//! tags and base64 content, and the checks a received event must pass.
//!
//! Signing, publishing, subscriptions and the encryption of event bodies are
//! done by the caller; these functions build and check the plain contents.

use vstd::prelude::*;

use crate::crypto::aead::{decrypt, opt_bytes, spec_open_sealed};
use crate::crypto::pin::{now_sec, TRANSFER_EXPIRATION_MS};
use crate::encoding::{base64_decode_str, base64_encode, base64_encode_bytes, lemma_base64_roundtrip};
use crate::text::{decimal, lemma_signed_decimal_roundtrip, owned, parse_i64, push_decimal, push_signed_decimal, signed_decimal, spec_parse_i64, str_eq, string_from_chars};

verus! {

/// Event kind of data-transfer events (acknowledgments and signals).
pub const EVENT_KIND_DATA_TRANSFER: u16 = 24242;

/// Event kind of PIN exchange events.
pub const EVENT_KIND_PIN_EXCHANGE: u16 = 24243;

/// Event kind of data-transfer events.
pub fn data_kind() -> (r: u16)
    ensures
        r == EVENT_KIND_DATA_TRANSFER,
{
    EVENT_KIND_DATA_TRANSFER
}

/// Event kind of PIN exchange events.
pub fn pin_exchange_kind() -> (r: u16)
    ensures
        r == EVENT_KIND_PIN_EXCHANGE,
{
    EVENT_KIND_PIN_EXCHANGE
}

/// The relays used by default.
pub open spec fn default_relays() -> Seq<Seq<char>> {
    seq![
        "wss://relay.damus.io"@,
        "wss://nos.lol"@,
        "wss://relay.primal.net"@,
        "wss://nostr.rocks"@,
        "wss://relay.nostr.pub"@,
        "wss://relay.snort.social"@,
    ]
}

/// The default relays as owned strings.
pub fn default_relays_vec() -> (r: Vec<String>)
    ensures
        r@.map_values(|s: String| s@) == default_relays(),
{
    let mut v: Vec<String> = Vec::new();
    v.push(owned("wss://relay.damus.io"));
    v.push(owned("wss://nos.lol"));
    v.push(owned("wss://relay.primal.net"));
    v.push(owned("wss://nostr.rocks"));
    v.push(owned("wss://relay.nostr.pub"));
    v.push(owned("wss://relay.snort.social"));
    assert(v@.map_values(|s: String| s@) =~= default_relays());
    v
}

/// A tag of an event: its name and, when it has one, its first value.
#[derive(Debug, Clone)]
pub struct TagData {
    pub name: String,
    pub content: Option<String>,
}

/// A tag as text.
pub type TagView = (Seq<char>, Option<Seq<char>>);

/// The text of an optional string.
pub open spec fn opt_view(o: Option<String>) -> Option<Seq<char>> {
    match o {
        Some(s) => Some(s@),
        None => None,
    }
}

impl View for TagData {
    type V = TagView;

    open spec fn view(&self) -> TagView {
        (self.name@, opt_view(self.content))
    }
}

/// The parts of a Nostr event that the signaling logic reads and writes.
#[derive(Debug, Clone)]
pub struct EventData {
    pub kind: u16,
    pub content: String,
    pub tags: Vec<TagData>,
}

/// An event as mathematical values.
pub struct EventView {
    pub kind: u16,
    pub content: Seq<char>,
    pub tags: Seq<TagView>,
}

impl View for EventData {
    type V = EventView;

    open spec fn view(&self) -> EventView {
        EventView { kind: self.kind, content: self.content@, tags: self.tags@.map_values(|t: TagData| t@) }
    }
}

/// The first value of the first tag named `name`, if that tag has a value.
pub open spec fn spec_tag_value(tags: Seq<TagView>, name: Seq<char>) -> Option<Seq<char>>
    decreases tags.len(),
{
    if tags.len() == 0 {
        None
    } else if tags[0].0 == name {
        tags[0].1
    } else {
        spec_tag_value(tags.drop_first(), name)
    }
}

/// The first value of the first tag of `event` named `name`.
pub fn tag_value(event: &EventData, name: &str) -> (r: Option<String>)
    ensures
        opt_view(r) == spec_tag_value(event@.tags, name@),
{
    let wanted = owned(name);
    let mut i: usize = 0;
    assert(event@.tags.skip(0) =~= event@.tags);
    while i < event.tags.len()
        invariant
            0 <= i <= event.tags@.len(),
            wanted@ == name@,
            spec_tag_value(event@.tags, name@) == spec_tag_value(event@.tags.skip(i as int), name@),
        decreases event.tags@.len() - i,
    {
        let tag = &event.tags[i];
        assert(event@.tags.skip(i as int)[0] == tag@);
        if tag.name == wanted {
            return tag.content.clone();
        }
        assert(event@.tags.skip(i as int).drop_first() =~= event@.tags.skip(i as int + 1));
        i = i + 1;
    }
    None
}

/// A tag with a name and one value.
fn tag(name: &str, value: String) -> (r: TagData)
    ensures
        r@ == (name@, Some(value@)),
{
    TagData { name: owned(name), content: Some(value) }
}

/// The bytes whose base64 encoding is `text`, if there are any.
pub open spec fn spec_base64_decode(text: Seq<char>) -> Option<Seq<u8>> {
    if exists|b: Seq<u8>| base64_encode(b) == text {
        Some(choose|b: Seq<u8>| base64_encode(b) == text)
    } else {
        None
    }
}

fn decode(text: &str) -> (r: Option<Vec<u8>>)
    ensures
        match r {
            Some(v) => spec_base64_decode(text@) == Some(v@),
            None => spec_base64_decode(text@) is None,
        },
{
    let r = base64_decode_str(text);
    match r {
        Some(v) => {
            proof {
                let b = choose|b: Seq<u8>| base64_encode(b) == text@;
                lemma_base64_roundtrip(v@, b);
            }
            Some(v)
        },
        None => None,
    }
}

/// Decoding a base64 encoding gives back the encoded bytes.
pub proof fn lemma_decode_encoded(bytes: Seq<u8>)
    ensures
        spec_base64_decode(base64_encode(bytes)) == Some(bytes),
{
    let text = base64_encode(bytes);
    assert(base64_encode(bytes) == text);
    let b = choose|b: Seq<u8>| base64_encode(b) == text;
    lemma_base64_roundtrip(bytes, b);
}

/// The PIN exchange event published at `now_sec`.
pub open spec fn spec_pin_exchange_event(
    encrypted_payload: Seq<u8>,
    salt: Seq<u8>,
    transfer_id: Seq<char>,
    hint: Seq<char>,
    now_sec: nat,
) -> EventView {
    EventView {
        kind: EVENT_KIND_PIN_EXCHANGE,
        content: base64_encode(encrypted_payload),
        tags: seq![
            ("h"@, Some(hint)),
            ("s"@, Some(base64_encode(salt))),
            ("t"@, Some(transfer_id)),
            ("type"@, Some("pin_exchange"@)),
            ("expiration"@, Some(decimal((now_sec + TRANSFER_EXPIRATION_MS / 1000) as nat))),
        ],
    }
}

/// The contents of the PIN exchange event published at `now_sec`: the hint
/// `h`, the base64 salt `s`, the transfer id `t`, the type, an expiration
/// one transfer lifetime after `now_sec`, and the base64 encrypted payload as
/// content.
pub fn pin_exchange_event_at(
    encrypted_payload: &[u8],
    salt: &[u8],
    transfer_id: &str,
    hint: &str,
    now_sec: u64,
) -> (r: EventData)
    requires
        encrypted_payload@.len() <= usize::MAX / 2,
        salt@.len() <= usize::MAX / 2,
        now_sec + TRANSFER_EXPIRATION_MS / 1000 <= u64::MAX,
    ensures
        r@ == spec_pin_exchange_event(encrypted_payload@, salt@, transfer_id@, hint@, now_sec as nat),
{
    let expiration = now_sec + TRANSFER_EXPIRATION_MS / 1000;
    let mut exp_chars: Vec<char> = Vec::new();
    push_decimal(expiration, &mut exp_chars);
    let mut tags: Vec<TagData> = Vec::new();
    tags.push(tag("h", owned(hint)));
    tags.push(tag("s", base64_encode_bytes(salt)));
    tags.push(tag("t", owned(transfer_id)));
    tags.push(tag("type", owned("pin_exchange")));
    tags.push(tag("expiration", string_from_chars(exp_chars.as_slice())));
    let r = EventData { kind: EVENT_KIND_PIN_EXCHANGE, content: base64_encode_bytes(encrypted_payload), tags };
    assert(r@.tags =~= spec_pin_exchange_event(encrypted_payload@, salt@, transfer_id@, hint@, now_sec as nat).tags);
    r
}

/// The contents of a PIN exchange event published now (see
/// `pin_exchange_event_at`). The caller signs it.
pub fn create_pin_exchange_event(
    encrypted_payload: &[u8],
    salt: &[u8],
    transfer_id: &str,
    hint: &str,
) -> (r: EventData)
    requires
        encrypted_payload@.len() <= usize::MAX / 2,
        salt@.len() <= usize::MAX / 2,
    ensures
        exists|now_sec: u64| r@ == spec_pin_exchange_event(encrypted_payload@, salt@, transfer_id@, hint@, now_sec as nat),
        exists|now_sec: u64| now_sec <= u64::MAX / 1000
            && r@ == spec_pin_exchange_event(encrypted_payload@, salt@, transfer_id@, hint@, now_sec as nat),
{
    let now = now_sec();
    pin_exchange_event_at(encrypted_payload, salt, transfer_id, hint, now)
}

/// What `parse_pin_exchange_event` reads from an event: hint, salt,
/// transfer id and encrypted payload.
pub open spec fn spec_parse_pin_exchange_event(e: EventView) -> Option<(Seq<char>, Seq<u8>, Seq<char>, Seq<u8>)> {
    if e.kind != EVENT_KIND_PIN_EXCHANGE {
        None
    } else {
        match (
            spec_tag_value(e.tags, "h"@),
            spec_tag_value(e.tags, "s"@),
            spec_tag_value(e.tags, "t"@),
        ) {
            (Some(h), Some(s), Some(t)) => match (spec_base64_decode(s), spec_base64_decode(e.content)) {
                (Some(salt), Some(payload)) => Some((h, salt, t, payload)),
                _ => None,
            },
            _ => None,
        }
    }
}

/// Reads the hint, salt, transfer id and encrypted payload of a PIN
/// exchange event; `None` when the event is of another kind or lacks any of
/// them.
pub fn parse_pin_exchange_event(event: &EventData) -> (r: Option<(String, Vec<u8>, String, Vec<u8>)>)
    ensures
        match r {
            Some((h, salt, t, payload)) => spec_parse_pin_exchange_event(event@) == Some((h@, salt@, t@, payload@)),
            None => spec_parse_pin_exchange_event(event@) is None,
        },
{
    if event.kind != EVENT_KIND_PIN_EXCHANGE {
        return None;
    }
    let hint = match tag_value(event, "h") {
        Some(h) => h,
        None => { return None; },
    };
    let salt_text = match tag_value(event, "s") {
        Some(s) => s,
        None => { return None; },
    };
    let transfer_id = match tag_value(event, "t") {
        Some(t) => t,
        None => { return None; },
    };
    let salt = match decode(salt_text.as_str()) {
        Some(s) => s,
        None => { return None; },
    };
    let payload = match decode(event.content.as_str()) {
        Some(p) => p,
        None => { return None; },
    };
    Some((hint, salt, transfer_id, payload))
}

/// A PIN exchange event carries back exactly what it was made from: reading
/// the event built for a payload, salt, transfer id and hint gives those four
/// values.
pub proof fn lemma_pin_exchange_roundtrip(
    encrypted_payload: Seq<u8>,
    salt: Seq<u8>,
    transfer_id: Seq<char>,
    hint: Seq<char>,
    now_sec: nat,
)
    ensures
        spec_parse_pin_exchange_event(spec_pin_exchange_event(encrypted_payload, salt, transfer_id, hint, now_sec))
            == Some((hint, salt, transfer_id, encrypted_payload)),
{
    reveal_strlit("h");
    reveal_strlit("s");
    reveal_strlit("t");
    let e = spec_pin_exchange_event(encrypted_payload, salt, transfer_id, hint, now_sec);
    assert("h"@[0] != "s"@[0]);
    assert("h"@[0] != "t"@[0]);
    assert("s"@[0] != "t"@[0]);
    assert(e.tags.drop_first()[0].0 == "s"@);
    assert(e.tags.drop_first().drop_first()[0].0 == "t"@);
    assert(spec_tag_value(e.tags, "h"@) == Some(hint));
    assert(spec_tag_value(e.tags.drop_first(), "s"@) == Some(base64_encode(salt)));
    assert(spec_tag_value(e.tags, "s"@) == Some(base64_encode(salt)));
    assert(spec_tag_value(e.tags.drop_first().drop_first(), "t"@) == Some(transfer_id));
    assert(spec_tag_value(e.tags.drop_first(), "t"@) == Some(transfer_id));
    assert(spec_tag_value(e.tags, "t"@) == Some(transfer_id));
    lemma_decode_encoded(salt);
    lemma_decode_encoded(encrypted_payload);
}

/// The acknowledgment event a receiver publishes for a sender.
pub open spec fn spec_ack_event(
    sender_pubkey_hex: Seq<char>,
    transfer_id: Seq<char>,
    seq: i64,
    encrypted_body: Seq<u8>,
    hint: Option<Seq<char>>,
) -> EventView {
    let tags = seq![
        ("p"@, Some(sender_pubkey_hex)),
        ("t"@, Some(transfer_id)),
        ("seq"@, Some(signed_decimal(seq as int))),
        ("type"@, Some("ack"@)),
    ];
    EventView {
        kind: EVENT_KIND_DATA_TRANSFER,
        content: base64_encode(encrypted_body),
        tags: match hint {
            Some(h) => tags.push(("h"@, Some(h))),
            None => tags,
        },
    }
}

/// The contents of an authenticated acknowledgment event: tags `p` (the
/// sender's public key in hex), `t`, `seq`, `type` and, when given, the hint
/// `h`; the encrypted acknowledgment body in base64 as content. The caller
/// encrypts the body and signs the event.
pub fn create_authenticated_ack_event(
    sender_pubkey_hex: &str,
    transfer_id: &str,
    seq: i64,
    encrypted_body: &[u8],
    hint: Option<&str>,
) -> (r: EventData)
    requires
        encrypted_body@.len() <= usize::MAX / 2,
    ensures
        r@ == spec_ack_event(
            sender_pubkey_hex@,
            transfer_id@,
            seq,
            encrypted_body@,
            match hint { Some(h) => Some(h@), None => None },
        ),
{
    let mut seq_chars: Vec<char> = Vec::new();
    push_signed_decimal(seq, &mut seq_chars);
    let mut tags: Vec<TagData> = Vec::new();
    tags.push(tag("p", owned(sender_pubkey_hex)));
    tags.push(tag("t", owned(transfer_id)));
    tags.push(tag("seq", string_from_chars(seq_chars.as_slice())));
    tags.push(tag("type", owned("ack")));
    match hint {
        Some(h) => tags.push(tag("h", owned(h))),
        None => {},
    }
    let r = EventData { kind: EVENT_KIND_DATA_TRANSFER, content: base64_encode_bytes(encrypted_body), tags };
    assert(r@.tags =~= spec_ack_event(sender_pubkey_hex@, transfer_id@, seq, encrypted_body@,
        match hint { Some(h) => Some(h@), None => None }).tags);
    r
}

/// The sealed body of an event, when the event is an acknowledgment for the
/// expected transfer and sequence number: kind, `type`, `t` and `seq` tags
/// checked, content base64-decoded.
pub open spec fn spec_ack_ciphertext(e: EventView, expected_transfer_id: Seq<char>, expected_seq: i64) -> Option<Seq<u8>> {
    if e.kind != EVENT_KIND_DATA_TRANSFER {
        None
    } else {
        match (spec_tag_value(e.tags, "type"@), spec_tag_value(e.tags, "t"@), spec_tag_value(e.tags, "seq"@)) {
            (Some(ty), Some(t), Some(sq)) => {
                if ty != "ack"@ || t != expected_transfer_id {
                    None
                } else {
                    match spec_parse_i64(sq) {
                        Some(n) => if n != expected_seq { None } else { spec_base64_decode(e.content) },
                        None => None,
                    }
                }
            },
            _ => None,
        }
    }
}

/// What `parse_ack_event` gives for an event: the body of an
/// acknowledgment for the expected transfer and sequence number, opened
/// under `key`.
pub open spec fn spec_parse_ack_event(e: EventView, key: Seq<u8>, expected_transfer_id: Seq<char>, expected_seq: i64) -> Option<Seq<u8>> {
    match spec_ack_ciphertext(e, expected_transfer_id, expected_seq) {
        Some(sealed) => spec_open_sealed(key, sealed, Seq::<u8>::empty()),
        None => None,
    }
}

fn ack_ciphertext(event: &EventData, expected_transfer_id: &str, expected_seq: i64) -> (r: Option<Vec<u8>>)
    ensures
        opt_bytes(r) == spec_ack_ciphertext(event@, expected_transfer_id@, expected_seq),
{
    if event.kind != EVENT_KIND_DATA_TRANSFER {
        return None;
    }
    let ty = match tag_value(event, "type") {
        Some(v) => v,
        None => { return None; },
    };
    if !str_eq(ty.as_str(), "ack") {
        return None;
    }
    let t = match tag_value(event, "t") {
        Some(v) => v,
        None => { return None; },
    };
    if !str_eq(t.as_str(), expected_transfer_id) {
        return None;
    }
    let sq = match tag_value(event, "seq") {
        Some(v) => v,
        None => { return None; },
    };
    let n = match parse_i64(sq.as_str()) {
        Some(n) => n,
        None => { return None; },
    };
    if n != expected_seq {
        return None;
    }
    decode(event.content.as_str())
}

/// Checks an acknowledgment event's kind, type, transfer id and sequence
/// number, and opens its body under `key`; the caller reads the body and
/// checks it with `check_ack_body`.
pub fn parse_ack_event(event: &EventData, key: &[u8; 32], expected_transfer_id: &str, expected_seq: i64) -> (r: Option<Vec<u8>>)
    ensures
        opt_bytes(r) == spec_parse_ack_event(event@, key@, expected_transfer_id@, expected_seq),
{
    match ack_ciphertext(event, expected_transfer_id, expected_seq) {
        Some(sealed) => decrypt(key, sealed.as_slice()),
        None => None,
    }
}

/// The decrypted body of an acknowledgment.
#[derive(Debug, Clone)]
pub struct AckBody {
    pub payload_type: String,
    pub transfer_id: String,
    pub seq: i64,
}

/// Whether a decrypted acknowledgment body confirms the expected transfer and
/// sequence number.
pub fn check_ack_body(body: &AckBody, expected_transfer_id: &str, expected_seq: i64) -> (r: bool)
    ensures
        r == (body.payload_type@ == "ack"@ && body.transfer_id@ == expected_transfer_id@ && body.seq == expected_seq),
{
    str_eq(body.payload_type.as_str(), "ack") && str_eq(body.transfer_id.as_str(), expected_transfer_id)
        && body.seq == expected_seq
}

/// The acknowledgment body a receiver sends for a transfer and sequence
/// number.
pub fn ack_body(transfer_id: &str, seq: i64) -> (r: AckBody)
    ensures
        r.payload_type@ == "ack"@,
        r.transfer_id@ == transfer_id@,
        r.seq == seq,
{
    AckBody { payload_type: owned("ack"), transfer_id: owned(transfer_id), seq }
}

/// An acknowledgment passes its own checks: the event a receiver builds for a
/// transfer and sequence number is read back, by a sender expecting that
/// transfer and number, as the sealed body it carries, and opened under
/// `key` as that body opens; so a body sealed under the shared key comes
/// back as it was written.
pub proof fn lemma_ack_roundtrip(
    sender_pubkey_hex: Seq<char>,
    transfer_id: Seq<char>,
    seq: i64,
    encrypted_body: Seq<u8>,
    hint: Option<Seq<char>>,
    key: Seq<u8>,
)
    ensures
        spec_ack_ciphertext(spec_ack_event(sender_pubkey_hex, transfer_id, seq, encrypted_body, hint), transfer_id, seq)
            == Some(encrypted_body),
        spec_parse_ack_event(spec_ack_event(sender_pubkey_hex, transfer_id, seq, encrypted_body, hint), key, transfer_id, seq)
            == spec_open_sealed(key, encrypted_body, Seq::<u8>::empty()),
{
    reveal_strlit("p");
    reveal_strlit("t");
    reveal_strlit("seq");
    reveal_strlit("type");
    reveal_strlit("h");
    let e = spec_ack_event(sender_pubkey_hex, transfer_id, seq, encrypted_body, hint);
    let t0 = e.tags;
    let t1 = t0.drop_first();
    let t2 = t1.drop_first();
    let t3 = t2.drop_first();
    assert("p"@.len() != "type"@.len());
    assert("p"@ != "type"@);
    assert("t"@.len() != "type"@.len());
    assert("t"@ != "type"@);
    assert("seq"@.len() != "type"@.len());
    assert("seq"@ != "type"@);
    assert("p"@[0] != "t"@[0]);
    assert("p"@.len() != "seq"@.len());
    assert("p"@ != "seq"@);
    assert("t"@.len() != "seq"@.len());
    assert("t"@ != "seq"@);
    assert(t3[0].0 == "type"@);
    assert(spec_tag_value(t3, "type"@) == Some("ack"@));
    assert(spec_tag_value(t2, "type"@) == Some("ack"@));
    assert(spec_tag_value(t1, "type"@) == Some("ack"@));
    assert(spec_tag_value(t0, "type"@) == Some("ack"@));
    assert(spec_tag_value(t1, "t"@) == Some(transfer_id));
    assert(spec_tag_value(t0, "t"@) == Some(transfer_id));
    assert(spec_tag_value(t2, "seq"@) == Some(signed_decimal(seq as int)));
    assert(spec_tag_value(t1, "seq"@) == Some(signed_decimal(seq as int)));
    assert(spec_tag_value(t0, "seq"@) == Some(signed_decimal(seq as int)));
    lemma_signed_decimal_roundtrip(seq);
    lemma_decode_encoded(encrypted_body);
}

/// The signal event a peer publishes for the other side of a transfer.
pub open spec fn spec_signal_event(sender_pubkey_hex: Seq<char>, transfer_id: Seq<char>, encrypted_envelope: Seq<u8>) -> EventView {
    EventView {
        kind: EVENT_KIND_DATA_TRANSFER,
        content: base64_encode(encrypted_envelope),
        tags: seq![
            ("t"@, Some(transfer_id)),
            ("p"@, Some(sender_pubkey_hex)),
            ("type"@, Some("signal"@)),
        ],
    }
}

/// The contents of a signal event: tags `t`, `p` (the sender's public key in
/// hex) and `type`; the encrypted signal envelope in base64 as content. The
/// caller encrypts the envelope and signs the event.
pub fn create_signal_event(sender_pubkey_hex: &str, transfer_id: &str, encrypted_envelope: &[u8]) -> (r: EventData)
    requires
        encrypted_envelope@.len() <= usize::MAX / 2,
    ensures
        r@ == spec_signal_event(sender_pubkey_hex@, transfer_id@, encrypted_envelope@),
{
    let mut tags: Vec<TagData> = Vec::new();
    tags.push(tag("t", owned(transfer_id)));
    tags.push(tag("p", owned(sender_pubkey_hex)));
    tags.push(tag("type", owned("signal")));
    let r = EventData { kind: EVENT_KIND_DATA_TRANSFER, content: base64_encode_bytes(encrypted_envelope), tags };
    assert(r@.tags =~= spec_signal_event(sender_pubkey_hex@, transfer_id@, encrypted_envelope@).tags);
    r
}

/// The sealed envelope of an event, when the event is a signal for the
/// expected transfer: kind, `type` and `t` tags checked, content
/// base64-decoded.
pub open spec fn spec_signal_ciphertext(e: EventView, expected_transfer_id: Seq<char>) -> Option<Seq<u8>> {
    if e.kind != EVENT_KIND_DATA_TRANSFER {
        None
    } else {
        match (spec_tag_value(e.tags, "type"@), spec_tag_value(e.tags, "t"@)) {
            (Some(ty), Some(t)) => if ty != "signal"@ || t != expected_transfer_id {
                None
            } else {
                spec_base64_decode(e.content)
            },
            _ => None,
        }
    }
}

/// What `parse_signal_event` gives for an event: the envelope of a signal
/// for the expected transfer, opened under `key`.
pub open spec fn spec_parse_signal_event(e: EventView, key: Seq<u8>, expected_transfer_id: Seq<char>) -> Option<Seq<u8>> {
    match spec_signal_ciphertext(e, expected_transfer_id) {
        Some(sealed) => spec_open_sealed(key, sealed, Seq::<u8>::empty()),
        None => None,
    }
}

fn signal_ciphertext(event: &EventData, expected_transfer_id: &str) -> (r: Option<Vec<u8>>)
    ensures
        opt_bytes(r) == spec_signal_ciphertext(event@, expected_transfer_id@),
{
    if event.kind != EVENT_KIND_DATA_TRANSFER {
        return None;
    }
    let ty = match tag_value(event, "type") {
        Some(v) => v,
        None => { return None; },
    };
    if !str_eq(ty.as_str(), "signal") {
        return None;
    }
    let t = match tag_value(event, "t") {
        Some(v) => v,
        None => { return None; },
    };
    if !str_eq(t.as_str(), expected_transfer_id) {
        return None;
    }
    decode(event.content.as_str())
}

/// Checks a signal event's kind, type and transfer id, and opens its
/// envelope under `key`; the caller reads the envelope and takes its signal
/// with `signal_from_envelope`.
pub fn parse_signal_event(event: &EventData, key: &[u8; 32], expected_transfer_id: &str) -> (r: Option<Vec<u8>>)
    ensures
        opt_bytes(r) == spec_parse_signal_event(event@, key@, expected_transfer_id@),
{
    match signal_ciphertext(event, expected_transfer_id) {
        Some(sealed) => decrypt(key, sealed.as_slice()),
        None => None,
    }
}

/// A signal event is read back, by a peer expecting its transfer, as the
/// sealed envelope it carries, and opened under `key` as that envelope
/// opens.
pub proof fn lemma_signal_roundtrip(sender_pubkey_hex: Seq<char>, transfer_id: Seq<char>, encrypted_envelope: Seq<u8>, key: Seq<u8>)
    ensures
        spec_signal_ciphertext(spec_signal_event(sender_pubkey_hex, transfer_id, encrypted_envelope), transfer_id)
            == Some(encrypted_envelope),
        spec_parse_signal_event(spec_signal_event(sender_pubkey_hex, transfer_id, encrypted_envelope), key, transfer_id)
            == spec_open_sealed(key, encrypted_envelope, Seq::<u8>::empty()),
{
    reveal_strlit("p");
    reveal_strlit("t");
    reveal_strlit("type");
    let e = spec_signal_event(sender_pubkey_hex, transfer_id, encrypted_envelope);
    let t0 = e.tags;
    let t1 = t0.drop_first();
    let t2 = t1.drop_first();
    assert("p"@.len() != "type"@.len());
    assert("p"@ != "type"@);
    assert("t"@.len() != "type"@.len());
    assert("t"@ != "type"@);
    assert(t2[0].0 == "type"@);
    assert(spec_tag_value(t2, "type"@) == Some("signal"@));
    assert(spec_tag_value(t1, "type"@) == Some("signal"@));
    assert(spec_tag_value(t0, "type"@) == Some("signal"@));
    assert(spec_tag_value(t0, "t"@) == Some(transfer_id));
    lemma_decode_encoded(encrypted_envelope);
}

/// An ICE candidate as exchanged in signals.
#[derive(Debug, Clone)]
pub struct CandidatePayload {
    pub candidate: String,
    pub sdp_mid: Option<String>,
    pub sdp_m_line_index: Option<u16>,
}

/// A WebRTC signaling message.
#[derive(Debug, Clone)]
pub enum Signal {
    Offer { sdp: String },
    Answer { sdp: String },
    Candidate { candidate: Option<CandidatePayload> },
}

/// The decrypted body of a signal event.
#[derive(Debug, Clone)]
pub struct SignalEnvelope {
    pub payload_type: String,
    pub signal: Signal,
}

/// The signal a decrypted envelope carries, when it is marked as a signal.
pub fn signal_from_envelope(envelope: SignalEnvelope) -> (r: Option<Signal>)
    ensures
        r is Some <==> envelope.payload_type@ == "signal"@,
        r matches Some(s) ==> s == envelope.signal,
{
    if str_eq(envelope.payload_type.as_str(), "signal") {
        Some(envelope.signal)
    } else {
        None
    }
}

/// The signal envelope a peer sends.
pub fn signal_envelope(signal: Signal) -> (r: SignalEnvelope)
    ensures
        r.payload_type@ == "signal"@,
        r.signal == signal,
{
    SignalEnvelope { payload_type: owned("signal"), signal }
}

/// The candidate a signal carries when a peer publishes a gathered ICE
/// candidate: media id `"0"` and line index 0, the single data-channel
/// section.
pub fn candidate_signal(candidate: &str) -> (r: Signal)
    ensures
        r matches Signal::Candidate { candidate: Some(c) } && c.candidate@ == candidate@
            && opt_view(c.sdp_mid) == Some("0"@) && c.sdp_m_line_index == Some(0u16),
{
    Signal::Candidate {
        candidate: Some(CandidatePayload {
            candidate: owned(candidate),
            sdp_mid: Some(owned("0")),
            sdp_m_line_index: Some(0),
        }),
    }
}

/// Everything a PIN exchange event's encrypted metadata tells a receiver.
#[derive(Debug, Clone)]
pub struct PinExchangePayload {
    pub content_type: String,
    pub transfer_id: String,
    pub sender_pubkey: String,
    pub relays: Vec<String>,
    pub file_name: String,
    pub file_size: u64,
    pub mime_type: String,
}

/// What the PIN exchange event published at `now_sec` says, tag by tag: it
/// is of kind 24243; its `h` tag is the hint, its `s` tag the salt in
/// base64, its `t` tag the transfer id, its `type` tag `pin_exchange`, its
/// `expiration` tag the time one hour (3600 s) after `now_sec`, in decimal
/// seconds; and its content is the encrypted metadata in base64.
pub proof fn lemma_pin_exchange_event_contents(
    encrypted_payload: Seq<u8>,
    salt: Seq<u8>,
    transfer_id: Seq<char>,
    hint: Seq<char>,
    now_sec: nat,
)
    ensures
        ({
            let e = spec_pin_exchange_event(encrypted_payload, salt, transfer_id, hint, now_sec);
            &&& e.kind == 24243
            &&& spec_tag_value(e.tags, "h"@) == Some(hint)
            &&& spec_tag_value(e.tags, "s"@) == Some(base64_encode(salt))
            &&& spec_base64_decode(base64_encode(salt)) == Some(salt)
            &&& spec_tag_value(e.tags, "t"@) == Some(transfer_id)
            &&& spec_tag_value(e.tags, "type"@) == Some("pin_exchange"@)
            &&& spec_tag_value(e.tags, "expiration"@) == Some(decimal(now_sec + 3600))
            &&& spec_base64_decode(e.content) == Some(encrypted_payload)
        }),
{
    reveal_strlit("h");
    reveal_strlit("s");
    reveal_strlit("t");
    reveal_strlit("type");
    reveal_strlit("expiration");
    let e = spec_pin_exchange_event(encrypted_payload, salt, transfer_id, hint, now_sec);
    let t0 = e.tags;
    let t1 = t0.drop_first();
    let t2 = t1.drop_first();
    let t3 = t2.drop_first();
    let t4 = t3.drop_first();
    assert(t4[0].0 == "expiration"@);
    assert(t3[0].0 == "type"@);
    assert("h"@ != "type"@ && "s"@ != "type"@ && "t"@ != "type"@);
    assert("h"@ != "expiration"@ && "s"@ != "expiration"@ && "t"@ != "expiration"@);
    assert("type"@ != "expiration"@);
    assert("h"@[0] != "s"@[0] && "h"@[0] != "t"@[0] && "s"@[0] != "t"@[0]);
    assert(spec_tag_value(t4, "expiration"@) == Some(decimal(now_sec + 3600)));
    assert(spec_tag_value(t3, "expiration"@) == Some(decimal(now_sec + 3600)));
    assert(spec_tag_value(t2, "expiration"@) == Some(decimal(now_sec + 3600)));
    assert(spec_tag_value(t1, "expiration"@) == Some(decimal(now_sec + 3600)));
    assert(spec_tag_value(t3, "type"@) == Some("pin_exchange"@));
    assert(spec_tag_value(t2, "type"@) == Some("pin_exchange"@));
    assert(spec_tag_value(t1, "type"@) == Some("pin_exchange"@));
    assert(spec_tag_value(t2, "t"@) == Some(transfer_id));
    assert(spec_tag_value(t1, "t"@) == Some(transfer_id));
    assert(spec_tag_value(t1, "s"@) == Some(base64_encode(salt)));
    lemma_decode_encoded(salt);
    lemma_decode_encoded(encrypted_payload);
}

/// Who and what an acknowledgment event is for, tag by tag: it is of kind
/// 24242; its `p` tag is the sender's public key (so the sender's filter on
/// its own key finds it), its `t` tag the transfer id, its `seq` tag reads
/// back as the sequence number, its `type` tag is `ack`, its `h` tag is the
/// hint when one is given and absent otherwise; and its content is the
/// sealed body in base64.
pub proof fn lemma_ack_event_contents(
    sender_pubkey_hex: Seq<char>,
    transfer_id: Seq<char>,
    seq: i64,
    encrypted_body: Seq<u8>,
    hint: Option<Seq<char>>,
)
    ensures
        ({
            let e = spec_ack_event(sender_pubkey_hex, transfer_id, seq, encrypted_body, hint);
            &&& e.kind == 24242
            &&& spec_tag_value(e.tags, "p"@) == Some(sender_pubkey_hex)
            &&& spec_tag_value(e.tags, "t"@) == Some(transfer_id)
            &&& spec_tag_value(e.tags, "seq"@) matches Some(sq) && spec_parse_i64(sq) == Some(seq)
            &&& spec_tag_value(e.tags, "type"@) == Some("ack"@)
            &&& spec_tag_value(e.tags, "h"@) == hint
            &&& spec_base64_decode(e.content) == Some(encrypted_body)
        }),
{
    reveal_strlit("p");
    reveal_strlit("t");
    reveal_strlit("seq");
    reveal_strlit("type");
    reveal_strlit("h");
    assert("p"@[0] != "t"@[0] && "p"@[0] != "h"@[0] && "t"@[0] != "h"@[0]);
    assert("p"@.len() != "seq"@.len() && "p"@.len() != "type"@.len() && "seq"@.len() != "type"@.len());
    assert("t"@.len() != "seq"@.len() && "h"@.len() != "seq"@.len() && "t"@.len() != "type"@.len() && "h"@.len() != "type"@.len());
    let base: Seq<TagView> = seq![("p"@, Some(sender_pubkey_hex)), ("t"@, Some(transfer_id)), ("seq"@, Some(signed_decimal(seq as int))), ("type"@, Some("ack"@))];
    let e = spec_ack_event(sender_pubkey_hex, transfer_id, seq, encrypted_body, hint);
    let t0 = e.tags;
    assert(t0.len() >= 4);
    assert(t0.take(4) =~= base);
    assert(t0[0] == base[0] && t0[1] == base[1] && t0[2] == base[2] && t0[3] == base[3]);
    let t1 = t0.drop_first();
    let t2 = t1.drop_first();
    let t3 = t2.drop_first();
    let t4 = t3.drop_first();
    assert(t1[0] == base[1] && t2[0] == base[2] && t3[0] == base[3]);
    assert(spec_tag_value(t3, "type"@) == Some("ack"@));
    assert(spec_tag_value(t2, "type"@) == Some("ack"@));
    assert(spec_tag_value(t1, "type"@) == Some("ack"@));
    assert(spec_tag_value(t2, "seq"@) == Some(signed_decimal(seq as int)));
    assert(spec_tag_value(t1, "seq"@) == Some(signed_decimal(seq as int)));
    assert(spec_tag_value(t0, "seq"@) == Some(signed_decimal(seq as int)));
    assert(spec_tag_value(t1, "t"@) == Some(transfer_id));
    assert(spec_tag_value(t0, "t"@) == Some(transfer_id));
    match hint {
        Some(h) => {
            assert(t4[0].0 == "h"@);
            assert(spec_tag_value(t4, "h"@) == Some(h));
            assert(spec_tag_value(t3, "h"@) == Some(h));
            assert(spec_tag_value(t2, "h"@) == Some(h));
            assert(spec_tag_value(t1, "h"@) == Some(h));
        },
        None => {
            assert(t4.len() == 0);
            assert(spec_tag_value(t4, "h"@) is None);
            assert(spec_tag_value(t3, "h"@) is None);
            assert(spec_tag_value(t2, "h"@) is None);
            assert(spec_tag_value(t1, "h"@) is None);
        },
    }
    lemma_signed_decimal_roundtrip(seq);
    lemma_decode_encoded(encrypted_body);
}

/// Who and what a signal event is for, tag by tag: it is of kind 24242; its
/// `t` tag is the transfer id, its `p` tag the sender's public key, its
/// `type` tag `signal`; and its content is the sealed envelope in base64.
pub proof fn lemma_signal_event_contents(sender_pubkey_hex: Seq<char>, transfer_id: Seq<char>, encrypted_envelope: Seq<u8>)
    ensures
        ({
            let e = spec_signal_event(sender_pubkey_hex, transfer_id, encrypted_envelope);
            &&& e.kind == 24242
            &&& spec_tag_value(e.tags, "t"@) == Some(transfer_id)
            &&& spec_tag_value(e.tags, "p"@) == Some(sender_pubkey_hex)
            &&& spec_tag_value(e.tags, "type"@) == Some("signal"@)
            &&& spec_base64_decode(e.content) == Some(encrypted_envelope)
        }),
{
    reveal_strlit("p");
    reveal_strlit("t");
    reveal_strlit("type");
    let e = spec_signal_event(sender_pubkey_hex, transfer_id, encrypted_envelope);
    let t0 = e.tags;
    let t1 = t0.drop_first();
    let t2 = t1.drop_first();
    assert("p"@[0] != "t"@[0]);
    assert("p"@.len() != "type"@.len());
    assert("p"@ != "type"@ && "t"@ != "type"@);
    assert(t2[0].0 == "type"@);
    assert(spec_tag_value(t2, "type"@) == Some("signal"@));
    assert(spec_tag_value(t1, "type"@) == Some("signal"@));
    assert(spec_tag_value(t1, "p"@) == Some(sender_pubkey_hex));
    lemma_decode_encoded(encrypted_envelope);
}

} // verus!
