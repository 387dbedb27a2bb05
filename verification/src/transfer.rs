//! Message-oriented file transfer over a data channel.
//!
//! The sender sends each 128 KiB plaintext chunk as an encrypted binary
//! message (index `0..N-1`), then the text message `DONE:N`, then waits for the
//! text `ACK`. The receiver checks each chunk against its index, writes it at
//! `index * 128 KiB`, and acknowledges only once `DONE:N` confirms the count and
//! every chunk has arrived.

use vstd::prelude::*;

use crate::crypto::aead::{spec_open_chunk_message, spec_open_sealed, spec_parse_chunk_message, index_bytes};
use crate::text::{all_digits, decimal, digits_value, lemma_decimal_roundtrip, parse_decimal_u64, push_decimal, str_chars, string_from_chars};

verus! {

/// Plaintext bytes carried by every chunk but the last.
pub const ENCRYPTION_CHUNK_SIZE: u64 = 131072;

/// The chunk index is a 2-byte big-endian field, so valid totals are `0..=65536`.
pub const MAX_CHUNKS: u64 = 0x10000;

/// Number of chunks needed for `total` bytes.
pub open spec fn spec_chunk_count(total: nat) -> nat {
    (total + ENCRYPTION_CHUNK_SIZE - 1) as nat / (ENCRYPTION_CHUNK_SIZE as nat)
}

/// Plaintext length of chunk `index` of a `total`-byte file.
pub open spec fn spec_plaintext_len(index: nat, total: nat) -> nat {
    let rest = total - index * ENCRYPTION_CHUNK_SIZE;
    if rest < ENCRYPTION_CHUNK_SIZE { rest as nat } else { ENCRYPTION_CHUNK_SIZE as nat }
}

/// Number of 128 KiB chunks needed for `total_bytes`.
pub fn chunk_count(total_bytes: u64) -> (r: u64)
    ensures
        r == spec_chunk_count(total_bytes as nat),
{
    let q = total_bytes / ENCRYPTION_CHUNK_SIZE;
    if total_bytes % ENCRYPTION_CHUNK_SIZE != 0 {
        q + 1
    } else {
        q
    }
}

/// Plaintext length of chunk `index` given the total size.
pub fn plaintext_len(index: u64, total_bytes: u64) -> (r: u64)
    requires
        index < spec_chunk_count(total_bytes as nat),
    ensures
        r == spec_plaintext_len(index as nat, total_bytes as nat),
        0 < r <= ENCRYPTION_CHUNK_SIZE,
{
    assert(index * ENCRYPTION_CHUNK_SIZE < total_bytes) by (nonlinear_arith)
        requires
            index < (total_bytes + ENCRYPTION_CHUNK_SIZE - 1) as nat / (ENCRYPTION_CHUNK_SIZE as nat),
    ;
    let start = index * ENCRYPTION_CHUNK_SIZE;
    let rest = total_bytes - start;
    if rest < ENCRYPTION_CHUNK_SIZE {
        rest
    } else {
        ENCRYPTION_CHUNK_SIZE
    }
}

/// Why a `DONE:` chunk count was rejected.
#[derive(Debug, Clone, Copy, PartialEq, Eq, Structural)]
pub enum DoneCountError {
    /// The count is empty or holds a character other than `0`-`9`.
    NonNumeric,
    /// The count does not fit in a `u64`.
    OutOfRange,
}

/// The characters of `DONE:`.
pub open spec fn done_prefix() -> Seq<char> {
    seq!['D', 'O', 'N', 'E', ':']
}

/// What `parse_done_count` gives for the characters `s`.
pub open spec fn spec_parse_done_count(s: Seq<char>) -> Result<u64, DoneCountError> {
    if s.len() == 0 || !all_digits(s) {
        Err(DoneCountError::NonNumeric)
    } else if digits_value(s) > u64::MAX {
        Err(DoneCountError::OutOfRange)
    } else {
        Ok(digits_value(s) as u64)
    }
}

/// Parses the chunk count of a `DONE:<count>` message: ASCII digits only.
pub fn parse_done_count(count: &str) -> (r: Result<u64, DoneCountError>)
    ensures
        r == spec_parse_done_count(count@),
{
    let chars = str_chars(count);
    if chars.len() == 0 {
        return Err(DoneCountError::NonNumeric);
    }
    let mut i: usize = 0;
    while i < chars.len()
        invariant
            0 <= i <= chars@.len(),
            chars@ == count@,
            forall|j: int| 0 <= j < i ==> crate::text::is_digit(#[trigger] chars@[j]),
        decreases chars@.len() - i,
    {
        let c = chars[i];
        if !('0' <= c && c <= '9') {
            assert(!crate::text::is_digit(count@[i as int]));
            assert(!all_digits(count@));
            return Err(DoneCountError::NonNumeric);
        }
        i = i + 1;
    }
    match parse_decimal_u64(chars.as_slice()) {
        Some(v) => Ok(v),
        None => Err(DoneCountError::OutOfRange),
    }
}

/// The text message announcing that `total_chunks` chunks were sent.
pub open spec fn spec_done_message(total_chunks: nat) -> Seq<char> {
    done_prefix() + decimal(total_chunks)
}

/// Builds the `DONE:<count>` text message.
pub fn done_message(total_chunks: u64) -> (r: String)
    ensures
        r@ == spec_done_message(total_chunks as nat),
{
    let mut v: Vec<char> = Vec::new();
    v.push('D');
    v.push('O');
    v.push('N');
    v.push('E');
    v.push(':');
    push_decimal(total_chunks, &mut v);
    assert(v@ =~= spec_done_message(total_chunks as nat));
    string_from_chars(v.as_slice())
}

/// The count a `DONE:` message announces reads back as itself.
pub proof fn lemma_done_count_roundtrip(n: u64)
    ensures
        spec_parse_done_count(decimal(n as nat)) == Ok::<u64, DoneCountError>(n),
        spec_done_message(n as nat).take(5) == done_prefix(),
        spec_done_message(n as nat).skip(5) == decimal(n as nat),
{
    lemma_decimal_roundtrip(n as nat);
    assert(spec_done_message(n as nat).take(5) =~= done_prefix());
    assert(spec_done_message(n as nat).skip(5) =~= decimal(n as nat));
}

/// Whether a data-channel message is the receiver's acknowledgment: the
/// text message `ACK`.
pub fn is_ack_message(is_string: bool, data: &[u8]) -> (r: bool)
    ensures
        r == (is_string && data@ == seq![65u8, 67u8, 75u8]),
{
    if !is_string || data.len() != 3 {
        return false;
    }
    let r = data[0] == 65u8 && data[1] == 67u8 && data[2] == 75u8;
    assert(r ==> data@ =~= seq![65u8, 67u8, 75u8]);
    r
}

/// How many chunks `received` marks as arrived.
pub open spec fn count_received(received: Seq<bool>) -> nat
    decreases received.len(),
{
    if received.len() == 0 {
        0
    } else {
        count_received(received.drop_last()) + if received.last() { 1nat } else { 0nat }
    }
}

/// How many plaintext bytes the chunks that `received` marks as arrived carry,
/// for a `total`-byte file.
pub open spec fn bytes_received(received: Seq<bool>, total: nat) -> nat
    decreases received.len(),
{
    if received.len() == 0 {
        0
    } else {
        bytes_received(received.drop_last(), total) + if received.last() {
            spec_plaintext_len((received.len() - 1) as nat, total)
        } else {
            0nat
        }
    }
}

/// The plaintext bytes of the first `k` chunks of a `total`-byte file.
pub open spec fn prefix_bytes(k: nat, total: nat) -> nat {
    if k * ENCRYPTION_CHUNK_SIZE < total { (k * ENCRYPTION_CHUNK_SIZE) as nat } else { total }
}

proof fn lemma_count_bounds(r: Seq<bool>)
    ensures
        count_received(r) <= r.len(),
        count_received(r) == r.len() ==> forall|i: int| 0 <= i < r.len() ==> #[trigger] r[i],
        (forall|i: int| 0 <= i < r.len() ==> #[trigger] r[i]) ==> count_received(r) == r.len(),
    decreases r.len(),
{
    if r.len() > 0 {
        lemma_count_bounds(r.drop_last());
        if count_received(r) == r.len() {
            assert forall|i: int| 0 <= i < r.len() implies #[trigger] r[i] by {
                if i < r.len() - 1 {
                    assert(r.drop_last()[i] == r[i]);
                }
            }
        }
        if forall|i: int| 0 <= i < r.len() ==> #[trigger] r[i] {
            assert forall|i: int| 0 <= i < r.drop_last().len() implies #[trigger] r.drop_last()[i] by {
                assert(r.drop_last()[i] == r[i]);
            }
        }
    }
}

proof fn lemma_bytes_bounds(r: Seq<bool>, total: nat)
    requires
        r.len() <= spec_chunk_count(total),
    ensures
        bytes_received(r, total) <= prefix_bytes(r.len(), total),
        (forall|i: int| 0 <= i < r.len() ==> #[trigger] r[i]) ==> bytes_received(r, total)
            == prefix_bytes(r.len(), total),
    decreases r.len(),
{
    if r.len() > 0 {
        let k = (r.len() - 1) as nat;
        lemma_bytes_bounds(r.drop_last(), total);
        assert(k * ENCRYPTION_CHUNK_SIZE < total) by (nonlinear_arith)
            requires
                k < (total + ENCRYPTION_CHUNK_SIZE - 1) as nat / (ENCRYPTION_CHUNK_SIZE as nat),
        ;
        if forall|i: int| 0 <= i < r.len() ==> #[trigger] r[i] {
            assert forall|i: int| 0 <= i < r.drop_last().len() implies #[trigger] r.drop_last()[i] by {
                assert(r.drop_last()[i] == r[i]);
            }
            assert(r[k as int]);
        }
    }
}

proof fn lemma_mark_received(r: Seq<bool>, total: nat, j: int)
    requires
        0 <= j < r.len(),
        !r[j],
    ensures
        count_received(r.update(j, true)) == count_received(r) + 1,
        bytes_received(r.update(j, true), total) == bytes_received(r, total)
            + spec_plaintext_len(j as nat, total),
    decreases r.len(),
{
    let u = r.update(j, true);
    if j == r.len() - 1 {
        assert(u.drop_last() =~= r.drop_last());
    } else {
        assert(u.drop_last() =~= r.drop_last().update(j, true));
        lemma_mark_received(r.drop_last(), total, j);
    }
}

/// The chunks of a `total`-byte file carry `total` bytes in all.
pub proof fn lemma_chunks_cover_file(total: nat)
    ensures
        prefix_bytes(spec_chunk_count(total), total) == total,
{
    let n = spec_chunk_count(total);
    assert(n * ENCRYPTION_CHUNK_SIZE >= total) by (nonlinear_arith)
        requires
            n == (total + ENCRYPTION_CHUNK_SIZE - 1) as nat / (ENCRYPTION_CHUNK_SIZE as nat),
    ;
}

/// Chunk `index` of a `total`-byte file starts where the chunks before it
/// end and ends where the next one starts: written at `index * 128 KiB`,
/// the chunks fill the file without gap or overlap.
pub proof fn lemma_chunks_tile_file(total: nat, index: nat)
    requires
        index < spec_chunk_count(total),
    ensures
        index * ENCRYPTION_CHUNK_SIZE == prefix_bytes(index, total),
        index * ENCRYPTION_CHUNK_SIZE + spec_plaintext_len(index, total) == prefix_bytes(index + 1, total),
{
    assert(index * ENCRYPTION_CHUNK_SIZE < total) by (nonlinear_arith)
        requires
            index < (total + ENCRYPTION_CHUNK_SIZE - 1) as nat / (ENCRYPTION_CHUNK_SIZE as nat),
    ;
    assert((index + 1) * ENCRYPTION_CHUNK_SIZE == index * ENCRYPTION_CHUNK_SIZE + ENCRYPTION_CHUNK_SIZE) by (nonlinear_arith);
}

/// What a sender sends is what a receiver takes: chunk `index` of a
/// `total`-byte file, sealed with its nonce and tag, passes the receiver's
/// check as long as that index has not arrived yet, and its plaintext is
/// accepted at offset `index * 128 KiB`.
pub proof fn lemma_sent_chunk_accepted(v: ReceiverView, index: u16)
    requires
        v.received.len() == spec_chunk_count(v.total_bytes),
        index < spec_chunk_count(v.total_bytes),
        !v.received[index as int],
    ensures
        spec_check_chunk(v, index, (spec_plaintext_len(index as nat, v.total_bytes) + NONCE_LEN + TAG_LEN) as u64)
            == Ok::<u64, ReceiveError>(spec_plaintext_len(index as nat, v.total_bytes) as u64),
        spec_accept_chunk(v, index, spec_plaintext_len(index as nat, v.total_bytes) as u64)
            == Ok::<u64, ReceiveError>((index * ENCRYPTION_CHUNK_SIZE) as u64),
{
    assert(spec_plaintext_len(index as nat, v.total_bytes) <= ENCRYPTION_CHUNK_SIZE);
}

/// The receiver's record of an `n`-chunk file once the first `k` chunks
/// have arrived.
pub open spec fn first_received(k: nat, n: nat) -> Seq<bool> {
    Seq::new(n, |i: int| i < k)
}

/// One step of a whole transfer of a `total`-byte file, chunk `k` sent with
/// its plaintext length: on the sender, the bytes sent after it are those
/// of the first `k + 1` chunks, that count reaches `total` exactly at the
/// last chunk, and before the last chunk the 2-byte index has room for the
/// next; on a receiver that holds the first `k` chunks, the sealed chunk
/// passes the check, its plaintext is accepted at `k * 128 KiB`, and the
/// receiver then holds the first `k + 1` chunks.
pub proof fn lemma_transfer_step(total: nat, k: nat)
    requires
        spec_chunk_count(total) <= MAX_CHUNKS,
        k < spec_chunk_count(total),
    ensures
        prefix_bytes(k, total) + spec_plaintext_len(k, total) == prefix_bytes(k + 1, total),
        (prefix_bytes(k + 1, total) == total) <==> (k + 1 == spec_chunk_count(total)),
        k + 1 < spec_chunk_count(total) ==> k < 0xffff,
        ({
            let v = ReceiverView {
                total_bytes: total,
                received: first_received(k, spec_chunk_count(total)),
                done: false,
            };
            &&& spec_check_chunk(v, k as u16, (spec_plaintext_len(k, total) + NONCE_LEN + TAG_LEN) as u64)
                == Ok::<u64, ReceiveError>(spec_plaintext_len(k, total) as u64)
            &&& spec_accept_chunk(v, k as u16, spec_plaintext_len(k, total) as u64)
                == Ok::<u64, ReceiveError>((k * ENCRYPTION_CHUNK_SIZE) as u64)
            &&& v.received.update(k as int, true) == first_received(k + 1, spec_chunk_count(total))
        }),
{
    let n = spec_chunk_count(total);
    lemma_chunks_tile_file(total, k);
    if k + 1 < n {
        lemma_chunks_tile_file(total, k + 1);
    } else {
        lemma_chunks_cover_file(total);
    }
    let v = ReceiverView { total_bytes: total, received: first_received(k, n), done: false };
    assert(v.received.update(k as int, true) =~= first_received(k + 1, n));
    assert((k as u16) as nat == k);
    lemma_sent_chunk_accepted(v, k as u16);
}

/// The end of a whole transfer of a `total`-byte file: the `DONE:` message
/// the sender writes is accepted, and a receiver holding every chunk has
/// all of them and exactly `total` bytes, so it finishes.
pub proof fn lemma_transfer_end(total: nat)
    requires
        spec_chunk_count(total) <= MAX_CHUNKS,
    ensures
        spec_on_text(spec_done_message(spec_chunk_count(total)), spec_chunk_count(total)) == Ok::<(), ReceiveError>(()),
        forall|i: int| 0 <= i < spec_chunk_count(total)
            ==> #[trigger] first_received(spec_chunk_count(total), spec_chunk_count(total))[i],
        bytes_received(first_received(spec_chunk_count(total), spec_chunk_count(total)), total) == total,
{
    let n = spec_chunk_count(total);
    lemma_done_message_accepted(n as u64, n as u64);
    lemma_all_chunks_hold_whole_file(first_received(n, n), total);
}

/// Chunk `i` of the file contents `data`: its bytes from `i * 128 KiB`, as
/// many as that chunk carries. This is what the sender reads and seals as
/// chunk `i`.
pub open spec fn chunk_of(data: Seq<u8>, i: nat) -> Seq<u8> {
    data.subrange((i * ENCRYPTION_CHUNK_SIZE) as int, (i * ENCRYPTION_CHUNK_SIZE + spec_plaintext_len(i, data.len())) as int)
}

/// `file` with `bytes` written over it from `offset` on.
pub open spec fn write_at(file: Seq<u8>, offset: int, bytes: Seq<u8>) -> Seq<u8> {
    file.take(offset) + bytes + file.skip(offset + bytes.len())
}

/// The receiver's file, first `start`, after the chunks `0..k` of `data`
/// were written at the offsets the receiver accepts them at.
pub open spec fn file_after_chunks(data: Seq<u8>, start: Seq<u8>, k: nat) -> Seq<u8>
    decreases k,
{
    if k == 0 {
        start
    } else {
        write_at(
            file_after_chunks(data, start, (k - 1) as nat),
            ((k - 1) * ENCRYPTION_CHUNK_SIZE) as int,
            chunk_of(data, (k - 1) as nat),
        )
    }
}

proof fn lemma_file_after_chunks_prefix(data: Seq<u8>, start: Seq<u8>, k: nat)
    requires
        start.len() == data.len(),
        k <= spec_chunk_count(data.len()),
    ensures
        file_after_chunks(data, start, k).len() == data.len(),
        file_after_chunks(data, start, k).take(prefix_bytes(k, data.len()) as int)
            == data.take(prefix_bytes(k, data.len()) as int),
    decreases k,
{
    let total = data.len();
    if k == 0 {
        assert(file_after_chunks(data, start, 0).take(0) =~= data.take(0));
    } else {
        let j = (k - 1) as nat;
        lemma_file_after_chunks_prefix(data, start, j);
        lemma_chunks_tile_file(total, j);
        let f = file_after_chunks(data, start, j);
        let off = (j * ENCRYPTION_CHUNK_SIZE) as int;
        let c = chunk_of(data, j);
        let p0 = prefix_bytes(j, total) as int;
        let p1 = prefix_bytes(k, total) as int;
        assert(off == p0);
        assert(p1 <= total) by {
            if k * ENCRYPTION_CHUNK_SIZE < total {
            }
        }
        assert(c.len() == p1 - p0);
        let g = write_at(f, off, c);
        assert(g == file_after_chunks(data, start, k));
        assert(g.len() == total);
        assert(g.take(p1) =~= f.take(p0) + c);
        assert(data.take(p1) =~= data.take(p0) + c);
    }
}

/// A whole transfer delivers the file: a receiver that starts from a file
/// of the right length and writes every chunk of `data`, each at the offset
/// it accepts it at (`index * 128 KiB`), ends up holding exactly `data`.
/// With `encrypt_chunk` (a chunk message decrypts to its index and
/// plaintext) and `lemma_transfer_step` / `lemma_transfer_end` (every chunk
/// is accepted and `DONE:` completes), this is the sender's file arriving
/// unchanged.
pub proof fn lemma_received_file_is_sent_file(data: Seq<u8>, start: Seq<u8>)
    requires
        start.len() == data.len(),
    ensures
        file_after_chunks(data, start, spec_chunk_count(data.len())) == data,
{
    let total = data.len();
    let n = spec_chunk_count(total);
    lemma_file_after_chunks_prefix(data, start, n);
    lemma_chunks_cover_file(total);
    assert(data.take(total as int) =~= data);
    assert(file_after_chunks(data, start, n).take(total as int) =~= file_after_chunks(data, start, n));
}

/// A whole transfer of the file contents `data`, composed. Let `msgs[i]` be
/// the message the sender builds for chunk `i` (what `encrypt_chunk`
/// returns: `chunk_of(data, i)` sealed with index `i`, 30 bytes longer).
/// Then for every `i` in order, on a receiver holding the chunks before it,
/// the message splits into index `i` and sealed bytes that pass
/// `check_chunk`, open to `chunk_of(data, i)`, and are accepted at
/// `i * 128 KiB`; the sender's `DONE:` message is then accepted; and the
/// receiver's file, written chunk by chunk at those offsets, holds `data`.
pub proof fn lemma_whole_transfer(key: Seq<u8>, data: Seq<u8>, start: Seq<u8>, msgs: Seq<Seq<u8>>)
    requires
        start.len() == data.len(),
        spec_chunk_count(data.len()) <= MAX_CHUNKS,
        msgs.len() == spec_chunk_count(data.len()),
        forall|i: int| 0 <= i < msgs.len() ==> #[trigger] msgs[i].len() == spec_plaintext_len(i as nat, data.len()) + 30,
        forall|i: int| 0 <= i < msgs.len() ==> spec_open_chunk_message(key, #[trigger] msgs[i])
            == Some((i as u16, chunk_of(data, i as nat))),
    ensures
        forall|i: int| 0 <= i < msgs.len() ==> {
            let v = ReceiverView {
                total_bytes: data.len(),
                received: first_received(i as nat, spec_chunk_count(data.len())),
                done: false,
            };
            let len = spec_plaintext_len(i as nat, data.len());
            &&& spec_parse_chunk_message(#[trigger] msgs[i]) == Some((i as u16, msgs[i].skip(2)))
            &&& spec_check_chunk(v, i as u16, msgs[i].skip(2).len() as u64) == Ok::<u64, ReceiveError>(len as u64)
            &&& spec_open_sealed(key, msgs[i].skip(2), index_bytes(i as u16)) == Some(chunk_of(data, i as nat))
            &&& spec_accept_chunk(v, i as u16, chunk_of(data, i as nat).len() as u64)
                == Ok::<u64, ReceiveError>((i * ENCRYPTION_CHUNK_SIZE) as u64)
        },
        spec_on_text(spec_done_message(spec_chunk_count(data.len())), spec_chunk_count(data.len())) == Ok::<(), ReceiveError>(()),
        file_after_chunks(data, start, spec_chunk_count(data.len())) == data,
{
    let total = data.len();
    let n = spec_chunk_count(total);
    assert forall|i: int| 0 <= i < msgs.len() implies {
        let v = ReceiverView { total_bytes: total, received: first_received(i as nat, n), done: false };
        let len = spec_plaintext_len(i as nat, total);
        &&& spec_parse_chunk_message(#[trigger] msgs[i]) == Some((i as u16, msgs[i].skip(2)))
        &&& spec_check_chunk(v, i as u16, msgs[i].skip(2).len() as u64) == Ok::<u64, ReceiveError>(len as u64)
        &&& spec_open_sealed(key, msgs[i].skip(2), index_bytes(i as u16)) == Some(chunk_of(data, i as nat))
        &&& spec_accept_chunk(v, i as u16, chunk_of(data, i as nat).len() as u64)
            == Ok::<u64, ReceiveError>((i * ENCRYPTION_CHUNK_SIZE) as u64)
    } by {
        lemma_transfer_step(total, i as nat);
        lemma_chunks_tile_file(total, i as nat);
        assert(spec_open_chunk_message(key, msgs[i]) == Some((i as u16, chunk_of(data, i as nat))));
        assert(spec_plaintext_len(i as nat, total) <= ENCRYPTION_CHUNK_SIZE);
        assert(chunk_of(data, i as nat).len() == spec_plaintext_len(i as nat, total)) by {
            if (i + 1) * ENCRYPTION_CHUNK_SIZE < total {
            }
        }
    }
    lemma_transfer_end(total);
    lemma_received_file_is_sent_file(data, start);
}

/// Why the receiving side stopped a transfer.
#[derive(Debug, Clone, Copy, PartialEq, Eq, Structural)]
pub enum ReceiveError {
    /// A `DONE:` message whose count is not a decimal `u64`.
    InvalidDoneMessage(DoneCountError),
    /// The sender reported a chunk count other than the expected one.
    ChunkCountMismatch { reported: u64, expected: u64 },
    /// A text message other than `DONE:<count>`.
    UnexpectedControlMessage,
    /// A chunk index at or past the expected number of chunks.
    ChunkIndexOutOfRange { index: u16, expected: u64 },
    /// A chunk index that already arrived.
    DuplicateChunk { index: u16 },
    /// An encrypted chunk whose length does not fit its index.
    EncryptedLengthMismatch { index: u16, expected: u64, actual: u64 },
    /// A decrypted chunk whose length does not fit its index.
    PlaintextLengthMismatch { index: u16, expected: u64, actual: u64 },
    /// The channel closed before `DONE:` arrived.
    ClosedBeforeDone,
    /// `DONE:` arrived but chunks are missing.
    Incomplete { chunks: u64, expected_chunks: u64, bytes: u64, total_bytes: u64 },
}

/// Nonce bytes at the front of every encrypted chunk.
pub const NONCE_LEN: u64 = 12;

/// Authentication tag bytes at the end of every encrypted chunk.
pub const TAG_LEN: u64 = 16;

/// The receiving side of a transfer: which chunks have arrived and whether
/// the sender has confirmed the count.
pub struct ChunkReceiver {
    total_bytes: u64,
    expected_chunks: u64,
    received: Vec<bool>,
    received_count: u64,
    received_bytes: u64,
    done: bool,
}

/// What a `ChunkReceiver` holds, as mathematical values.
pub struct ReceiverView {
    pub total_bytes: nat,
    pub received: Seq<bool>,
    pub done: bool,
}

impl View for ChunkReceiver {
    type V = ReceiverView;

    closed spec fn view(&self) -> ReceiverView {
        ReceiverView { total_bytes: self.total_bytes as nat, received: self.received@, done: self.done }
    }
}

impl ChunkReceiver {
    /// The receiver's counters agree with the chunks it has marked.
    pub closed spec fn wf(&self) -> bool {
        &&& self.expected_chunks == spec_chunk_count(self.total_bytes as nat)
        &&& self.received@.len() == self.expected_chunks
        &&& self.received_count == count_received(self.received@)
        &&& self.received_bytes == bytes_received(self.received@, self.total_bytes as nat)
    }

    /// A receiver for a `total_bytes`-byte file with nothing received yet.
    pub fn new(total_bytes: u64) -> (r: Self)
        requires
            spec_chunk_count(total_bytes as nat) <= usize::MAX,
        ensures
            r.wf(),
            r@.total_bytes == total_bytes,
            r@.received == Seq::new(spec_chunk_count(total_bytes as nat), |i: int| false),
            !r@.done,
    {
        let expected_chunks = chunk_count(total_bytes);
        let received = vec![false; expected_chunks as usize];
        let r = ChunkReceiver {
            total_bytes,
            expected_chunks,
            received,
            received_count: 0,
            received_bytes: 0,
            done: false,
        };
        proof {
            lemma_all_false(r.received@, total_bytes as nat);
            assert(r.received@ =~= Seq::new(spec_chunk_count(total_bytes as nat), |i: int| false));
        }
        r
    }

    /// The number of chunks the file is split into.
    pub fn expected_chunks(&self) -> (r: u64)
        requires
            self.wf(),
        ensures
            r == spec_chunk_count(self@.total_bytes),
    {
        self.expected_chunks
    }

    /// Plaintext bytes received so far.
    pub fn received_bytes(&self) -> (r: u64)
        requires
            self.wf(),
        ensures
            r == bytes_received(self@.received, self@.total_bytes),
    {
        self.received_bytes
    }

    /// Handles a text message. `Ok(())` means the sender confirmed the
    /// expected chunk count with `DONE:<count>`; anything else is an error.
    pub fn on_text(&mut self, text: &str) -> (r: Result<(), ReceiveError>)
        requires
            old(self).wf(),
        ensures
            final(self).wf(),
            final(self)@.total_bytes == old(self)@.total_bytes,
            final(self)@.received == old(self)@.received,
            final(self)@.done == (old(self)@.done || r is Ok),
            r == spec_on_text(text@, spec_chunk_count(old(self)@.total_bytes)),
    {
        let chars = str_chars(text);
        if chars.len() >= 5 && chars[0] == 'D' && chars[1] == 'O' && chars[2] == 'N'
            && chars[3] == 'E' && chars[4] == ':' {
            assert(text@.take(5) =~= done_prefix());
            let mut rest: Vec<char> = Vec::new();
            let mut i: usize = 5;
            while i < chars.len()
                invariant
                    5 <= i <= chars@.len(),
                    rest@ == chars@.subrange(5, i as int),
                decreases chars@.len() - i,
            {
                rest.push(chars[i]);
                i = i + 1;
                assert(rest@ =~= chars@.subrange(5, i as int));
            }
            assert(rest@ =~= text@.skip(5));
            let rest_str = string_from_chars(rest.as_slice());
            match parse_done_count(rest_str.as_str()) {
                Err(e) => Err(ReceiveError::InvalidDoneMessage(e)),
                Ok(n) => {
                    if n != self.expected_chunks {
                        Err(ReceiveError::ChunkCountMismatch { reported: n, expected: self.expected_chunks })
                    } else {
                        self.done = true;
                        Ok(())
                    }
                },
            }
        } else {
            proof {
                if text@.len() >= 5 {
                    assert(text@.take(5) != done_prefix()) by {
                        if text@.take(5) == done_prefix() {
                            assert(text@.take(5)[0] == 'D');
                            assert(text@.take(5)[1] == 'O');
                            assert(text@.take(5)[2] == 'N');
                            assert(text@.take(5)[3] == 'E');
                            assert(text@.take(5)[4] == ':');
                        }
                    }
                }
            }
            Err(ReceiveError::UnexpectedControlMessage)
        }
    }

    /// Checks an encrypted chunk before it is decrypted; gives the plaintext
    /// length the chunk must decrypt to.
    pub fn check_chunk(&self, index: u16, encrypted_len: u64) -> (r: Result<u64, ReceiveError>)
        requires
            self.wf(),
        ensures
            r == spec_check_chunk(self@, index, encrypted_len),
    {
        let index_u64 = index as u64;
        if index_u64 >= self.expected_chunks {
            return Err(ReceiveError::ChunkIndexOutOfRange { index, expected: self.expected_chunks });
        }
        if self.received[index as usize] {
            return Err(ReceiveError::DuplicateChunk { index });
        }
        let expect_plain = plaintext_len(index_u64, self.total_bytes);
        let expect_encrypted = expect_plain + NONCE_LEN + TAG_LEN;
        if encrypted_len != expect_encrypted {
            return Err(ReceiveError::EncryptedLengthMismatch { index, expected: expect_encrypted, actual: encrypted_len });
        }
        Ok(expect_plain)
    }

    /// Records a decrypted chunk whose encrypted form passed `check_chunk`;
    /// gives the file offset at which its plaintext belongs.
    pub fn accept_chunk(&mut self, index: u16, plaintext_len: u64) -> (r: Result<u64, ReceiveError>)
        requires
            old(self).wf(),
            index < old(self)@.received.len(),
            !old(self)@.received[index as int],
        ensures
            final(self).wf(),
            final(self)@.total_bytes == old(self)@.total_bytes,
            final(self)@.done == old(self)@.done,
            r == spec_accept_chunk(old(self)@, index, plaintext_len),
            r is Ok ==> final(self)@.received == old(self)@.received.update(index as int, true),
            r is Err ==> final(self)@.received == old(self)@.received,
    {
        let index_u64 = index as u64;
        let expect_plain = crate::transfer::plaintext_len(index_u64, self.total_bytes);
        if plaintext_len != expect_plain {
            return Err(ReceiveError::PlaintextLengthMismatch { index, expected: expect_plain, actual: plaintext_len });
        }
        proof {
            lemma_mark_received(self.received@, self.total_bytes as nat, index as int);
            lemma_count_bounds(self.received@.update(index as int, true));
            lemma_bytes_bounds(self.received@.update(index as int, true), self.total_bytes as nat);
        }
        self.received.set(index as usize, true);
        self.received_count = self.received_count + 1;
        self.received_bytes = self.received_bytes + plaintext_len;
        assert(index_u64 * ENCRYPTION_CHUNK_SIZE <= u64::MAX) by (nonlinear_arith)
            requires index_u64 < 0x10000;
        Ok(index_u64 * ENCRYPTION_CHUNK_SIZE)
    }

    /// Decides, once the channel stops delivering messages, whether the
    /// transfer is complete.
    pub fn finish(&self) -> (r: Result<(), ReceiveError>)
        requires
            self.wf(),
        ensures
            r is Ok <==> (self@.done && forall|i: int|
                0 <= i < self@.received.len() ==> #[trigger] self@.received[i]),
            !self@.done ==> r == Err::<(), ReceiveError>(ReceiveError::ClosedBeforeDone),
            r is Err && self@.done ==> r == Err::<(), ReceiveError>(ReceiveError::Incomplete {
                chunks: count_received(self@.received) as u64,
                expected_chunks: spec_chunk_count(self@.total_bytes) as u64,
                bytes: bytes_received(self@.received, self@.total_bytes) as u64,
                total_bytes: self@.total_bytes as u64,
            }),
    {
        proof {
            lemma_count_bounds(self.received@);
            lemma_bytes_bounds(self.received@, self.total_bytes as nat);
            lemma_chunks_cover_file(self.total_bytes as nat);
        }
        if !self.done {
            return Err(ReceiveError::ClosedBeforeDone);
        }
        if self.received_count != self.expected_chunks || self.received_bytes != self.total_bytes {
            assert(!(forall|i: int| 0 <= i < self.received@.len() ==> #[trigger] self.received@[i]));
            assert(self@.received == self.received@);
            assert(!(forall|i: int| 0 <= i < self@.received.len() ==> #[trigger] self@.received[i]));
            return Err(ReceiveError::Incomplete {
                chunks: self.received_count,
                expected_chunks: self.expected_chunks,
                bytes: self.received_bytes,
                total_bytes: self.total_bytes,
            });
        }
        Ok(())
    }
}

proof fn lemma_all_false(r: Seq<bool>, total: nat)
    requires
        forall|i: int| 0 <= i < r.len() ==> !#[trigger] r[i],
    ensures
        count_received(r) == 0,
        bytes_received(r, total) == 0,
    decreases r.len(),
{
    if r.len() > 0 {
        assert forall|i: int| 0 <= i < r.drop_last().len() implies !#[trigger] r.drop_last()[i] by {
            assert(r.drop_last()[i] == r[i]);
        }
        lemma_all_false(r.drop_last(), total);
    }
}

/// What `ChunkReceiver::on_text` answers to the text `text` when the file has
/// `expected` chunks.
pub open spec fn spec_on_text(text: Seq<char>, expected: nat) -> Result<(), ReceiveError> {
    if text.len() >= 5 && text.take(5) == done_prefix() {
        match spec_parse_done_count(text.skip(5)) {
            Err(e) => Err(ReceiveError::InvalidDoneMessage(e)),
            Ok(n) => if n != expected {
                Err(ReceiveError::ChunkCountMismatch { reported: n, expected: expected as u64 })
            } else {
                Ok(())
            },
        }
    } else {
        Err(ReceiveError::UnexpectedControlMessage)
    }
}

/// What `ChunkReceiver::check_chunk` answers for an encrypted chunk.
pub open spec fn spec_check_chunk(v: ReceiverView, index: u16, encrypted_len: u64) -> Result<u64, ReceiveError> {
    let expected = spec_chunk_count(v.total_bytes);
    if index >= expected {
        Err(ReceiveError::ChunkIndexOutOfRange { index, expected: expected as u64 })
    } else if v.received[index as int] {
        Err(ReceiveError::DuplicateChunk { index })
    } else if encrypted_len != spec_plaintext_len(index as nat, v.total_bytes) + NONCE_LEN + TAG_LEN {
        Err(ReceiveError::EncryptedLengthMismatch {
            index,
            expected: (spec_plaintext_len(index as nat, v.total_bytes) + NONCE_LEN + TAG_LEN) as u64,
            actual: encrypted_len,
        })
    } else {
        Ok(spec_plaintext_len(index as nat, v.total_bytes) as u64)
    }
}

/// What `ChunkReceiver::accept_chunk` answers for a decrypted chunk.
pub open spec fn spec_accept_chunk(v: ReceiverView, index: u16, plaintext_len: u64) -> Result<u64, ReceiveError> {
    if plaintext_len != spec_plaintext_len(index as nat, v.total_bytes) {
        Err(ReceiveError::PlaintextLengthMismatch {
            index,
            expected: spec_plaintext_len(index as nat, v.total_bytes) as u64,
            actual: plaintext_len,
        })
    } else {
        Ok((index * ENCRYPTION_CHUNK_SIZE) as u64)
    }
}

/// A `DONE:` message that announces the expected count completes the
/// receiver's confirmation step, and one that announces any other count is
/// refused: the count a sender writes is the count a receiver reads.
pub proof fn lemma_done_message_accepted(announced: u64, expected: u64)
    ensures
        spec_on_text(spec_done_message(announced as nat), expected as nat) == if announced == expected {
            Ok::<(), ReceiveError>(())
        } else {
            Err::<(), ReceiveError>(ReceiveError::ChunkCountMismatch { reported: announced, expected })
        },
{
    lemma_done_count_roundtrip(announced);
    lemma_decimal_roundtrip(announced as nat);
}

/// Once every chunk of a file has been accepted, the receiver holds exactly
/// as many plaintext bytes as the file has.
pub proof fn lemma_all_chunks_hold_whole_file(received: Seq<bool>, total_bytes: nat)
    requires
        received.len() == spec_chunk_count(total_bytes),
        forall|i: int| 0 <= i < received.len() ==> #[trigger] received[i],
    ensures
        bytes_received(received, total_bytes) == total_bytes,
        count_received(received) == spec_chunk_count(total_bytes),
{
    lemma_bytes_bounds(received, total_bytes);
    lemma_count_bounds(received);
    lemma_chunks_cover_file(total_bytes);
}

/// Why the sending side stopped a transfer.
#[derive(Debug, Clone, Copy, PartialEq, Eq, Structural)]
pub enum SendError {
    /// The file needs more chunks than a 2-byte index can number.
    FileTooLarge { chunks: u64, limit: u64 },
    /// The file kept producing data past the last numberable chunk.
    IndexOverflow,
    /// The number of chunks sent does not match the file size.
    ChunkCountMismatch { sent_chunks: u64, expected_chunks: u64, sent_bytes: u64 },
}

/// The sending side of a transfer: the next chunk index and what has been
/// sent so far.
pub struct ChunkSender {
    total_bytes: u64,
    total_chunks: u64,
    index: u16,
    chunks_sent: u64,
    sent: u64,
    finished: bool,
}

/// What a `ChunkSender` holds, as mathematical values.
pub struct SenderView {
    pub total_bytes: nat,
    pub index: nat,
    pub chunks_sent: nat,
    pub sent: nat,
    pub finished: bool,
}

impl View for ChunkSender {
    type V = SenderView;

    closed spec fn view(&self) -> SenderView {
        SenderView {
            total_bytes: self.total_bytes as nat,
            index: self.index as nat,
            chunks_sent: self.chunks_sent as nat,
            sent: self.sent as nat,
            finished: self.finished,
        }
    }
}

impl ChunkSender {
    /// The sender's counters are consistent.
    pub closed spec fn wf(&self) -> bool {
        &&& self.total_chunks == spec_chunk_count(self.total_bytes as nat)
        &&& self.total_chunks <= MAX_CHUNKS
        &&& self.chunks_sent <= MAX_CHUNKS
        &&& self.sent <= self.chunks_sent * ENCRYPTION_CHUNK_SIZE
    }

    /// The sender may send the chunk numbered `index` next.
    pub open spec fn ready(&self) -> bool {
        &&& !self@.finished
        &&& self@.chunks_sent == self@.index
    }

    /// A sender for a `total_bytes`-byte file; refused when the file needs
    /// more than `MAX_CHUNKS` chunks.
    pub fn new(total_bytes: u64) -> (r: Result<Self, SendError>)
        ensures
            r is Err <==> spec_chunk_count(total_bytes as nat) > MAX_CHUNKS,
            r is Err ==> r == Err::<Self, SendError>(SendError::FileTooLarge {
                chunks: spec_chunk_count(total_bytes as nat) as u64,
                limit: MAX_CHUNKS,
            }),
            r matches Ok(s) ==> s.wf() && s.ready() && s@ == (SenderView {
                total_bytes: total_bytes as nat,
                index: 0,
                chunks_sent: 0,
                sent: 0,
                finished: false,
            }),
    {
        let total_chunks = chunk_count(total_bytes);
        if total_chunks > MAX_CHUNKS {
            return Err(SendError::FileTooLarge { chunks: total_chunks, limit: MAX_CHUNKS });
        }
        Ok(ChunkSender { total_bytes, total_chunks, index: 0, chunks_sent: 0, sent: 0, finished: false })
    }

    /// The index to give the next chunk.
    pub fn next_index(&self) -> (r: u16)
        ensures
            r == self@.index,
    {
        self.index
    }

    /// Plaintext bytes sent so far.
    pub fn sent_bytes(&self) -> (r: u64)
        ensures
            r == self@.sent,
    {
        self.sent
    }

    /// Records that a chunk of `n` plaintext bytes was sent. `Ok(true)` means
    /// the whole file has gone out; `Ok(false)` that another chunk follows.
    pub fn record_sent(&mut self, n: u64) -> (r: Result<bool, SendError>)
        requires
            old(self).wf(),
            old(self).ready(),
            0 < n <= ENCRYPTION_CHUNK_SIZE,
        ensures
            final(self).wf(),
            final(self)@.total_bytes == old(self)@.total_bytes,
            final(self)@.sent == old(self)@.sent + n,
            final(self)@.chunks_sent == old(self)@.chunks_sent + 1,
            r == (if final(self)@.sent == old(self)@.total_bytes {
                Ok::<bool, SendError>(true)
            } else if old(self)@.index == 0xffff {
                Err::<bool, SendError>(SendError::IndexOverflow)
            } else {
                Ok::<bool, SendError>(false)
            }),
            r == Ok::<bool, SendError>(true) ==> final(self)@.finished,
            r == Ok::<bool, SendError>(false) ==> final(self).ready() && final(self)@.index == old(self)@.index + 1,
    {
        assert(self.sent + n <= (self.chunks_sent + 1) * ENCRYPTION_CHUNK_SIZE) by (nonlinear_arith)
            requires self.sent <= self.chunks_sent * ENCRYPTION_CHUNK_SIZE, n <= ENCRYPTION_CHUNK_SIZE;
        assert((self.chunks_sent + 1) * ENCRYPTION_CHUNK_SIZE <= u64::MAX) by (nonlinear_arith)
            requires self.chunks_sent < MAX_CHUNKS;
        self.sent = self.sent + n;
        self.chunks_sent = self.chunks_sent + 1;
        if self.sent == self.total_bytes {
            self.finished = true;
            return Ok(true);
        }
        if self.index == 0xffff {
            return Err(SendError::IndexOverflow);
        }
        self.index = self.index + 1;
        Ok(false)
    }

    /// Once the file has been read to its end, checks that the expected
    /// number of chunks went out and gives the `DONE:<count>` message.
    pub fn finish(&self) -> (r: Result<String, SendError>)
        requires
            self.wf(),
        ensures
            r is Ok <==> self@.chunks_sent == spec_chunk_count(self@.total_bytes),
            r matches Ok(m) ==> m@ == spec_done_message(spec_chunk_count(self@.total_bytes)),
            r is Err ==> r == Err::<String, SendError>(SendError::ChunkCountMismatch {
                sent_chunks: self@.chunks_sent as u64,
                expected_chunks: spec_chunk_count(self@.total_bytes) as u64,
                sent_bytes: self@.sent as u64,
            }),
    {
        if self.chunks_sent != self.total_chunks {
            return Err(SendError::ChunkCountMismatch {
                sent_chunks: self.chunks_sent,
                expected_chunks: self.total_chunks,
                sent_bytes: self.sent,
            });
        }
        Ok(done_message(self.total_chunks))
    }
}

} // verus!
