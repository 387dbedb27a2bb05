//! AES-256-GCM sealing from the `aes-gcm` crate, and the byte layouts built
//! on it: a sealed value is `nonce(12) || ciphertext || tag(16)`, and a chunk
//! message puts its 2-byte big-endian index in front and authenticates that
//! index as associated data.

use vstd::prelude::*;

use aes_gcm::aead::{Aead, KeyInit, Payload};

use crate::crypto::random::random_bytes;

verus! {

/// Bytes of an AES-GCM nonce.
pub const NONCE_BYTES: usize = 12;

/// Bytes of an AES-GCM authentication tag.
pub const TAG_BYTES: usize = 16;

/// The most bytes of plaintext, or of associated data, AES-GCM takes: 2^36.
pub const AES_GCM_MAX_LEN: u64 = 0x10_0000_0000;

/// The ciphertext followed by its 16-byte tag that AES-256-GCM makes of
/// `plaintext` under `key` and a 12-byte `nonce`, authenticating `aad`.
pub uninterp spec fn aes256_gcm_seal(key: Seq<u8>, nonce: Seq<u8>, plaintext: Seq<u8>, aad: Seq<u8>) -> Seq<u8>;

/// What AES-256-GCM opening of `sealed` (ciphertext and tag) under `key`,
/// a 12-byte `nonce` and associated data `aad` gives: the plaintext, or
/// `None` when the tag does not authenticate.
pub uninterp spec fn aes256_gcm_open(key: Seq<u8>, nonce: Seq<u8>, sealed: Seq<u8>, aad: Seq<u8>) -> Option<Seq<u8>>;

/// The bytes of an optional byte vector.
pub open spec fn opt_bytes(o: Option<Vec<u8>>) -> Option<Seq<u8>> {
    match o {
        Some(v) => Some(v@),
        None => None,
    }
}

/// Calls `Aead::encrypt` of `aes_gcm::Aes256Gcm` with a `Payload` of the
/// plaintext and the associated data. Claims what the crate's source shows:
/// it fails exactly when the plaintext or the associated data is longer than
/// 2^36 bytes; otherwise the result is the named sealed value, 16 bytes
/// longer than the plaintext, and opening it with the same key, nonce and
/// associated data gives the plaintext back.
#[verifier::external_body]
pub(crate) fn aes_gcm_seal(key: &[u8; 32], nonce: &[u8], plaintext: &[u8], aad: &[u8]) -> (r: Option<Vec<u8>>)
    requires
        nonce@.len() == NONCE_BYTES,
    ensures
        r is Some <==> (plaintext@.len() <= AES_GCM_MAX_LEN && aad@.len() <= AES_GCM_MAX_LEN),
        r matches Some(c) ==> c@ == aes256_gcm_seal(key@, nonce@, plaintext@, aad@),
        r matches Some(c) ==> c@.len() == plaintext@.len() + TAG_BYTES,
        r matches Some(c) ==> aes256_gcm_open(key@, nonce@, c@, aad@) == Some(plaintext@),
{
    let cipher = aes_gcm::Aes256Gcm::new(aes_gcm::Key::<aes_gcm::Aes256Gcm>::from_slice(key));
    cipher.encrypt(aes_gcm::Nonce::from_slice(nonce), Payload { msg: plaintext, aad }).ok()
}

/// Calls `Aead::decrypt` of `aes_gcm::Aes256Gcm` with a `Payload` of the
/// sealed bytes and the associated data. Claims that the result is the named
/// opening of the arguments, and what the crate's source shows of its
/// length: a plaintext is 16 bytes shorter than the sealed bytes, so sealed
/// bytes shorter than a tag never open.
#[verifier::external_body]
pub(crate) fn aes_gcm_open(key: &[u8; 32], nonce: &[u8], sealed: &[u8], aad: &[u8]) -> (r: Option<Vec<u8>>)
    requires
        nonce@.len() == NONCE_BYTES,
    ensures
        opt_bytes(r) == aes256_gcm_open(key@, nonce@, sealed@, aad@),
        r matches Some(p) ==> p@.len() + TAG_BYTES == sealed@.len(),
{
    let cipher = aes_gcm::Aes256Gcm::new(aes_gcm::Key::<aes_gcm::Aes256Gcm>::from_slice(key));
    cipher.decrypt(aes_gcm::Nonce::from_slice(nonce), Payload { msg: sealed, aad }).ok()
}

/// What opening the sealed value `data` gives: `None` when it is shorter
/// than a nonce and a tag; otherwise the opening of the bytes after the
/// nonce under the nonce it starts with.
pub open spec fn spec_open_sealed(key: Seq<u8>, data: Seq<u8>, aad: Seq<u8>) -> Option<Seq<u8>> {
    if data.len() < NONCE_BYTES + TAG_BYTES {
        None
    } else {
        aes256_gcm_open(key, data.take(NONCE_BYTES as int), data.skip(NONCE_BYTES as int), aad)
    }
}

/// The sealed value made with `nonce`: the nonce, then the ciphertext and
/// tag.
pub open spec fn spec_sealed(key: Seq<u8>, nonce: Seq<u8>, plaintext: Seq<u8>, aad: Seq<u8>) -> Seq<u8> {
    nonce + aes256_gcm_seal(key, nonce, plaintext, aad)
}

/// The bytes `data[from..to]` as a vector.
fn copy_range(data: &[u8], from: usize, to: usize) -> (r: Vec<u8>)
    requires
        from <= to <= data@.len(),
    ensures
        r@ == data@.subrange(from as int, to as int),
{
    let mut r: Vec<u8> = Vec::new();
    let mut i = from;
    while i < to
        invariant
            from <= i <= to <= data@.len(),
            r@ == data@.subrange(from as int, i as int),
        decreases to - i,
    {
        r.push(data[i]);
        i = i + 1;
        assert(r@ =~= data@.subrange(from as int, i as int));
    }
    r
}

/// Opens the sealed value `data` (`nonce || ciphertext || tag`) under
/// `key`, authenticating `aad`.
pub fn open_sealed(key: &[u8; 32], data: &[u8], aad: &[u8]) -> (r: Option<Vec<u8>>)
    ensures
        opt_bytes(r) == spec_open_sealed(key@, data@, aad@),
{
    if data.len() < NONCE_BYTES + TAG_BYTES {
        return None;
    }
    let nonce = copy_range(data, 0, NONCE_BYTES);
    let sealed = copy_range(data, NONCE_BYTES, data.len());
    assert(nonce@ =~= data@.take(NONCE_BYTES as int));
    assert(sealed@ =~= data@.skip(NONCE_BYTES as int));
    aes_gcm_open(key, nonce.as_slice(), sealed.as_slice(), aad)
}

/// Seals `plaintext` under `key` with the given 12-byte `nonce`,
/// authenticating `aad`; `None` when the plaintext or the associated data
/// is longer than AES-GCM allows. What is sealed opens again to the
/// plaintext.
pub fn seal_with_nonce(key: &[u8; 32], nonce: &[u8], plaintext: &[u8], aad: &[u8]) -> (r: Option<Vec<u8>>)
    requires
        nonce@.len() == NONCE_BYTES,
    ensures
        r is Some <==> plaintext@.len() <= AES_GCM_MAX_LEN && aad@.len() <= AES_GCM_MAX_LEN,
        r matches Some(v) ==> {
            &&& v@ == spec_sealed(key@, nonce@, plaintext@, aad@)
            &&& v@.len() == plaintext@.len() + NONCE_BYTES + TAG_BYTES
            &&& spec_open_sealed(key@, v@, aad@) == Some(plaintext@)
        },
{
    match aes_gcm_seal(key, nonce, plaintext, aad) {
        None => None,
        Some(c) => {
            let mut out = copy_range(nonce, 0, NONCE_BYTES);
            let mut i: usize = 0;
            let ghost start = out@;
            assert(start =~= nonce@);
            while i < c.len()
                invariant
                    0 <= i <= c@.len(),
                    start == nonce@,
                    out@ == start + c@.take(i as int),
                decreases c@.len() - i,
            {
                out.push(c[i]);
                i = i + 1;
                assert(out@ =~= start + c@.take(i as int));
            }
            assert(c@.take(i as int) =~= c@);
            assert(out@.take(NONCE_BYTES as int) =~= nonce@);
            assert(out@.skip(NONCE_BYTES as int) =~= c@);
            Some(out)
        },
    }
}

/// Why nothing could be sealed.
#[derive(Debug, Clone, Copy, PartialEq, Eq, Structural)]
pub enum SealError {
    /// The operating system's random source failed with this error code.
    RandomUnavailable { code: u32 },
    /// The plaintext is longer than AES-GCM allows.
    MessageTooLong,
}

/// Seals `plaintext` under `key` with a fresh random nonce, authenticating
/// `aad`. What is sealed opens again to the plaintext.
pub fn seal(key: &[u8; 32], plaintext: &[u8], aad: &[u8]) -> (r: Result<Vec<u8>, SealError>)
    requires
        aad@.len() <= AES_GCM_MAX_LEN,
    ensures
        r matches Ok(v) ==> {
            &&& plaintext@.len() <= AES_GCM_MAX_LEN
            &&& exists|nonce: Seq<u8>| nonce.len() == NONCE_BYTES && v@ == spec_sealed(key@, nonce, plaintext@, aad@)
            &&& v@.len() == plaintext@.len() + NONCE_BYTES + TAG_BYTES
            &&& spec_open_sealed(key@, v@, aad@) == Some(plaintext@)
        },
        r matches Err(e) ==> (e matches SealError::RandomUnavailable { .. })
            || (e == SealError::MessageTooLong && plaintext@.len() > AES_GCM_MAX_LEN),
        plaintext@.len() > AES_GCM_MAX_LEN ==> r is Err,
{
    let nonce = match random_bytes(NONCE_BYTES) {
        Ok(n) => n,
        Err(code) => {
            return Err(SealError::RandomUnavailable { code });
        },
    };
    match seal_with_nonce(key, nonce.as_slice(), plaintext, aad) {
        Some(v) => Ok(v),
        None => Err(SealError::MessageTooLong),
    }
}

/// Seals an event body under `key` with a fresh random nonce.
pub fn encrypt(key: &[u8; 32], plaintext: &[u8]) -> (r: Result<Vec<u8>, SealError>)
    ensures
        r matches Ok(v) ==> {
            &&& exists|nonce: Seq<u8>| nonce.len() == NONCE_BYTES
                && v@ == spec_sealed(key@, nonce, plaintext@, Seq::<u8>::empty())
            &&& v@.len() == plaintext@.len() + NONCE_BYTES + TAG_BYTES
            &&& spec_open_sealed(key@, v@, Seq::<u8>::empty()) == Some(plaintext@)
        },
        r matches Err(e) ==> (e matches SealError::RandomUnavailable { .. })
            || (e == SealError::MessageTooLong && plaintext@.len() > AES_GCM_MAX_LEN),
        plaintext@.len() > AES_GCM_MAX_LEN ==> r is Err,
{
    let no_aad: [u8; 0] = [];
    assert(no_aad@ =~= Seq::<u8>::empty());
    seal(key, plaintext, &no_aad)
}

/// Opens an event body sealed under `key`.
pub fn decrypt(key: &[u8; 32], data: &[u8]) -> (r: Option<Vec<u8>>)
    ensures
        opt_bytes(r) == spec_open_sealed(key@, data@, Seq::<u8>::empty()),
{
    let no_aad: [u8; 0] = [];
    assert(no_aad@ =~= Seq::<u8>::empty());
    open_sealed(key, data, &no_aad)
}

/// The associated data of chunk `index`: the index in two big-endian bytes.
pub open spec fn index_bytes(index: u16) -> Seq<u8> {
    seq![(index / 256) as u8, (index % 256) as u8]
}

/// What a chunk message carries: its index and its sealed bytes, when it
/// holds the two index bytes, a nonce and a tag.
pub open spec fn spec_parse_chunk_message(msg: Seq<u8>) -> Option<(u16, Seq<u8>)> {
    if msg.len() < 2 + NONCE_BYTES + TAG_BYTES {
        None
    } else {
        Some((((msg[0] as int) * 256 + (msg[1] as int)) as u16, msg.skip(2)))
    }
}

/// What decrypting a chunk message gives: its index and plaintext, when it
/// is well framed and its sealed bytes open under its own index.
pub open spec fn spec_open_chunk_message(key: Seq<u8>, msg: Seq<u8>) -> Option<(u16, Seq<u8>)> {
    match spec_parse_chunk_message(msg) {
        None => None,
        Some((index, sealed)) => match spec_open_sealed(key, sealed, index_bytes(index)) {
            None => None,
            Some(p) => Some((index, p)),
        },
    }
}

fn index_array(index: u16) -> (r: [u8; 2])
    ensures
        r@ == index_bytes(index),
{
    let hi: u8 = (index / 256) as u8;
    let lo: u8 = (index % 256) as u8;
    let r = [hi, lo];
    assert(r@ =~= index_bytes(index));
    r
}

/// Splits a chunk message into its index and its sealed bytes.
pub fn parse_chunk_message(msg: &[u8]) -> (r: Option<(u16, Vec<u8>)>)
    ensures
        match r {
            Some((index, sealed)) => spec_parse_chunk_message(msg@) == Some((index, sealed@)),
            None => spec_parse_chunk_message(msg@) is None,
        },
{
    if msg.len() < 2 + NONCE_BYTES + TAG_BYTES {
        return None;
    }
    let index: u16 = (msg[0] as u16) * 256 + (msg[1] as u16);
    let sealed = copy_range(msg, 2, msg.len());
    assert(sealed@ =~= msg@.skip(2));
    Some((index, sealed))
}

/// Opens the sealed bytes of chunk `index`, authenticating the index.
pub fn decrypt_chunk(key: &[u8; 32], sealed: &[u8], index: u16) -> (r: Option<Vec<u8>>)
    ensures
        opt_bytes(r) == spec_open_sealed(key@, sealed@, index_bytes(index)),
{
    let aad = index_array(index);
    open_sealed(key, sealed, &aad)
}

/// The message carrying chunk `index`: the index in two big-endian bytes,
/// then the plaintext sealed under `key` with a fresh random nonce and the
/// index as associated data. Decrypting the message gives back the index
/// and the plaintext.
pub fn encrypt_chunk(key: &[u8; 32], plaintext: &[u8], index: u16) -> (r: Result<Vec<u8>, SealError>)
    ensures
        r matches Ok(m) ==> {
            &&& m@.len() == plaintext@.len() + 2 + NONCE_BYTES + TAG_BYTES
            &&& spec_open_chunk_message(key@, m@) == Some((index, plaintext@))
        },
        r matches Err(e) ==> (e matches SealError::RandomUnavailable { .. })
            || (e == SealError::MessageTooLong && plaintext@.len() > AES_GCM_MAX_LEN),
        plaintext@.len() > AES_GCM_MAX_LEN ==> r is Err,
{
    let aad = index_array(index);
    let sealed = seal(key, plaintext, &aad)?;
    let mut out: Vec<u8> = Vec::new();
    out.push(aad[0]);
    out.push(aad[1]);
    let ghost head = out@;
    let mut i: usize = 0;
    while i < sealed.len()
        invariant
            0 <= i <= sealed@.len(),
            head == aad@,
            out@ == head + sealed@.take(i as int),
        decreases sealed@.len() - i,
    {
        out.push(sealed[i]);
        i = i + 1;
        assert(out@ =~= head + sealed@.take(i as int));
    }
    proof {
        assert(sealed@.take(i as int) =~= sealed@);
        assert(out@.skip(2) =~= sealed@);
        assert(out@[0] == index / 256 && out@[1] == index % 256);
        assert(((out@[0] as int) * 256 + (out@[1] as int)) as u16 == index);
        assert(spec_parse_chunk_message(out@) == Some((index, sealed@)));
        assert(spec_open_sealed(key@, sealed@, index_bytes(index)) == Some(plaintext@));
    }
    Ok(out)
}

} // verus!
