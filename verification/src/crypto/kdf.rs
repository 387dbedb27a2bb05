//! Key derivation functions from outside crates: PBKDF2-HMAC-SHA256 and
//! HKDF-SHA256.

use vstd::prelude::*;

verus! {

/// The `len`-byte output of PBKDF2 with HMAC-SHA256 over `password` and
/// `salt` with `rounds` iterations (RFC 8018).
pub uninterp spec fn pbkdf2_hmac_sha256(password: Seq<u8>, salt: Seq<u8>, rounds: nat, len: nat) -> Seq<u8>;

/// Calls `pbkdf2::pbkdf2_hmac::<sha2::Sha256>` to fill `len` bytes. Claims
/// that the output is the named PBKDF2 value of the arguments and has `len`
/// bytes; the crate's source fills the whole output slice and cannot fail
/// with HMAC, which accepts keys of any length.
#[verifier::external_body]
pub(crate) fn pbkdf2_sha256(password: &[u8], salt: &[u8], rounds: u32, len: usize) -> (r: Vec<u8>)
    ensures
        r@ == pbkdf2_hmac_sha256(password@, salt@, rounds as nat, len as nat),
        r@.len() == len,
{
    let mut out = vec![0u8; len];
    pbkdf2::pbkdf2_hmac::<sha2::Sha256>(password, salt, rounds, &mut out);
    out
}

/// The `len`-byte output of HKDF-SHA256 (RFC 5869): extract with `salt` and
/// input keying material `ikm`, then expand with `info`.
pub uninterp spec fn hkdf_sha256(salt: Seq<u8>, ikm: Seq<u8>, info: Seq<u8>, len: nat) -> Seq<u8>;

/// The most bytes HKDF-SHA256 can expand to: 255 blocks of 32 bytes.
pub const HKDF_SHA256_MAX_LEN: usize = 8160;

/// Calls `hkdf::Hkdf::<sha2::Sha256>::new(Some(salt), ikm)` and then
/// `expand(info, ..)` into `len` bytes. Claims, as the crate's source shows,
/// that expansion fails exactly when `len` exceeds 255 hash blocks, and that
/// otherwise the output is the named HKDF value of the arguments.
#[verifier::external_body]
pub(crate) fn hkdf_sha256_derive(salt: &[u8], ikm: &[u8], info: &[u8], len: usize) -> (r: Option<Vec<u8>>)
    ensures
        r is Some <==> len <= HKDF_SHA256_MAX_LEN,
        r matches Some(v) ==> v@ == hkdf_sha256(salt@, ikm@, info@, len as nat) && v@.len() == len,
{
    let hk = hkdf::Hkdf::<sha2::Sha256>::new(Some(salt), ikm);
    let mut okm = vec![0u8; len];
    match hk.expand(info, &mut okm) {
        Ok(()) => Some(okm),
        Err(_) => None,
    }
}

} // verus!
