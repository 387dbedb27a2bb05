//! ECDH P-256 key agreement with HKDF-SHA256 key derivation for the manual
//! (copy/paste) exchange mode.
//!
//! The AES content key is `HKDF-SHA256(ikm = ECDH shared X coordinate,
//! salt = 16-byte transfer salt, info = "secure-send-mutual", len = 32)`.

use vstd::prelude::*;

use p256::elliptic_curve::sec1::ToEncodedPoint;

use crate::crypto::kdf::{hkdf_sha256, hkdf_sha256_derive};
use crate::crypto::pin::{array16, array32};
use crate::crypto::random::random_bytes;
use vstd::utf8::{encode_utf8, is_ascii_chars_encode_utf8};

verus! {

/// Bytes of a transfer salt.
pub const SALT_LEN: usize = 16;

/// Bytes of an uncompressed P-256 public key (`0x04 || X || Y`).
pub const PUBLIC_KEY_LEN: usize = 65;

/// The order of the P-256 group.
pub open spec fn p256_order() -> int {
    0xffffffff00000000ffffffffffffffffbce6faada7179e84f3b9cac2fc632551int
}

/// The unsigned big-endian value of `bytes`.
pub open spec fn be_value(bytes: Seq<u8>) -> int
    decreases bytes.len(),
{
    if bytes.len() == 0 {
        0
    } else {
        be_value(bytes.drop_last()) * 256 + bytes.last()
    }
}

/// Whether 32 bytes encode a P-256 secret scalar: a nonzero big-endian
/// integer below the group order.
pub open spec fn p256_scalar_valid(bytes: Seq<u8>) -> bool {
    bytes.len() == 32 && 0 < be_value(bytes) < p256_order()
}

/// The 65-byte uncompressed SEC1 encoding of the public key of a secret
/// scalar.
pub uninterp spec fn p256_public_key_sec1(scalar: Seq<u8>) -> Seq<u8>;

/// Whether `bytes` is the SEC1 encoding of a point of P-256 other than the
/// identity.
pub uninterp spec fn p256_sec1_public_key_valid(bytes: Seq<u8>) -> bool;

/// The X coordinate of the ECDH shared point of a secret scalar and a peer
/// public key.
pub uninterp spec fn p256_ecdh_x(scalar: Seq<u8>, peer: Seq<u8>) -> Seq<u8>;

/// Calls `p256::SecretKey::from_slice` on 32 bytes and reports whether it
/// accepted them. Claims what the crate's source shows for a 32-byte input:
/// it is accepted exactly when its big-endian value is nonzero and below the
/// group order.
#[verifier::external_body]
fn p256_secret_scalar_valid(bytes: &[u8; 32]) -> (r: bool)
    ensures
        r == p256_scalar_valid(bytes@),
{
    p256::SecretKey::from_slice(bytes).is_ok()
}

/// Calls `SecretKey::public_key` for a valid scalar and encodes the point
/// with `to_encoded_point(false)`. Claims the result is the named encoding
/// of the scalar's public key, starts with the uncompressed tag `0x04`, and
/// decodes again as a valid public key (a generator multiple by a nonzero
/// scalar is never the identity).
#[verifier::external_body]
fn p256_public_key_of(secret: &[u8; 32]) -> (r: [u8; 65])
    requires
        p256_scalar_valid(secret@),
    ensures
        r@ == p256_public_key_sec1(secret@),
        r@[0] == 4,
        p256_sec1_public_key_valid(r@),
{
    let sk = p256::SecretKey::from_slice(secret).expect("scalar checked valid");
    let encoded = sk.public_key().to_encoded_point(false);
    let mut out = [0u8; 65];
    out.copy_from_slice(encoded.as_bytes());
    out
}

/// Calls `p256::PublicKey::from_sec1_bytes` and reports whether it accepted
/// the bytes. Claims only that the answer is the named validity of the bytes.
#[verifier::external_body]
fn p256_public_key_accepted(bytes: &[u8]) -> (r: bool)
    ensures
        r == p256_sec1_public_key_valid(bytes@),
{
    p256::PublicKey::from_sec1_bytes(bytes).is_ok()
}

/// Calls `p256::ecdh::diffie_hellman` with a valid secret scalar and a valid
/// peer key and returns `raw_secret_bytes()`, the shared X coordinate.
/// Claims the result is the named shared coordinate of the arguments, and
/// the defining property of Diffie-Hellman: when the peer key is the public
/// key of a scalar `other`, the holder of `other` given this scalar's public
/// key gets the same coordinate (both compute the X coordinate of the
/// product of the two scalars times the generator).
#[verifier::external_body]
fn p256_shared_x(secret: &[u8; 32], peer: &[u8]) -> (r: [u8; 32])
    requires
        p256_scalar_valid(secret@),
        p256_sec1_public_key_valid(peer@),
    ensures
        r@ == p256_ecdh_x(secret@, peer@),
        forall|other: Seq<u8>|
            p256_scalar_valid(other) && peer@ == p256_public_key_sec1(other)
                ==> #[trigger] p256_ecdh_x(other, p256_public_key_sec1(secret@)) == r@,
{
    let sk = p256::SecretKey::from_slice(secret).expect("scalar checked valid");
    let pk = p256::PublicKey::from_sec1_bytes(peer).expect("public key checked valid");
    let shared = p256::ecdh::diffie_hellman(sk.to_nonzero_scalar(), pk.as_affine());
    let mut out = [0u8; 32];
    out.copy_from_slice(shared.raw_secret_bytes());
    out
}

/// Why a key pair, a public key or a content key could not be produced.
#[derive(Debug, Clone, Copy, PartialEq, Eq, Structural)]
pub enum EcdhError {
    /// The operating system's random source failed with this error code.
    RandomUnavailable { code: u32 },
    /// `u64::MAX` random draws gave no valid secret scalar.
    DrawsExhausted,
    /// A salt shorter than `SALT_LEN` bytes.
    SaltTooShort { expected: usize, actual: usize },
    /// A public key that is not `PUBLIC_KEY_LEN` bytes long.
    InvalidPublicKeyLength { expected: usize, actual: usize },
    /// A public key without the uncompressed point prefix `0x04`.
    MissingUncompressedPrefix,
    /// A public key that is not a point of the curve.
    PointNotOnCurve,
}

/// A peer's validated public key.
#[derive(Debug, Clone)]
pub struct PeerPublicKey {
    bytes: [u8; 65],
}

impl PeerPublicKey {
    /// The key's 65-byte uncompressed encoding.
    pub closed spec fn spec_bytes(&self) -> Seq<u8> {
        self.bytes@
    }

    /// The key's 65-byte uncompressed encoding.
    pub fn as_bytes(&self) -> (r: &[u8; 65])
        ensures
            r@ == self.spec_bytes(),
    {
        &self.bytes
    }
}

/// What `import_public_key` answers for `bytes`.
pub open spec fn spec_import_error(bytes: Seq<u8>) -> Option<EcdhError> {
    if bytes.len() != PUBLIC_KEY_LEN {
        Some(EcdhError::InvalidPublicKeyLength { expected: PUBLIC_KEY_LEN, actual: bytes.len() as usize })
    } else if bytes[0] != 4 {
        Some(EcdhError::MissingUncompressedPrefix)
    } else if !p256_sec1_public_key_valid(bytes) {
        Some(EcdhError::PointNotOnCurve)
    } else {
        None
    }
}

/// Imports a peer's 65-byte uncompressed P-256 public key, checking its
/// length, its prefix and that the point is on the curve.
pub fn import_public_key(bytes: &[u8]) -> (r: Result<PeerPublicKey, EcdhError>)
    ensures
        r is Err <==> spec_import_error(bytes@) is Some,
        r matches Err(e) ==> spec_import_error(bytes@) == Some(e),
        r matches Ok(k) ==> k.spec_bytes() == bytes@,
{
    if bytes.len() != PUBLIC_KEY_LEN {
        return Err(EcdhError::InvalidPublicKeyLength { expected: PUBLIC_KEY_LEN, actual: bytes.len() });
    }
    if bytes[0] != 4u8 {
        return Err(EcdhError::MissingUncompressedPrefix);
    }
    if !p256_public_key_accepted(bytes) {
        return Err(EcdhError::PointNotOnCurve);
    }
    let mut out = [0u8; 65];
    let mut i: usize = 0;
    while i < 65
        invariant
            0 <= i <= 65,
            bytes@.len() == 65,
            out@.len() == 65,
            forall|j: int| 0 <= j < i ==> out@[j] == bytes@[j],
        decreases 65 - i,
    {
        out[i] = bytes[i];
        i = i + 1;
    }
    assert(out@ =~= bytes@);
    Ok(PeerPublicKey { bytes: out })
}

/// An ephemeral ECDH key pair. The secret scalar never leaves it.
pub struct EcdhKeyPair {
    secret: [u8; 32],
    /// 65-byte uncompressed public key (`0x04 || X(32) || Y(32)`).
    pub public_key_bytes: [u8; 65],
}

/// The HKDF `info` of the content key.
pub open spec fn hkdf_info_mutual() -> Seq<u8> {
    encode_utf8("secure-send-mutual"@)
}

/// The content key agreed from a secret scalar, a peer public key and a
/// transfer salt.
pub open spec fn spec_content_key(scalar: Seq<u8>, peer: Seq<u8>, salt: Seq<u8>) -> Seq<u8> {
    hkdf_sha256(salt, p256_ecdh_x(scalar, peer), hkdf_info_mutual(), 32)
}

/// What `derive_aes_key` answers with the secret scalar `scalar`.
pub open spec fn spec_derive_aes_key(scalar: Seq<u8>, peer: Seq<u8>, salt: Seq<u8>) -> Result<Seq<u8>, EcdhError> {
    if salt.len() < SALT_LEN {
        Err(EcdhError::SaltTooShort { expected: SALT_LEN, actual: salt.len() as usize })
    } else if spec_import_error(peer) is Some {
        Err(spec_import_error(peer)->Some_0)
    } else {
        Ok(spec_content_key(scalar, peer, salt))
    }
}

impl EcdhKeyPair {
    /// The secret scalar.
    pub closed spec fn spec_secret(&self) -> Seq<u8> {
        self.secret@
    }

    /// The public key bytes.
    pub closed spec fn spec_public_key(&self) -> Seq<u8> {
        self.public_key_bytes@
    }

    /// The 65-byte uncompressed public key.
    pub fn public_key(&self) -> (r: [u8; 65])
        ensures
            r@ == self.spec_public_key(),
    {
        self.public_key_bytes
    }

    /// The secret scalar is a valid P-256 scalar.
    pub open spec fn wf(&self) -> bool {
        p256_scalar_valid(self.spec_secret())
    }

    /// The key pair of the 32-byte secret scalar `secret`, when it is a valid
    /// P-256 scalar (nonzero and below the group order): the scalar and its
    /// uncompressed public key.
    pub fn from_secret(secret: [u8; 32]) -> (r: Option<EcdhKeyPair>)
        ensures
            r is Some <==> p256_scalar_valid(secret@),
            r matches Some(kp) ==> kp.wf() && kp.spec_secret() == secret@
                && kp.spec_public_key() == p256_public_key_sec1(secret@)
                && kp.spec_public_key()[0] == 4 && p256_sec1_public_key_valid(kp.spec_public_key()),
    {
        if p256_secret_scalar_valid(&secret) {
            let public_key_bytes = p256_public_key_of(&secret);
            Some(EcdhKeyPair { secret, public_key_bytes })
        } else {
            None
        }
    }

    /// Generates a fresh ephemeral key pair: random 32-byte strings are drawn
    /// until one is a valid scalar (see `from_secret`).
    pub fn generate() -> (r: Result<Self, EcdhError>)
        ensures
            r matches Ok(kp) ==> kp.wf() && kp.spec_public_key() == p256_public_key_sec1(kp.spec_secret())
                && kp.spec_public_key()[0] == 4 && p256_sec1_public_key_valid(kp.spec_public_key()),
            r matches Err(e) ==> (e matches EcdhError::RandomUnavailable { code } && code != 0)
                || e == EcdhError::DrawsExhausted,
    {
        let mut attempts: u64 = 0;
        while attempts < u64::MAX
            decreases u64::MAX - attempts,
        {
            attempts = attempts + 1;
            let bytes = match random_bytes(32) {
                Ok(b) => b,
                Err(code) => {
                    return Err(EcdhError::RandomUnavailable { code });
                },
            };
            match Self::from_secret(array32(&bytes)) {
                Some(kp) => {
                    return Ok(kp);
                },
                None => {},
            }
        }
        Err(EcdhError::DrawsExhausted)
    }

    /// Derives the shared AES-256 key from the peer's public key and the
    /// per-transfer salt. Both sides agree: the peer whose scalar gave
    /// `peer_public_key`, given this pair's public key and the same salt,
    /// derives the same key.
    pub fn derive_aes_key(&self, peer_public_key: &[u8], salt: &[u8]) -> (r: Result<[u8; 32], EcdhError>)
        requires
            self.wf(),
        ensures
            r matches Ok(k) ==> spec_derive_aes_key(self.spec_secret(), peer_public_key@, salt@) == Ok::<Seq<u8>, EcdhError>(k@),
            r matches Err(e) ==> spec_derive_aes_key(self.spec_secret(), peer_public_key@, salt@) == Err::<Seq<u8>, EcdhError>(e),
            r matches Ok(k) ==> forall|other: Seq<u8>|
                p256_scalar_valid(other) && peer_public_key@ == p256_public_key_sec1(other)
                    ==> #[trigger] spec_content_key(other, p256_public_key_sec1(self.spec_secret()), salt@) == k@,
    {
        if salt.len() < SALT_LEN {
            return Err(EcdhError::SaltTooShort { expected: SALT_LEN, actual: salt.len() });
        }
        let peer = import_public_key(peer_public_key)?;
        let ikm = p256_shared_x(&self.secret, peer.as_bytes());
        let info = "secure-send-mutual".as_bytes();
        match hkdf_sha256_derive(salt, &ikm, info, 32) {
            Some(okm) => Ok(array32(&okm)),
            None => {
                // HKDF-SHA256 always expands to 32 bytes.
                proof {
                    assert(false);
                }
                Err(EcdhError::DrawsExhausted)
            },
        }
    }
}

/// A fresh random 16-byte transfer salt.
pub fn generate_salt() -> (r: Result<[u8; 16], EcdhError>)
    ensures
        r matches Err(e) ==> e matches EcdhError::RandomUnavailable { code } && code != 0,
{
    match random_bytes(SALT_LEN) {
        Err(code) => Err(EcdhError::RandomUnavailable { code }),
        Ok(v) => Ok(array16(&v)),
    }
}

/// How the content key is made, written out: HKDF-SHA256 with the
/// transfer salt as salt, the X coordinate of the shared ECDH point as
/// input keying material, the ASCII bytes of `secure-send-mutual` as info,
/// and 32 bytes of output; and a key pair derives exactly that key for any
/// valid peer key and salt of at least 16 bytes.
pub proof fn lemma_content_key_derivation(scalar: Seq<u8>, peer: Seq<u8>, salt: Seq<u8>)
    ensures
        hkdf_info_mutual() == seq![115u8, 101, 99, 117, 114, 101, 45, 115, 101, 110, 100, 45, 109, 117, 116, 117, 97, 108],
        spec_content_key(scalar, peer, salt) == hkdf_sha256(
            salt,
            p256_ecdh_x(scalar, peer),
            seq![115u8, 101, 99, 117, 114, 101, 45, 115, 101, 110, 100, 45, 109, 117, 116, 117, 97, 108],
            32,
        ),
        salt.len() >= 16 && peer.len() == 65 && peer[0] == 4 && p256_sec1_public_key_valid(peer)
            ==> spec_derive_aes_key(scalar, peer, salt) == Ok::<Seq<u8>, EcdhError>(hkdf_sha256(
                salt,
                p256_ecdh_x(scalar, peer),
                seq![115u8, 101, 99, 117, 114, 101, 45, 115, 101, 110, 100, 45, 109, 117, 116, 117, 97, 108],
                32,
            )),
{
    reveal_strlit("secure-send-mutual");
    is_ascii_chars_encode_utf8("secure-send-mutual"@);
    assert(hkdf_info_mutual() =~= seq![115u8, 101, 99, 117, 114, 101, 45, 115, 101, 110, 100, 45, 109, 117, 116, 117, 97, 108]);
}

} // verus!
