//! Key material: PIN generation and PIN-derived keys, ECDH key agreement,
//! and the outside primitives (randomness, PBKDF2, HKDF) they rest on.

pub mod aead;
pub mod ecdh;
pub mod kdf;
pub mod pin;
pub mod random;
