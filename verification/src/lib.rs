//! Verified core of a peer-to-peer encrypted file transfer tool: the chunked
//! transfer protocol, PIN and key material handling, Nostr signaling records,
//! and the text helpers the command line relies on.

pub mod clock;
pub mod crypto;
pub mod encoding;
pub mod signaling;
pub mod text;
pub mod transfer;
pub mod ui;
pub mod util;
pub mod webrtc;
