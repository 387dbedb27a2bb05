//! Signaling records exchanged through Nostr relays.

pub mod nostr;
