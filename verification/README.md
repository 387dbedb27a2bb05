# secure_send

A peer-to-peer encrypted file transfer tool whose protocol logic is verified
with Verus.

- `src/` is the verified library: PIN generation and checking, PIN- and
  ECDH-derived keys (through PBKDF2, HKDF and P-256 behind small trusted
  wrappers), AES-GCM sealing of event bodies and transfer chunks (through
  `aes-gcm`), the Nostr signaling records and their checks, the chunked
  transfer protocol on both sides, the SDP patch, and the decisions behind
  the terminal prompts (file names, destinations, pasted codes).
- `app/` holds what talks to the world: the Nostr relay client, the WebRTC
  peer and data channel, JSON bodies, files, and the terminal. It drives
  the library's state machines and carries out the actions they return.
- `tests/` exercises the library with the real outside crates linked.
