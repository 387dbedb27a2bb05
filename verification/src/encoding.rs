//! Standard base64 (RFC 4648 alphabet, `=` padding) from the `base64` crate,
//! stated exactly.

use vstd::prelude::*;

use base64::Engine;

verus! {

/// The base64 character of a 6-bit value.
pub open spec fn b64_char(v: nat) -> char {
    if v < 26 {
        (('A' as nat) + v) as char
    } else if v < 52 {
        (('a' as nat) + v - 26) as char
    } else if v < 62 {
        (('0' as nat) + v - 52) as char
    } else if v == 62 {
        '+'
    } else {
        '/'
    }
}

/// The standard base64 encoding of `b`, padded with `=` to a multiple of
/// four characters.
pub open spec fn base64_encode(b: Seq<u8>) -> Seq<char>
    decreases b.len(),
{
    if b.len() == 0 {
        Seq::empty()
    } else if b.len() == 1 {
        seq![b64_char((b[0] / 4) as nat), b64_char(((b[0] % 4) * 16) as nat), '=', '=']
    } else if b.len() == 2 {
        seq![
            b64_char((b[0] / 4) as nat),
            b64_char(((b[0] % 4) * 16 + b[1] / 16) as nat),
            b64_char(((b[1] % 16) * 4) as nat),
            '=',
        ]
    } else {
        seq![
            b64_char((b[0] / 4) as nat),
            b64_char(((b[0] % 4) * 16 + b[1] / 16) as nat),
            b64_char(((b[1] % 16) * 4 + b[2] / 64) as nat),
            b64_char((b[2] % 64) as nat),
        ] + base64_encode(b.skip(3))
    }
}

/// Calls `base64::engine::general_purpose::STANDARD.encode`. Claims the
/// result is the standard padded base64 encoding of the input, which is what
/// the crate's `STANDARD` engine (standard alphabet, padding on) produces.
#[verifier::external_body]
pub(crate) fn base64_encode_bytes(bytes: &[u8]) -> (r: String)
    requires
        bytes@.len() <= usize::MAX / 2,
    ensures
        r@ == base64_encode(bytes@),
{
    base64::engine::general_purpose::STANDARD.encode(bytes)
}

/// Calls `base64::engine::general_purpose::STANDARD.decode` on the UTF-8
/// bytes of `text`. Claims what the `STANDARD` engine's configuration
/// (canonical padding required, trailing bits refused) makes decoding: it
/// succeeds exactly on the canonical encodings, and gives back the bytes they
/// encode.
#[verifier::external_body]
pub(crate) fn base64_decode_str(text: &str) -> (r: Option<Vec<u8>>)
    ensures
        r matches Some(v) ==> base64_encode(v@) == text@,
        r is None ==> forall|b: Seq<u8>| base64_encode(b) != text@,
{
    base64::engine::general_purpose::STANDARD.decode(text).ok()
}

proof fn lemma_b64_char_injective(x: nat, y: nat)
    requires
        x < 64,
        y < 64,
        b64_char(x) == b64_char(y),
    ensures
        x == y,
{
}

proof fn lemma_b64_char_not_pad(x: nat)
    requires
        x < 64,
    ensures
        b64_char(x) != '=',
{
}

proof fn lemma_three_bytes_determined(a0: u8, a1: u8, a2: u8, b0: u8, b1: u8, b2: u8)
    requires
        a0 / 4 == b0 / 4,
        (a0 % 4) * 16 + a1 / 16 == (b0 % 4) * 16 + b1 / 16,
        (a1 % 16) * 4 + a2 / 64 == (b1 % 16) * 4 + b2 / 64,
        a2 % 64 == b2 % 64,
    ensures
        a0 == b0 && a1 == b1 && a2 == b2,
{
    assert(a0 == b0 && a1 == b1 && a2 == b2) by (nonlinear_arith)
        requires
            a0 / 4 == b0 / 4,
            (a0 % 4) * 16 + a1 / 16 == (b0 % 4) * 16 + b1 / 16,
            (a1 % 16) * 4 + a2 / 64 == (b1 % 16) * 4 + b2 / 64,
            a2 % 64 == b2 % 64,
            a0 < 256, a1 < 256, a2 < 256, b0 < 256, b1 < 256, b2 < 256,
    ;
}

proof fn lemma_two_bytes_determined(a0: u8, a1: u8, b0: u8, b1: u8)
    requires
        a0 / 4 == b0 / 4,
        (a0 % 4) * 16 + a1 / 16 == (b0 % 4) * 16 + b1 / 16,
        (a1 % 16) * 4 == (b1 % 16) * 4,
    ensures
        a0 == b0 && a1 == b1,
{
    assert(a0 == b0 && a1 == b1) by (nonlinear_arith)
        requires
            a0 / 4 == b0 / 4,
            (a0 % 4) * 16 + a1 / 16 == (b0 % 4) * 16 + b1 / 16,
            (a1 % 16) * 4 == (b1 % 16) * 4,
            a0 < 256, a1 < 256, b0 < 256, b1 < 256,
    ;
}

proof fn lemma_one_byte_determined(a0: u8, b0: u8)
    requires
        a0 / 4 == b0 / 4,
        (a0 % 4) * 16 == (b0 % 4) * 16,
    ensures
        a0 == b0,
{
}

/// Encoding lengths: four characters for every started group of three bytes.
proof fn lemma_encode_len(b: Seq<u8>)
    ensures
        base64_encode(b).len() == 4 * ((b.len() + 2) / 3),
    decreases b.len(),
{
    if b.len() >= 3 {
        lemma_encode_len(b.skip(3));
    }
}

/// Distinct byte strings have distinct base64 encodings.
pub proof fn lemma_base64_injective(a: Seq<u8>, b: Seq<u8>)
    requires
        base64_encode(a) == base64_encode(b),
    ensures
        a == b,
    decreases a.len(),
{
    let ea = base64_encode(a);
    let eb = base64_encode(b);
    if a.len() == 0 {
        lemma_encode_len(b);
        assert(b.len() == 0);
        assert(a =~= b);
    } else if b.len() == 0 {
        lemma_encode_len(a);
    } else {
        // The first group of four characters decides how many bytes the
        // first group holds and what they are.
        let x0 = (a[0] / 4) as nat;
        let y0 = (b[0] / 4) as nat;
        assert(ea[0] == b64_char(x0));
        assert(eb[0] == b64_char(y0));
        lemma_b64_char_injective(x0, y0);
        if a.len() == 1 {
            if b.len() == 1 {
                lemma_b64_char_injective(((a[0] % 4) * 16) as nat, ((b[0] % 4) * 16) as nat);
                lemma_one_byte_determined(a[0], b[0]);
                assert(a =~= b);
            } else if b.len() == 2 {
                lemma_b64_char_not_pad(((b[1] % 16) * 4) as nat);
            } else {
                lemma_b64_char_not_pad(((b[1] % 16) * 4 + b[2] / 64) as nat);
            }
        } else if a.len() == 2 {
            if b.len() == 1 {
                lemma_b64_char_not_pad(((a[1] % 16) * 4) as nat);
            } else if b.len() == 2 {
                lemma_b64_char_injective(((a[0] % 4) * 16 + a[1] / 16) as nat, ((b[0] % 4) * 16 + b[1] / 16) as nat);
                lemma_b64_char_injective(((a[1] % 16) * 4) as nat, ((b[1] % 16) * 4) as nat);
                lemma_two_bytes_determined(a[0], a[1], b[0], b[1]);
                assert(a =~= b);
            } else {
                lemma_b64_char_not_pad((b[2] % 64) as nat);
            }
        } else {
            if b.len() == 1 {
                lemma_b64_char_not_pad(((a[1] % 16) * 4 + a[2] / 64) as nat);
            } else if b.len() == 2 {
                lemma_b64_char_not_pad((a[2] % 64) as nat);
            } else {
                assert(ea[1] == b64_char(((a[0] % 4) * 16 + a[1] / 16) as nat));
                assert(eb[1] == b64_char(((b[0] % 4) * 16 + b[1] / 16) as nat));
                assert(ea[2] == b64_char(((a[1] % 16) * 4 + a[2] / 64) as nat));
                assert(eb[2] == b64_char(((b[1] % 16) * 4 + b[2] / 64) as nat));
                assert(ea[3] == b64_char((a[2] % 64) as nat));
                assert(eb[3] == b64_char((b[2] % 64) as nat));
                lemma_b64_char_injective(((a[0] % 4) * 16 + a[1] / 16) as nat, ((b[0] % 4) * 16 + b[1] / 16) as nat);
                lemma_b64_char_injective(((a[1] % 16) * 4 + a[2] / 64) as nat, ((b[1] % 16) * 4 + b[2] / 64) as nat);
                lemma_b64_char_injective((a[2] % 64) as nat, (b[2] % 64) as nat);
                lemma_three_bytes_determined(a[0], a[1], a[2], b[0], b[1], b[2]);
                assert(base64_encode(a.skip(3)) =~= ea.skip(4));
                assert(base64_encode(b.skip(3)) =~= eb.skip(4));
                lemma_base64_injective(a.skip(3), b.skip(3));
                assert(a =~= seq![a[0], a[1], a[2]] + a.skip(3));
                assert(b =~= seq![b[0], b[1], b[2]] + b.skip(3));
            }
        }
    }
}

/// Decoding the encoding of `bytes` gives back `bytes`.
pub proof fn lemma_base64_roundtrip(bytes: Seq<u8>, decoded: Seq<u8>)
    requires
        base64_encode(decoded) == base64_encode(bytes),
    ensures
        decoded == bytes,
{
    lemma_base64_injective(decoded, bytes);
}

} // verus!
