//! PIN generation, PIN hints, and PIN-derived keys for the Nostr exchange
//! mode.

use vstd::prelude::*;

use crate::crypto::kdf::{pbkdf2_hmac_sha256, pbkdf2_sha256};
use crate::clock::unix_time_ms;
use crate::crypto::random::random_bytes;
use vstd::utf8::{encode_utf8, is_ascii_chars_encode_utf8};
use crate::text::{decimal, digit_char, push_decimal, str_chars, string_from_chars};

verus! {

/// Characters of a PIN, the checksum character included.
pub const PIN_LENGTH: usize = 12;

/// Characters a PIN is drawn from: letters and digits that are hard to
/// confuse, and punctuation.
pub const PIN_CHARSET: [char; 69] = ['A', 'B', 'C', 'D', 'E', 'F', 'G', 'H', 'J', 'K', 'L', 'M', 'N', 'P', 'Q', 'R', 'S', 'T', 'U', 'V', 'W', 'X', 'Y', 'Z', 'a', 'b', 'c', 'd', 'e', 'f', 'g', 'h', 'j', 'k', 'm', 'n', 'p', 'q', 'r', 's', 't', 'u', 'v', 'w', 'x', 'y', 'z', '2', '3', '4', '5', '6', '7', '8', '9', '-', '/', ':', ';', '(', ')', '$', '&', '@', '?', '!', '.', ',', '"'];

/// The PIN alphabet as a sequence.
pub open spec fn pin_charset() -> Seq<char> {
    PIN_CHARSET@
}

/// PBKDF2 iterations for PIN hints and PIN-derived keys.
pub const PBKDF2_ITERATIONS: u32 = 600000;

/// Bytes of a transfer salt.
pub const SALT_LENGTH: usize = 16;

/// Characters of a PIN hint.
pub const PIN_HINT_LENGTH: usize = 16;

/// Seconds in one PIN hint time bucket.
pub const PIN_HINT_BUCKET_SEC: u64 = 3600;

/// Milliseconds after which a transfer expires.
pub const TRANSFER_EXPIRATION_MS: u64 = 3600000;

/// Bytes of each derived key.
pub const KEY_LENGTH: usize = 32;

/// Why PIN material could not be produced.
#[derive(Debug, Clone, Copy, PartialEq, Eq, Structural)]
pub enum PinError {
    /// The operating system's random source failed with this error code.
    RandomUnavailable { code: u32 },
    /// A salt shorter than `SALT_LENGTH` bytes.
    SaltTooShort { expected: usize, actual: usize },
    /// `u64::MAX` rounds of random bytes did not draw a whole PIN.
    DrawsExhausted,
}

/// The position of `c` in the PIN alphabet, if it is there.
pub open spec fn charset_index(c: char) -> Option<nat> {
    if pin_charset().contains(c) {
        Some((choose|i: int| is_first_position(i, c)) as nat)
    } else {
        None
    }
}

/// `i` is the first position of `c` in the PIN alphabet.
pub open spec fn is_first_position(i: int, c: char) -> bool {
    &&& 0 <= i < pin_charset().len()
    &&& pin_charset()[i] == c
    &&& forall|j: int| 0 <= j < i ==> pin_charset()[j] != c
}

/// Whether every character of `s` is in the PIN alphabet.
pub open spec fn all_in_charset(s: Seq<char>) -> bool {
    forall|i: int| 0 <= i < s.len() ==> pin_charset().contains(#[trigger] s[i])
}

/// The sum over `s` of each character's alphabet position times its
/// one-based place.
pub open spec fn weighted_sum(s: Seq<char>) -> nat
    decreases s.len(),
{
    if s.len() == 0 {
        0
    } else {
        weighted_sum(s.drop_last()) + charset_index(s.last()).unwrap_or(0) * s.len()
    }
}

/// The checksum character of the PIN data `s`.
pub open spec fn spec_checksum(s: Seq<char>) -> char {
    if all_in_charset(s) {
        pin_charset()[(weighted_sum(s) % 69) as int]
    } else {
        pin_charset()[0]
    }
}

/// Whether `pin` is a well-formed PIN: twelve alphabet characters whose last
/// is the checksum of the first eleven.
pub open spec fn spec_is_valid_pin(pin: Seq<char>) -> bool {
    &&& pin.len() == PIN_LENGTH
    &&& all_in_charset(pin)
    &&& spec_checksum(pin.take(11)) == pin[11]
}

/// The position of `c` in the PIN alphabet.
fn charset_position(c: char) -> (r: Option<usize>)
    ensures
        r is Some <==> pin_charset().contains(c),
        r matches Some(i) ==> charset_index(c) == Some(i as nat) && i < 69,
{
    let mut i: usize = 0;
    while i < 69
        invariant
            0 <= i <= 69,
            pin_charset().len() == 69,
            forall|j: int| 0 <= j < i ==> pin_charset()[j] != c,
        decreases 69 - i,
    {
        if PIN_CHARSET[i] == c {
            assert(is_first_position(i as int, c));
            assert(pin_charset().contains(c));
            proof {
                let k = choose|k: int| is_first_position(k, c);
                assert(k == i);
            }
            return Some(i);
        }
        i = i + 1;
    }
    assert(!pin_charset().contains(c));
    None
}

/// The checksum character of the PIN data `data`.
fn compute_checksum(data: &[char]) -> (r: char)
    requires
        data@.len() <= 4096,
    ensures
        r == spec_checksum(data@),
{
    let mut sum: u64 = 0;
    let mut i: usize = 0;
    while i < data.len()
        invariant
            0 <= i <= data@.len() <= 4096,
            all_in_charset(data@.take(i as int)),
            sum == weighted_sum(data@.take(i as int)),
            sum <= 68 * i * i,
        decreases data@.len() - i,
    {
        let c = data[i];
        assert(data@.take(i as int + 1).drop_last() =~= data@.take(i as int));
        match charset_position(c) {
            None => {
                assert(!all_in_charset(data@)) by {
                    assert(!pin_charset().contains(data@[i as int]));
                }
                return PIN_CHARSET[0];
            },
            Some(index) => {
                assert(sum + index * (i + 1) <= 68 * (i + 1) * (i + 1)) by (nonlinear_arith)
                    requires sum <= 68 * i * i, index <= 68;
                assert(68 * (i + 1) * (i + 1) <= 68 * 4097 * 4097) by (nonlinear_arith)
                    requires i < 4096;
                sum = sum + (index as u64) * ((i + 1) as u64);
                i = i + 1;
                assert(all_in_charset(data@.take(i as int))) by {
                    assert forall|j: int| 0 <= j < i implies pin_charset().contains(#[trigger] data@.take(i as int)[j]) by {
                        if j < i - 1 {
                            assert(data@.take(i as int)[j] == data@.take(i - 1)[j]);
                        }
                    }
                }
            },
        }
    }
    assert(data@.take(i as int) =~= data@);
    PIN_CHARSET[(sum % 69) as usize]
}

/// Whether `pin` is a well-formed PIN.
pub fn is_valid_pin(pin: &str) -> (r: bool)
    ensures
        r == spec_is_valid_pin(pin@),
{
    let chars = str_chars(pin);
    if chars.len() != PIN_LENGTH {
        return false;
    }
    let mut i: usize = 0;
    while i < PIN_LENGTH
        invariant
            0 <= i <= PIN_LENGTH,
            chars@ == pin@,
            chars@.len() == PIN_LENGTH,
            forall|j: int| 0 <= j < i ==> pin_charset().contains(#[trigger] chars@[j]),
        decreases PIN_LENGTH - i,
    {
        if charset_position(chars[i]).is_none() {
            assert(!all_in_charset(pin@)) by {
                assert(!pin_charset().contains(pin@[i as int]));
            }
            return false;
        }
        i = i + 1;
    }
    let mut data: Vec<char> = Vec::new();
    let mut k: usize = 0;
    while k < PIN_LENGTH - 1
        invariant
            0 <= k <= PIN_LENGTH - 1,
            chars@.len() == PIN_LENGTH,
            data@ == chars@.take(k as int),
        decreases PIN_LENGTH - 1 - k,
    {
        data.push(chars[k]);
        k = k + 1;
        assert(data@ =~= chars@.take(k as int));
    }
    compute_checksum(data.as_slice()) == chars[PIN_LENGTH - 1]
}

/// The checksum of any PIN data is itself a PIN character.
proof fn lemma_checksum_in_charset(s: Seq<char>)
    ensures
        pin_charset().contains(spec_checksum(s)),
{
    if all_in_charset(s) {
        let k = (weighted_sum(s) % 69) as int;
        assert(pin_charset()[k] == spec_checksum(s));
    } else {
        assert(pin_charset()[0] == spec_checksum(s));
    }
}

/// The alphabet characters that the random bytes `bytes` draw, in order:
/// a byte below 207 (three whole rounds of the 69-character alphabet) draws
/// the character at its value modulo 69; a larger byte is rejected, so that
/// every character is equally likely.
pub open spec fn drawn_chars(bytes: Seq<u8>) -> Seq<char>
    decreases bytes.len(),
{
    if bytes.len() == 0 {
        Seq::empty()
    } else if bytes.last() < 207 {
        drawn_chars(bytes.drop_last()).push(pin_charset()[(bytes.last() % 69) as int])
    } else {
        drawn_chars(bytes.drop_last())
    }
}

/// `s` cut to at most the eleven data characters of a PIN.
pub open spec fn first_eleven(s: Seq<char>) -> Seq<char> {
    if s.len() > 11 { s.take(11) } else { s }
}

/// Drawing from two runs of bytes draws what each run draws, in order.
proof fn lemma_drawn_chars_split(s: Seq<u8>, j: int)
    requires
        0 <= j <= s.len(),
    ensures
        drawn_chars(s) == drawn_chars(s.take(j)) + drawn_chars(s.skip(j)),
    decreases s.len(),
{
    if j == s.len() {
        assert(s.take(j) =~= s);
        assert(s.skip(j) =~= Seq::<u8>::empty());
        assert(drawn_chars(s) + drawn_chars(Seq::<u8>::empty()) =~= drawn_chars(s));
    } else {
        lemma_drawn_chars_split(s.drop_last(), j);
        assert(s.drop_last().take(j) =~= s.take(j));
        assert(s.skip(j).drop_last() =~= s.drop_last().skip(j));
        assert(s.skip(j).last() == s.last());
        let a = drawn_chars(s.take(j));
        let b = drawn_chars(s.drop_last().skip(j));
        if s.last() < 207 {
            assert((a + b).push(pin_charset()[(s.last() % 69) as int]) =~= a + b.push(pin_charset()[(s.last() % 69) as int]));
        }
    }
}

/// The data characters of a PIN being drawn from random bytes.
pub struct PinSampler {
    data: Vec<char>,
}

impl PinSampler {
    /// The characters drawn so far.
    pub closed spec fn spec_data(&self) -> Seq<char> {
        self.data@
    }

    /// At most eleven characters, all from the alphabet.
    pub closed spec fn wf(&self) -> bool {
        self.data@.len() <= 11 && all_in_charset(self.data@)
    }

    /// Nothing drawn yet.
    pub fn new() -> (r: Self)
        ensures
            r.wf(),
            r.spec_data() == Seq::<char>::empty(),
    {
        PinSampler { data: Vec::new() }
    }

    /// Whether all eleven data characters have been drawn.
    pub fn is_full(&self) -> (r: bool)
        ensures
            r == (self.spec_data().len() == 11),
    {
        self.data.len() == 11
    }

    /// Draws from the random bytes `buf`, until eleven characters are held.
    pub fn feed(&mut self, buf: &[u8])
        requires
            old(self).wf(),
        ensures
            final(self).wf(),
            final(self).spec_data() == first_eleven(old(self).spec_data() + drawn_chars(buf@)),
    {
        let ghost before = self.data@;
        let mut j: usize = 0;
        assert(buf@.take(0) =~= Seq::<u8>::empty());
        assert(before + drawn_chars(Seq::<u8>::empty()) =~= before);
        while j < buf.len() && self.data.len() < 11
            invariant
                0 <= j <= buf@.len(),
                self.data@.len() <= 11,
                all_in_charset(self.data@),
                self.data@ == before + drawn_chars(buf@.take(j as int)),
            decreases buf@.len() - j,
        {
            let n = buf[j];
            assert(buf@.take(j as int + 1).drop_last() =~= buf@.take(j as int));
            assert(buf@.take(j as int + 1).last() == n);
            if n < 207 {
                let c = PIN_CHARSET[(n % 69) as usize];
                assert(pin_charset()[(n % 69) as int] == c);
                let ghost prev = self.data@;
                self.data.push(c);
                assert(self.data@ =~= before + drawn_chars(buf@.take(j as int + 1)));
                assert(all_in_charset(self.data@)) by {
                    assert forall|k: int| 0 <= k < self.data@.len() implies pin_charset().contains(#[trigger] self.data@[k]) by {
                        if k < prev.len() {
                            assert(self.data@[k] == prev[k]);
                        }
                    }
                }
            }
            j = j + 1;
        }
        proof {
            lemma_drawn_chars_split(buf@, j as int);
            let head = drawn_chars(buf@.take(j as int));
            let tail = drawn_chars(buf@.skip(j as int));
            assert(before + drawn_chars(buf@) =~= (before + head) + tail);
            if j == buf@.len() {
                assert(buf@.skip(j as int) =~= Seq::<u8>::empty());
                assert((before + head) + tail =~= before + head);
            } else {
                assert(((before + head) + tail).take(11) =~= before + head);
            }
        }
    }

    /// The PIN of the eleven characters drawn: those characters and their
    /// checksum.
    pub fn pin(&self) -> (r: String)
        requires
            self.wf(),
            self.spec_data().len() == 11,
        ensures
            r@ == self.spec_data().push(spec_checksum(self.spec_data())),
            spec_is_valid_pin(r@),
    {
        let check = compute_checksum(self.data.as_slice());
        let mut out: Vec<char> = Vec::new();
        let mut i: usize = 0;
        while i < 11
            invariant
                0 <= i <= 11,
                self.data@.len() == 11,
                out@ == self.data@.take(i as int),
            decreases 11 - i,
        {
            out.push(self.data[i]);
            i = i + 1;
            assert(out@ =~= self.data@.take(i as int));
        }
        let ghost body = out@;
        out.push(check);
        proof {
            assert(body =~= self.data@);
            lemma_checksum_in_charset(body);
            assert(out@.take(11) =~= body);
            assert(all_in_charset(out@)) by {
                assert forall|k: int| 0 <= k < out@.len() implies pin_charset().contains(#[trigger] out@[k]) by {
                    if k < 11 {
                        assert(out@[k] == body[k]);
                    }
                }
            }
        }
        string_from_chars(out.as_slice())
    }
}

/// Generates a random PIN: eleven characters drawn uniformly from the PIN
/// alphabet by rejection sampling of random bytes, then the checksum
/// character.
pub fn generate_pin() -> (r: Result<String, PinError>)
    ensures
        r matches Ok(pin) ==> spec_is_valid_pin(pin@),
        r matches Err(e) ==> (e matches PinError::RandomUnavailable { code } && code != 0)
            || e == PinError::DrawsExhausted,
{
    let mut sampler = PinSampler::new();
    let mut attempts: u64 = 0;
    while !sampler.is_full() && attempts < u64::MAX
        invariant
            sampler.wf(),
        decreases u64::MAX - attempts,
    {
        attempts = attempts + 1;
        let buf = match random_bytes(22) {
            Ok(b) => b,
            Err(code) => {
                return Err(PinError::RandomUnavailable { code });
            },
        };
        sampler.feed(buf.as_slice());
    }
    if !sampler.is_full() {
        return Err(PinError::DrawsExhausted);
    }
    Ok(sampler.pin())
}

/// Milliseconds since the Unix epoch (the low 64 bits), or 0 when the
/// clock reads earlier than the epoch.
pub fn now_ms() -> (r: u64) {
    match unix_time_ms() {
        Some(ms) => {
            #[verifier::truncate]
            (ms as u64)
        },
        None => 0,
    }
}

/// Whole seconds since the Unix epoch.
pub fn now_sec() -> (r: u64)
    ensures
        r <= u64::MAX / 1000,
{
    now_ms() / 1000
}

/// Whether a transfer created at `created_at_ms` has expired at `now_ms`:
/// more than `TRANSFER_EXPIRATION_MS` have passed (a creation time in the
/// future counts as no time passed).
pub open spec fn spec_expired_at(now_ms: u64, created_at_ms: u64) -> bool {
    now_ms > created_at_ms && now_ms - created_at_ms > TRANSFER_EXPIRATION_MS
}

/// Whether a transfer created at `created_at_ms` has expired at `now_ms`.
pub fn is_expired_at(now_ms: u64, created_at_ms: u64) -> (r: bool)
    ensures
        r == spec_expired_at(now_ms, created_at_ms),
{
    now_ms.saturating_sub(created_at_ms) > TRANSFER_EXPIRATION_MS
}

/// Whether a transfer created at `created_at_ms` has expired by now.
pub fn is_expired(created_at_ms: u64) -> (r: bool)
    ensures
        exists|now: u64| r == spec_expired_at(now, created_at_ms),
{
    let now = now_ms();
    is_expired_at(now, created_at_ms)
}

/// The lowercase hexadecimal digit for `d < 16`.
pub open spec fn hex_digit(d: nat) -> char {
    if d < 10 {
        digit_char(d)
    } else {
        (('a' as nat) + d - 10) as char
    }
}

/// Lowercase hexadecimal encoding, two digits per byte, high nibble first.
pub open spec fn spec_hex_lower(bytes: Seq<u8>) -> Seq<char>
    decreases bytes.len(),
{
    if bytes.len() == 0 {
        Seq::empty()
    } else {
        spec_hex_lower(bytes.drop_last()) + seq![
            hex_digit((bytes.last() / 16) as nat),
            hex_digit((bytes.last() % 16) as nat),
        ]
    }
}

fn hex_digit_char(d: u8) -> (c: char)
    requires
        d < 16,
    ensures
        c == hex_digit(d as nat),
{
    if d < 10 {
        (d + 48) as char
    } else {
        (d + 87) as char
    }
}

/// Lowercase hexadecimal encoding of `bytes`.
pub fn hex_lower(bytes: &[u8]) -> (r: String)
    ensures
        r@ == spec_hex_lower(bytes@),
        r@.len() == 2 * bytes@.len(),
{
    let mut out: Vec<char> = Vec::new();
    let mut i: usize = 0;
    while i < bytes.len()
        invariant
            0 <= i <= bytes@.len(),
            out@ == spec_hex_lower(bytes@.take(i as int)),
            out@.len() == 2 * i,
        decreases bytes@.len() - i,
    {
        let b = bytes[i];
        assert(b >> 4 == b / 16 && b & 0x0f == b % 16) by (bit_vector);
        out.push(hex_digit_char(b >> 4));
        out.push(hex_digit_char(b & 0x0f));
        i = i + 1;
        assert(bytes@.take(i as int).drop_last() =~= bytes@.take(i - 1));
        assert(out@ =~= spec_hex_lower(bytes@.take(i as int)));
    }
    assert(bytes@.take(i as int) =~= bytes@);
    string_from_chars(out.as_slice())
}

/// A fresh random 16-byte transfer salt.
pub fn generate_salt() -> (r: Result<[u8; 16], PinError>)
    ensures
        r matches Err(e) ==> e matches PinError::RandomUnavailable { code } && code != 0,
{
    match random_bytes(SALT_LENGTH) {
        Err(code) => Err(PinError::RandomUnavailable { code }),
        Ok(v) => Ok(array16(&v)),
    }
}

/// The first sixteen bytes of `v` as an array.
pub(crate) fn array16(v: &Vec<u8>) -> (r: [u8; 16])
    requires
        v@.len() == 16,
    ensures
        r@ == v@,
{
    let mut a = [0u8; 16];
    let mut i: usize = 0;
    while i < 16
        invariant
            0 <= i <= 16,
            v@.len() == 16,
            a@.len() == 16,
            forall|j: int| 0 <= j < i ==> a@[j] == v@[j],
        decreases 16 - i,
    {
        a[i] = v[i];
        i = i + 1;
    }
    assert(a@ =~= v@);
    a
}

/// The first thirty-two bytes of `v` as an array.
pub(crate) fn array32(v: &Vec<u8>) -> (r: [u8; 32])
    requires
        v@.len() == 32,
    ensures
        r@ == v@,
{
    let mut a = [0u8; 32];
    let mut i: usize = 0;
    while i < 32
        invariant
            0 <= i <= 32,
            v@.len() == 32,
            a@.len() == 32,
            forall|j: int| 0 <= j < i ==> a@[j] == v@[j],
        decreases 32 - i,
    {
        a[i] = v[i];
        i = i + 1;
    }
    assert(a@ =~= v@);
    a
}

/// A fresh random transfer identifier: eight random bytes in lowercase hex.
pub fn generate_transfer_id() -> (r: Result<String, PinError>)
    ensures
        r matches Ok(id) ==> exists|b: Seq<u8>| b.len() == 8 && id@ == spec_hex_lower(b),
        r matches Err(e) ==> e matches PinError::RandomUnavailable { code } && code != 0,
{
    match random_bytes(8) {
        Err(code) => Err(PinError::RandomUnavailable { code }),
        Ok(v) => {
            let id = hex_lower(v.as_slice());
            assert(v@.len() == 8 && id@ == spec_hex_lower(v@));
            Ok(id)
        },
    }
}

/// The hint time bucket `offset` hours before the one holding `now_sec`
/// (never below bucket zero).
pub open spec fn spec_hint_bucket(now_sec: u64, offset: u64) -> u64 {
    let bucket = now_sec / PIN_HINT_BUCKET_SEC;
    if bucket >= offset { (bucket - offset) as u64 } else { 0 }
}

/// The salt text of PIN hints for a time bucket.
pub open spec fn hint_salt_text(bucket: nat) -> Seq<char> {
    "secure-send:pin-hint:v1:"@ + decimal(bucket)
}

/// The PIN hint of `pin` for a time bucket: PBKDF2-HMAC-SHA256 of the PIN's
/// UTF-8 bytes over the bucket's salt text, eight bytes, in lowercase hex.
pub open spec fn spec_pin_hint(pin: Seq<char>, bucket: nat) -> Seq<char> {
    spec_hex_lower(
        pbkdf2_hmac_sha256(
            encode_utf8(pin),
            encode_utf8(hint_salt_text(bucket)),
            PBKDF2_ITERATIONS as nat,
            (PIN_HINT_LENGTH / 2) as nat,
        ),
    )
}

/// The PIN hint of `pin` for the time bucket `bucket`.
pub fn pin_hint_for_bucket(pin: &str, bucket: u64) -> (r: String)
    ensures
        r@ == spec_pin_hint(pin@, bucket as nat),
        r@.len() == PIN_HINT_LENGTH,
{
    let mut salt_chars = str_chars("secure-send:pin-hint:v1:");
    push_decimal(bucket, &mut salt_chars);
    let salt_text = string_from_chars(salt_chars.as_slice());
    let salt = salt_text.as_str().as_bytes();
    let out = pbkdf2_sha256(pin.as_bytes(), salt, PBKDF2_ITERATIONS, PIN_HINT_LENGTH / 2);
    hex_lower(out.as_slice())
}

/// The PIN hint of `pin` for the current time bucket, or the bucket
/// `bucket_offset` hours earlier. The time is the clock's reading in whole
/// seconds (`now_sec`, which holds at most `u64::MAX / 1000`).
pub fn compute_pin_hint(pin: &str, bucket_offset: u64) -> (r: String)
    ensures
        exists|now_sec: u64| r@ == spec_pin_hint(pin@, spec_hint_bucket(now_sec, bucket_offset) as nat),
        exists|now_sec: u64| now_sec <= u64::MAX / 1000
            && r@ == spec_pin_hint(pin@, spec_hint_bucket(now_sec, bucket_offset) as nat),
{
    let now = now_sec();
    let bucket = (now / PIN_HINT_BUCKET_SEC).saturating_sub(bucket_offset);
    assert(bucket == spec_hint_bucket(now, bucket_offset));
    let r = pin_hint_for_bucket(pin, bucket);
    assert(r@ == spec_pin_hint(pin@, spec_hint_bucket(now, bucket_offset) as nat));
    r
}

/// The purpose a PIN-derived key serves.
#[derive(Debug, Clone, Copy, PartialEq, Eq, Structural)]
pub enum PinKeyLabel {
    Metadata,
    Signals,
    P2pContent,
}

/// The name of a key label.
pub open spec fn label_name(label: PinKeyLabel) -> Seq<char> {
    match label {
        PinKeyLabel::Metadata => "metadata"@,
        PinKeyLabel::Signals => "signals"@,
        PinKeyLabel::P2pContent => "p2p-content"@,
    }
}

impl PinKeyLabel {
    /// The label's name.
    pub fn as_str(self) -> (r: &'static str)
        ensures
            r@ == label_name(self),
    {
        match self {
            PinKeyLabel::Metadata => "metadata",
            PinKeyLabel::Signals => "signals",
            PinKeyLabel::P2pContent => "p2p-content",
        }
    }
}

/// The domain-separation text of a key label.
pub open spec fn key_label_text(label: PinKeyLabel) -> Seq<char> {
    "secure-send:pin-key:v1:"@ + label_name(label)
}

/// The PBKDF2 salt of a labeled key: the transfer salt, a zero byte, then
/// the label's domain-separation text in UTF-8.
pub open spec fn spec_labeled_salt(salt: Seq<u8>, label: PinKeyLabel) -> Seq<u8> {
    salt + seq![0u8] + encode_utf8(key_label_text(label))
}

/// The key of purpose `label` derived from `pin` and `salt`.
pub open spec fn spec_labeled_key(pin: Seq<char>, salt: Seq<u8>, label: PinKeyLabel) -> Seq<u8> {
    pbkdf2_hmac_sha256(encode_utf8(pin), spec_labeled_salt(salt, label), PBKDF2_ITERATIONS as nat, KEY_LENGTH as nat)
}

fn derive_labeled_key(pin: &str, salt: &[u8], label: PinKeyLabel) -> (r: Result<[u8; 32], PinError>)
    ensures
        r is Err <==> salt@.len() < SALT_LENGTH,
        r is Err ==> r == Err::<[u8; 32], PinError>(PinError::SaltTooShort { expected: SALT_LENGTH, actual: salt@.len() as usize }),
        r matches Ok(k) ==> k@ == spec_labeled_key(pin@, salt@, label),
{
    if salt.len() < SALT_LENGTH {
        return Err(PinError::SaltTooShort { expected: SALT_LENGTH, actual: salt.len() });
    }
    let mut label_chars = str_chars("secure-send:pin-key:v1:");
    let mut name = str_chars(label.as_str());
    label_chars.append(&mut name);
    let label_text = string_from_chars(label_chars.as_slice());
    let mut labeled: Vec<u8> = Vec::new();
    labeled.extend_from_slice(salt);
    labeled.push(0u8);
    labeled.extend_from_slice(label_text.as_str().as_bytes());
    assert(labeled@ =~= spec_labeled_salt(salt@, label));
    let out = pbkdf2_sha256(pin.as_bytes(), labeled.as_slice(), PBKDF2_ITERATIONS, KEY_LENGTH);
    Ok(array32(&out))
}

/// The three keys of a PIN-mode transfer.
#[derive(Debug, Clone)]
pub struct NostrTransferKeys {
    pub metadata: [u8; 32],
    pub signals: [u8; 32],
    pub p2p_content: [u8; 32],
}

/// Derives the metadata, signaling and content keys of a transfer from its
/// PIN and salt; refused when the salt is shorter than `SALT_LENGTH` bytes.
pub fn derive_nostr_transfer_keys(pin: &str, salt: &[u8]) -> (r: Result<NostrTransferKeys, PinError>)
    ensures
        r is Err <==> salt@.len() < SALT_LENGTH,
        r is Err ==> r == Err::<NostrTransferKeys, PinError>(PinError::SaltTooShort { expected: SALT_LENGTH, actual: salt@.len() as usize }),
        r matches Ok(keys) ==> {
            &&& keys.metadata@ == spec_labeled_key(pin@, salt@, PinKeyLabel::Metadata)
            &&& keys.signals@ == spec_labeled_key(pin@, salt@, PinKeyLabel::Signals)
            &&& keys.p2p_content@ == spec_labeled_key(pin@, salt@, PinKeyLabel::P2pContent)
        },
{
    let metadata = derive_labeled_key(pin, salt, PinKeyLabel::Metadata)?;
    let signals = derive_labeled_key(pin, salt, PinKeyLabel::Signals)?;
    let p2p_content = derive_labeled_key(pin, salt, PinKeyLabel::P2pContent)?;
    Ok(NostrTransferKeys { metadata, signals, p2p_content })
}

/// Keys of different purposes are derived from different salts: the labeled
/// salts of two distinct labels never coincide, whatever the transfer salt.
pub proof fn lemma_labels_domain_separated(salt: Seq<u8>, a: PinKeyLabel, b: PinKeyLabel)
    requires
        a != b,
    ensures
        spec_labeled_salt(salt, a) != spec_labeled_salt(salt, b),
{
    reveal_strlit("secure-send:pin-key:v1:");
    reveal_strlit("metadata");
    reveal_strlit("signals");
    reveal_strlit("p2p-content");
    is_ascii_chars_encode_utf8(key_label_text(a));
    is_ascii_chars_encode_utf8(key_label_text(b));
    assert(spec_labeled_salt(salt, a).len() != spec_labeled_salt(salt, b).len());
}


/// The PIN alphabet holds 69 different characters.
proof fn lemma_charset_distinct()
    ensures
        forall|i: int, j: int| 0 <= i < j < pin_charset().len() ==> pin_charset()[i] != pin_charset()[j],
        pin_charset().len() == 69,
{
    let lit = seq!['A', 'B', 'C', 'D', 'E', 'F', 'G', 'H', 'J', 'K', 'L', 'M', 'N', 'P', 'Q', 'R', 'S', 'T', 'U', 'V', 'W', 'X', 'Y', 'Z', 'a', 'b', 'c', 'd', 'e', 'f', 'g', 'h', 'j', 'k', 'm', 'n', 'p', 'q', 'r', 's', 't', 'u', 'v', 'w', 'x', 'y', 'z', '2', '3', '4', '5', '6', '7', '8', '9', '-', '/', ':', ';', '(', ')', '$', '&', '@', '?', '!', '.', ',', '"'];
    assert(pin_charset() =~= lit);
    assert forall|i: int, j: int| 0 <= i < j < 69 implies lit[i] != lit[j] by {}
}

/// Different positions of the PIN alphabet hold different characters.
proof fn lemma_charset_injective(i: int, j: int)
    requires
        0 <= i < 69,
        0 <= j < 69,
        i != j,
    ensures
        pin_charset()[i] != pin_charset()[j],
{
    lemma_charset_distinct();
    if i < j {
        assert(pin_charset()[i] != pin_charset()[j]);
    } else {
        assert(pin_charset()[j] != pin_charset()[i]);
    }
}

/// An alphabet character's index is its position.
proof fn lemma_charset_index(c: char)
    requires
        pin_charset().contains(c),
    ensures
        charset_index(c) matches Some(k) && k < 69 && pin_charset()[k as int] == c,
{
    lemma_charset_distinct();
    let i = choose|i: int| 0 <= i < pin_charset().len() && pin_charset()[i] == c;
    assert(is_first_position(i, c));
}

/// Replacing the character at place `p + 1` changes the weighted sum by
/// the change of its alphabet position times `p + 1`.
proof fn lemma_weighted_sum_update(s: Seq<char>, p: int, c: char)
    requires
        0 <= p < s.len(),
    ensures
        weighted_sum(s.update(p, c)) + charset_index(s[p]).unwrap_or(0) * (p + 1)
            == weighted_sum(s) + charset_index(c).unwrap_or(0) * (p + 1),
    decreases s.len(),
{
    let t = s.update(p, c);
    if p == s.len() - 1 {
        assert(t.drop_last() =~= s.drop_last());
    } else {
        assert(t.drop_last() =~= s.drop_last().update(p, c));
        lemma_weighted_sum_update(s.drop_last(), p, c);
    }
}

/// Adding a non-multiple of 69 changes the remainder modulo 69.
proof fn lemma_mod_shift(w: int, x: int)
    requires
        x % 69 != 0,
    ensures
        (w + x) % 69 != w % 69,
{
    vstd::arithmetic::div_mod::lemma_fundamental_div_mod(w, 69);
    vstd::arithmetic::div_mod::lemma_fundamental_div_mod(w + x, 69);
    vstd::arithmetic::div_mod::lemma_fundamental_div_mod(x, 69);
    if (w + x) % 69 == w % 69 {
        assert(x == 69 * ((w + x) / 69 - w / 69)) by (nonlinear_arith)
            requires
                w == 69 * (w / 69) + w % 69,
                w + x == 69 * ((w + x) / 69) + (w + x) % 69,
                (w + x) % 69 == w % 69;
        vstd::arithmetic::div_mod::lemma_mod_multiples_basic((w + x) / 69 - w / 69, 69);
        assert(((w + x) / 69 - w / 69) * 69 == x) by (nonlinear_arith)
            requires x == 69 * ((w + x) / 69 - w / 69);
    }
}

/// The data characters of a valid PIN, and those same characters with one
/// replaced by an alphabet character, are all alphabet characters.
proof fn lemma_data_in_charset(pin: Seq<char>, p: int, c: char)
    requires
        spec_is_valid_pin(pin),
        0 <= p < 11,
        pin_charset().contains(c),
    ensures
        all_in_charset(pin.take(11)),
        all_in_charset(pin.take(11).update(p, c)),
{
    let data = pin.take(11);
    let data2 = data.update(p, c);
    assert forall|i: int| 0 <= i < data2.len() implies pin_charset().contains(#[trigger] data2[i]) by {
        if i != p {
            assert(data2[i] == pin[i]);
        }
    }
    assert forall|i: int| 0 <= i < data.len() implies pin_charset().contains(#[trigger] data[i]) by {
        assert(data[i] == pin[i]);
    }
}

/// What the checksum catches: in a valid PIN, replacing the checksum
/// character by another alphabet character, or the data character at
/// position `p` by an alphabet character whose alphabet position differs by
/// `d` with `d * (p + 1)` not a multiple of 69, gives an invalid PIN.
pub proof fn lemma_checksum_catches_typo(pin: Seq<char>, p: int, c: char)
    requires
        spec_is_valid_pin(pin),
        0 <= p < 12,
        pin_charset().contains(c),
        c != pin[p],
        p < 11 ==> ((charset_index(c).unwrap_or(0) - charset_index(pin[p]).unwrap_or(0)) * (p + 1)) % 69 != 0,
    ensures
        !spec_is_valid_pin(pin.update(p, c)),
{
    let typo = pin.update(p, c);
    if p == 11 {
        assert(typo.take(11) =~= pin.take(11));
        return;
    }
    let data = pin.take(11);
    let data2 = typo.take(11);
    assert(data2 =~= data.update(p, c));
    lemma_charset_index(c);
    lemma_charset_index(pin[p]);
    let k_new = charset_index(c)->Some_0;
    let k_old = charset_index(pin[p])->Some_0;
    lemma_weighted_sum_update(data, p, c);
    lemma_data_in_charset(pin, p, c);
    let w = weighted_sum(data);
    let w2 = weighted_sum(data2);
    let x: int = (k_new - k_old) * (p + 1);
    assert(w2 == w + x) by (nonlinear_arith)
        requires w2 + k_old * (p + 1) == w + k_new * (p + 1), x == (k_new - k_old) * (p + 1);
    lemma_mod_shift(w as int, x);
    lemma_charset_injective((w % 69) as int, (w2 % 69) as int);
    assert(spec_checksum(data2) != pin[11]);
    assert(typo[11] == pin[11]);
}

/// A valid PIN whose first character is replaced by any other alphabet
/// character is not valid.
pub proof fn lemma_checksum_catches_first_typo(pin: Seq<char>, c: char)
    requires
        spec_is_valid_pin(pin),
        pin_charset().contains(c),
        c != pin[0],
    ensures
        !spec_is_valid_pin(pin.update(0, c)),
{
    lemma_charset_index(c);
    lemma_charset_index(pin[0]);
    let d = charset_index(c).unwrap_or(0) - charset_index(pin[0]).unwrap_or(0);
    assert(d != 0);
    assert(d * 1 == d);
    assert((d * (0 + 1)) % 69 != 0);
    lemma_checksum_catches_typo(pin, 0, c);
}

/// How every PIN-derived key is made, written out byte by byte: PBKDF2 with
/// HMAC-SHA256, 600 000 rounds, 32 bytes, of the PIN's UTF-8 bytes over a
/// salt that is the transfer salt, one zero byte, then the ASCII text
/// `secure-send:pin-key:v1:` and the purpose's name (`metadata`, `signals`,
/// `p2p-content`).
pub proof fn lemma_pin_key_derivation(pin: Seq<char>, salt: Seq<u8>)
    ensures
        spec_labeled_key(pin, salt, PinKeyLabel::Metadata) == pbkdf2_hmac_sha256(
            encode_utf8(pin),
            salt + seq![0u8] + seq![115u8, 101, 99, 117, 114, 101, 45, 115, 101, 110, 100, 58, 112, 105, 110, 45, 107, 101, 121, 58, 118, 49, 58, 109, 101, 116, 97, 100, 97, 116, 97],
            600000,
            32,
        ),
        spec_labeled_key(pin, salt, PinKeyLabel::Signals) == pbkdf2_hmac_sha256(
            encode_utf8(pin),
            salt + seq![0u8] + seq![115u8, 101, 99, 117, 114, 101, 45, 115, 101, 110, 100, 58, 112, 105, 110, 45, 107, 101, 121, 58, 118, 49, 58, 115, 105, 103, 110, 97, 108, 115],
            600000,
            32,
        ),
        spec_labeled_key(pin, salt, PinKeyLabel::P2pContent) == pbkdf2_hmac_sha256(
            encode_utf8(pin),
            salt + seq![0u8] + seq![115u8, 101, 99, 117, 114, 101, 45, 115, 101, 110, 100, 58, 112, 105, 110, 45, 107, 101, 121, 58, 118, 49, 58, 112, 50, 112, 45, 99, 111, 110, 116, 101, 110, 116],
            600000,
            32,
        ),
{
    reveal_strlit("secure-send:pin-key:v1:");
    reveal_strlit("metadata");
    reveal_strlit("signals");
    reveal_strlit("p2p-content");
    let m = key_label_text(PinKeyLabel::Metadata);
    let g = key_label_text(PinKeyLabel::Signals);
    let c = key_label_text(PinKeyLabel::P2pContent);
    is_ascii_chars_encode_utf8(m);
    is_ascii_chars_encode_utf8(g);
    is_ascii_chars_encode_utf8(c);
    assert(encode_utf8(m) =~= seq![115u8, 101, 99, 117, 114, 101, 45, 115, 101, 110, 100, 58, 112, 105, 110, 45, 107, 101, 121, 58, 118, 49, 58, 109, 101, 116, 97, 100, 97, 116, 97]);
    assert(encode_utf8(g) =~= seq![115u8, 101, 99, 117, 114, 101, 45, 115, 101, 110, 100, 58, 112, 105, 110, 45, 107, 101, 121, 58, 118, 49, 58, 115, 105, 103, 110, 97, 108, 115]);
    assert(encode_utf8(c) =~= seq![115u8, 101, 99, 117, 114, 101, 45, 115, 101, 110, 100, 58, 112, 105, 110, 45, 107, 101, 121, 58, 118, 49, 58, 112, 50, 112, 45, 99, 111, 110, 116, 101, 110, 116]);
}

/// In every PIN-derived key's salt the transfer salt comes first, whole,
/// and is followed by a single zero byte.
pub proof fn lemma_labeled_salt_starts_with_salt(salt: Seq<u8>, label: PinKeyLabel)
    ensures
        spec_labeled_salt(salt, label).take(salt.len() as int) == salt,
        spec_labeled_salt(salt, label)[salt.len() as int] == 0u8,
{
    assert(spec_labeled_salt(salt, label).take(salt.len() as int) =~= salt);
}

/// The UTF-8 encoding of two texts one after the other is their encodings
/// one after the other.
proof fn lemma_encode_utf8_concat(a: Seq<char>, b: Seq<char>)
    ensures
        encode_utf8(a + b) == encode_utf8(a) + encode_utf8(b),
    decreases a.len(),
{
    if a.len() == 0 {
        assert(a + b =~= b);
        assert(encode_utf8(a) + encode_utf8(b) =~= encode_utf8(b));
    } else {
        assert((a + b).drop_first() =~= a.drop_first() + b);
        lemma_encode_utf8_concat(a.drop_first(), b);
        assert((a + b)[0] == a[0]);
        let e = vstd::utf8::encode_scalar(a[0] as u32);
        assert(e + (encode_utf8(a.drop_first()) + encode_utf8(b)) =~= (e + encode_utf8(a.drop_first())) + encode_utf8(b));
    }
}

/// How a PIN hint is made, written out: PBKDF2 with HMAC-SHA256, 600 000
/// rounds, 8 bytes, of the PIN's UTF-8 bytes over the ASCII text
/// `secure-send:pin-hint:v1:` followed by the bucket in decimal, in
/// lowercase hex; and the bucket of a time in seconds is the number of
/// whole hours since the epoch, `offset` hours back (not below zero).
pub proof fn lemma_pin_hint_derivation(pin: Seq<char>, now_sec: u64, offset: u64)
    ensures
        spec_hint_bucket(now_sec, offset) == if now_sec / 3600 >= offset { now_sec / 3600 - offset } else { 0 },
        spec_pin_hint(pin, spec_hint_bucket(now_sec, offset) as nat) == spec_hex_lower(pbkdf2_hmac_sha256(
            encode_utf8(pin),
            seq![115u8, 101, 99, 117, 114, 101, 45, 115, 101, 110, 100, 58, 112, 105, 110, 45, 104, 105, 110, 116, 58, 118, 49, 58]
                + encode_utf8(decimal(spec_hint_bucket(now_sec, offset) as nat)),
            600000,
            8,
        )),
{
    reveal_strlit("secure-send:pin-hint:v1:");
    let b = spec_hint_bucket(now_sec, offset) as nat;
    let prefix = "secure-send:pin-hint:v1:"@;
    is_ascii_chars_encode_utf8(prefix);
    assert(encode_utf8(prefix) =~= seq![115u8, 101, 99, 117, 114, 101, 45, 115, 101, 110, 100, 58, 112, 105, 110, 45, 104, 105, 110, 116, 58, 118, 49, 58]);
    lemma_encode_utf8_concat(prefix, decimal(b));
}

} // verus!
