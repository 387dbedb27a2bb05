//! Decisions around the WebRTC connection: the SDP patch that advertises a
//! large enough message size, how each side reacts to signals from its
//! peer, how the receiver searches the PIN exchange events, and the size
//! limits both sides enforce.

use vstd::prelude::*;

use crate::crypto::aead::{decrypt, spec_open_sealed};
use crate::crypto::pin::{
    derive_nostr_transfer_keys, is_expired_at, spec_expired_at, spec_labeled_key, NostrTransferKeys, PinKeyLabel,
    SALT_LENGTH,
};
use crate::signaling::nostr::{
    opt_view, parse_pin_exchange_event, spec_parse_pin_exchange_event, EventData, PinExchangePayload, Signal,
};
use crate::text::{contains_text, find_text, occurs_at, occurs_at_exec, str_chars, str_eq, string_from_chars};

verus! {

/// A line break of SDP text.
pub open spec fn crlf() -> Seq<char> {
    seq!['\r', '\n']
}

/// Position `p` of `s` begins a line: it is the start or follows a `\r\n`.
pub open spec fn is_line_start(s: Seq<char>, p: int) -> bool {
    p == 0 || (2 <= p <= s.len() && occurs_at(s, crlf(), p - 2))
}

/// A line of `s` starting at `p` begins with `a=sctp-port`.
pub open spec fn sctp_line_at(s: Seq<char>, p: int) -> bool {
    is_line_start(s, p) && occurs_at(s, "a=sctp-port"@, p)
}

/// `p` is where the first line beginning with `a=sctp-port` starts.
pub open spec fn first_sctp_line(s: Seq<char>, p: int) -> bool {
    sctp_line_at(s, p) && forall|q: int| q < p ==> !sctp_line_at(s, q)
}

/// The line starting at `p` ends (its `\r\n` included) at `e`.
pub open spec fn line_end_is(s: Seq<char>, p: int, e: int) -> bool {
    ||| (p <= e - 2 && occurs_at(s, crlf(), e - 2) && forall|k: int| p <= k < e - 2 ==> !occurs_at(s, crlf(), k))
    ||| (e == s.len() && forall|k: int| p <= k ==> !occurs_at(s, crlf(), k))
}

/// The SDP attribute that advertises a 256 KiB message size.
pub open spec fn max_message_size_attr() -> Seq<char> {
    "a=max-message-size:262144\r\n"@
}

/// What `advertise_max_message_size` makes of the SDP text `s`: unchanged
/// when it already mentions `max-message-size` or has no `a=sctp-port` line;
/// otherwise the attribute line inserted right after the first `a=sctp-port`
/// line.
pub open spec fn spec_advertise(s: Seq<char>) -> Seq<char> {
    if contains_text(s, "max-message-size"@) {
        s
    } else if exists|p: int| sctp_line_at(s, p) {
        let p = choose|p: int| first_sctp_line(s, p);
        let e = choose|e: int| line_end_is(s, p, e);
        s.take(e) + max_message_size_attr() + s.skip(e)
    } else {
        s
    }
}

proof fn lemma_no_line_start_inside(s: Seq<char>, p: int, j: int, q: int)
    requires
        is_line_start(s, p),
        p <= j,
        forall|k: int| p <= k < j ==> !occurs_at(s, crlf(), k),
        p < q < j + 2,
    ensures
        !is_line_start(s, q),
{
    if is_line_start(s, q) {
        assert(occurs_at(s, crlf(), q - 2));
        if q - 2 >= p {
        } else {
            assert(q - 2 == p - 1);
            assert(s.subrange(q - 2, q)[1] == '\n');
            assert(s.subrange(p - 2, p)[1] == '\n');
            assert(s[p - 1] == '\n');
            assert(s.subrange(q - 2, q)[0] == '\r');
            assert(s[q - 2] == '\r');
        }
    }
}

proof fn lemma_first_sctp_line_unique(s: Seq<char>, p: int, p2: int)
    requires
        first_sctp_line(s, p),
        first_sctp_line(s, p2),
    ensures
        p == p2,
{
}

proof fn lemma_line_end_unique(s: Seq<char>, p: int, e: int, e2: int)
    requires
        line_end_is(s, p, e),
        line_end_is(s, p, e2),
    ensures
        e == e2,
{
}

/// Makes sure outgoing SDP advertises a data-channel `max-message-size`
/// large enough for a full 128 KiB chunk, by inserting
/// `a=max-message-size:262144` after the `a=sctp-port` line when no
/// message size is mentioned.
pub fn advertise_max_message_size(sdp: String) -> (r: String)
    ensures
        r@ == spec_advertise(sdp@),
{
    let s = str_chars(sdp.as_str());
    let mms = str_chars("max-message-size");
    if find_text(s.as_slice(), mms.as_slice(), 0).is_some() {
        return sdp;
    }
    assert(!contains_text(sdp@, "max-message-size"@));
    let prefix = str_chars("a=sctp-port");
    let mut crlf_v: Vec<char> = Vec::new();
    crlf_v.push('\r');
    crlf_v.push('\n');
    assert(crlf_v@ =~= crlf());
    let mut p: usize = 0;
    assert(s@.len() == s.len());
    loop
        invariant
            s@.len() <= usize::MAX,
            s@ == sdp@,
            prefix@ == "a=sctp-port"@,
            crlf_v@ == crlf(),
            !contains_text(sdp@, "max-message-size"@),
            p <= s@.len(),
            is_line_start(s@, p as int),
            forall|q: int| q < p ==> !sctp_line_at(s@, q),
        ensures
            first_sctp_line(s@, p as int),
            p <= s@.len(),
        decreases s@.len() - p,
    {
        if occurs_at_exec(s.as_slice(), prefix.as_slice(), p) {
            break;
        }
        match find_text(s.as_slice(), crlf_v.as_slice(), p) {
            None => {
                assert forall|q: int| !sctp_line_at(s@, q) by {
                    if q > p && is_line_start(s@, q) {
                        lemma_no_line_start_inside(s@, p as int, s@.len() as int, q);
                    }
                }
                return sdp;
            },
            Some(j) => {
                assert forall|q: int| q < j + 2 implies !sctp_line_at(s@, q) by {
                    if p < q && is_line_start(s@, q) {
                        lemma_no_line_start_inside(s@, p as int, j as int, q);
                    }
                }
                p = j + 2;
            },
        }
    }
    assert(s@.len() == s.len());
    let e: usize = match find_text(s.as_slice(), crlf_v.as_slice(), p) {
        Some(j) => j + 2,
        None => s.len(),
    };
    assert(line_end_is(s@, p as int, e as int));
    let ghost pc = choose|p: int| first_sctp_line(s@, p);
    let ghost ec = choose|e: int| line_end_is(s@, p as int, e);
    proof {
        lemma_first_sctp_line_unique(s@, p as int, pc);
        lemma_line_end_unique(s@, p as int, e as int, ec);
    }
    let attr = str_chars("a=max-message-size:262144\r\n");
    let mut out: Vec<char> = Vec::new();
    let mut i: usize = 0;
    while i < e
        invariant
            0 <= i <= e <= s@.len(),
            out@ == s@.take(i as int),
        decreases e - i,
    {
        out.push(s[i]);
        i = i + 1;
        assert(out@ =~= s@.take(i as int));
    }
    let mut k: usize = 0;
    while k < attr.len()
        invariant
            0 <= k <= attr@.len(),
            out@ == s@.take(e as int) + attr@.take(k as int),
        decreases attr@.len() - k,
    {
        out.push(attr[k]);
        k = k + 1;
        assert(out@ =~= s@.take(e as int) + attr@.take(k as int));
    }
    assert(attr@.take(attr@.len() as int) =~= attr@);
    let mut i2: usize = e;
    while i2 < s.len()
        invariant
            e <= i2 <= s@.len(),
            out@ == s@.take(e as int) + attr@ + s@.subrange(e as int, i2 as int),
        decreases s@.len() - i2,
    {
        out.push(s[i2]);
        i2 = i2 + 1;
        assert(out@ =~= s@.take(e as int) + attr@ + s@.subrange(e as int, i2 as int));
    }
    assert(s@.subrange(e as int, s@.len() as int) =~= s@.skip(e as int));
    string_from_chars(out.as_slice())
}

/// Advertising the message size twice changes nothing more than doing it
/// once: the patched SDP already mentions `max-message-size`.
pub proof fn lemma_advertise_idempotent(s: Seq<char>)
    ensures
        spec_advertise(spec_advertise(s)) == spec_advertise(s),
{
    if !contains_text(s, "max-message-size"@) && exists|p: int| sctp_line_at(s, p) {
        let p = choose|p: int| first_sctp_line(s, p);
        let e = choose|e: int| line_end_is(s, p, e);
        let p0 = choose|p: int| sctp_line_at(s, p);
        lemma_first_sctp_line_exists(s, p0);
        let p = choose|p: int| first_sctp_line(s, p);
        lemma_line_end_exists(s, p);
        let e = choose|e: int| line_end_is(s, p, e);
        assert(0 <= e <= s.len());
        reveal_strlit("a=max-message-size:262144\r\n");
        reveal_strlit("max-message-size");
        let r = spec_advertise(s);
        assert(r == s.take(e) + max_message_size_attr() + s.skip(e));
        assert(r.subrange(e + 2, e + 18) =~= "max-message-size"@);
        assert(occurs_at(r, "max-message-size"@, e + 2));
    }
}

proof fn lemma_first_sctp_line_exists(s: Seq<char>, p0: int)
    requires
        sctp_line_at(s, p0),
    ensures
        exists|p: int| first_sctp_line(s, p),
    decreases p0,
{
    if exists|q: int| q < p0 && sctp_line_at(s, q) {
        let q = choose|q: int| q < p0 && sctp_line_at(s, q);
        lemma_first_sctp_line_exists(s, q);
    } else {
        assert(first_sctp_line(s, p0));
    }
}

proof fn lemma_min_crlf(s: Seq<char>, p: int, k0: int)
    requires
        p <= k0,
        occurs_at(s, crlf(), k0),
    ensures
        exists|k: int| p <= k && occurs_at(s, crlf(), k) && forall|m: int| p <= m < k ==> !occurs_at(s, crlf(), m),
    decreases k0 - p,
{
    if exists|m: int| p <= m < k0 && occurs_at(s, crlf(), m) {
        let m = choose|m: int| p <= m < k0 && occurs_at(s, crlf(), m);
        lemma_min_crlf(s, p, m);
    } else {
        assert(p <= k0 && occurs_at(s, crlf(), k0) && forall|m: int| p <= m < k0 ==> !occurs_at(s, crlf(), m));
    }
}

proof fn lemma_line_end_exists(s: Seq<char>, p: int)
    requires
        0 <= p <= s.len(),
    ensures
        exists|e: int| line_end_is(s, p, e),
        forall|e: int| line_end_is(s, p, e) ==> p <= e <= s.len(),
{
    if exists|k: int| p <= k && occurs_at(s, crlf(), k) {
        let k0 = choose|k: int| p <= k && occurs_at(s, crlf(), k);
        lemma_min_crlf(s, p, k0);
        let k = choose|k: int| p <= k && occurs_at(s, crlf(), k) && forall|m: int| p <= m < k ==> !occurs_at(s, crlf(), m);
        assert(line_end_is(s, p, k + 2));
    } else {
        assert(line_end_is(s, p, s.len() as int));
    }
}

/// The ids of the relay events already handled, so that an event that
/// arrives again (from another relay, or both fetched and pushed) is handled
/// once.
pub struct SeenEvents {
    ids: Vec<[u8; 32]>,
}

/// Whether two event ids are equal.
fn same_id(a: &[u8; 32], b: &[u8; 32]) -> (r: bool)
    ensures
        r == (a@ == b@),
{
    let mut i: usize = 0;
    while i < 32
        invariant
            0 <= i <= 32,
            a@.len() == 32,
            b@.len() == 32,
            forall|j: int| 0 <= j < i ==> a@[j] == b@[j],
        decreases 32 - i,
    {
        if a[i] != b[i] {
            return false;
        }
        i = i + 1;
    }
    assert(a@ =~= b@);
    true
}

impl SeenEvents {
    /// The ids handled so far.
    pub closed spec fn spec_ids(&self) -> Set<Seq<u8>> {
        self.ids@.map_values(|id: [u8; 32]| id@).to_set()
    }

    /// No event handled yet.
    pub fn new() -> (r: Self)
        ensures
            r.spec_ids() == Set::<Seq<u8>>::empty(),
    {
        let r = SeenEvents { ids: Vec::new() };
        assert(r.spec_ids() =~= Set::<Seq<u8>>::empty());
        r
    }

    /// Records the event `id`; `true` when it had not been seen before.
    pub fn insert(&mut self, id: [u8; 32]) -> (r: bool)
        ensures
            r == !old(self).spec_ids().contains(id@),
            final(self).spec_ids() == old(self).spec_ids().insert(id@),
    {
        let ghost views = self.ids@.map_values(|x: [u8; 32]| x@);
        let mut i: usize = 0;
        while i < self.ids.len()
            invariant
                0 <= i <= self.ids@.len(),
                views == self.ids@.map_values(|x: [u8; 32]| x@),
                forall|j: int| 0 <= j < i ==> views[j] != id@,
            decreases self.ids@.len() - i,
        {
            if same_id(&self.ids[i], &id) {
                assert(views[i as int] == id@);
                assert(views.to_set().contains(id@));
                assert(views.to_set().insert(id@) =~= views.to_set());
                return false;
            }
            i = i + 1;
        }
        assert(!views.to_set().contains(id@)) by {
            if views.to_set().contains(id@) {
                let k = choose|k: int| 0 <= k < views.len() && views[k] == id@;
                assert(views[k] == id@);
            }
        }
        self.ids.push(id);
        assert(self.ids@.map_values(|x: [u8; 32]| x@) =~= views.push(id@));
        proof {
            views.lemma_push_to_set_commute(id@);
        }
        true
    }
}

/// What the sending side does with a signal from its peer.
#[derive(Debug, Clone)]
pub enum SenderSignalAction {
    /// Nothing: a repeated event, another peer, or a signal of no use now.
    Ignore,
    /// Set the peer's answer as remote description, then add the candidates
    /// that arrived before it, in order.
    ApplyAnswer { sdp: String, candidates: Vec<String> },
    /// Add a candidate to the connection.
    AddCandidate { candidate: String },
    /// Keep a candidate until the answer arrives.
    Queued,
}

/// The sending side's signaling state: whether the answer has been applied,
/// and the candidates that arrived before it.
pub struct SenderSignals {
    answer_set: bool,
    queued: Vec<String>,
}

/// The texts of a list of strings.
pub open spec fn texts(v: Seq<String>) -> Seq<Seq<char>> {
    v.map_values(|s: String| s@)
}

impl SenderSignals {
    /// Whether the answer has been applied.
    pub closed spec fn spec_answer_set(&self) -> bool {
        self.answer_set
    }

    /// The candidates waiting for the answer.
    pub closed spec fn spec_queued(&self) -> Seq<Seq<char>> {
        texts(self.queued@)
    }

    /// No answer yet, no candidate waiting.
    pub fn new() -> (r: Self)
        ensures
            !r.spec_answer_set(),
            r.spec_queued() == Seq::<Seq<char>>::empty(),
    {
        let r = SenderSignals { answer_set: false, queued: Vec::new() };
        assert(r.spec_queued() =~= Seq::<Seq<char>>::empty());
        r
    }

    /// Whether the answer has been applied.
    pub fn answer_set(&self) -> (r: bool)
        ensures
            r == self.spec_answer_set(),
    {
        self.answer_set
    }

    /// Decides what to do with a signal event. `fresh` is false for an event
    /// already handled, `from_peer` whether it comes from the expected peer,
    /// and `signal` the signal it carries when it could be read.
    pub fn on_signal(&mut self, fresh: bool, from_peer: bool, signal: Option<Signal>) -> (r: SenderSignalAction)
        ensures
            (!fresh || !from_peer || signal is None) ==> (r is Ignore && final(self).spec_answer_set() == old(self).spec_answer_set()
                && final(self).spec_queued() == old(self).spec_queued()),
            fresh && from_peer && signal is Some ==> match signal->Some_0 {
                Signal::Answer { sdp } => if !old(self).spec_answer_set() {
                    &&& r matches SenderSignalAction::ApplyAnswer { sdp: s, candidates: c }
                        && s@ == sdp@ && texts(c@) == old(self).spec_queued()
                    &&& final(self).spec_answer_set()
                    &&& final(self).spec_queued() == Seq::<Seq<char>>::empty()
                } else {
                    r is Ignore && final(self).spec_answer_set() && final(self).spec_queued() == old(self).spec_queued()
                },
                Signal::Candidate { candidate: Some(c) } => if old(self).spec_answer_set() {
                    &&& r matches SenderSignalAction::AddCandidate { candidate: x } && x@ == c.candidate@
                    &&& final(self).spec_answer_set()
                    &&& final(self).spec_queued() == old(self).spec_queued()
                } else {
                    &&& r is Queued
                    &&& !final(self).spec_answer_set()
                    &&& final(self).spec_queued() == old(self).spec_queued().push(c.candidate@)
                },
                _ => r is Ignore && final(self).spec_answer_set() == old(self).spec_answer_set()
                    && final(self).spec_queued() == old(self).spec_queued(),
            },
    {
        if !fresh || !from_peer {
            return SenderSignalAction::Ignore;
        }
        match signal {
            None => SenderSignalAction::Ignore,
            Some(Signal::Answer { sdp }) => {
                if self.answer_set {
                    SenderSignalAction::Ignore
                } else {
                    self.answer_set = true;
                    let mut candidates: Vec<String> = Vec::new();
                    std::mem::swap(&mut candidates, &mut self.queued);
                    assert(texts(self.queued@) =~= Seq::<Seq<char>>::empty());
                    SenderSignalAction::ApplyAnswer { sdp, candidates }
                }
            },
            Some(Signal::Candidate { candidate: Some(c) }) => {
                if self.answer_set {
                    SenderSignalAction::AddCandidate { candidate: c.candidate }
                } else {
                    let ghost before = self.queued@;
                    self.queued.push(c.candidate);
                    assert(texts(self.queued@) =~= texts(before).push(c.candidate@));
                    SenderSignalAction::Queued
                }
            },
            Some(_) => SenderSignalAction::Ignore,
        }
    }
}

/// The receiving side's signaling state before the offer is applied: the
/// latest offer and the candidates that arrived with it.
pub struct ReceiverSignals {
    offer_sdp: Option<String>,
    queued: Vec<String>,
}

impl ReceiverSignals {
    /// The offer received so far.
    pub closed spec fn spec_offer(&self) -> Option<Seq<char>> {
        opt_view(self.offer_sdp)
    }

    /// The candidates received so far.
    pub closed spec fn spec_queued(&self) -> Seq<Seq<char>> {
        texts(self.queued@)
    }

    /// No offer yet, no candidate waiting.
    pub fn new() -> (r: Self)
        ensures
            r.spec_offer() is None,
            r.spec_queued() == Seq::<Seq<char>>::empty(),
    {
        let r = ReceiverSignals { offer_sdp: None, queued: Vec::new() };
        assert(r.spec_queued() =~= Seq::<Seq<char>>::empty());
        r
    }

    /// Whether an offer has arrived.
    pub fn has_offer(&self) -> (r: bool)
        ensures
            r == self.spec_offer() is Some,
    {
        self.offer_sdp.is_some()
    }

    /// Records a signal event that arrived before the offer was applied:
    /// an offer replaces the one held, a candidate joins the queue.
    pub fn on_pre_offer_signal(&mut self, fresh: bool, from_peer: bool, signal: Option<Signal>)
        ensures
            (!fresh || !from_peer || signal is None) ==> final(self).spec_offer() == old(self).spec_offer()
                && final(self).spec_queued() == old(self).spec_queued(),
            fresh && from_peer && signal is Some ==> match signal->Some_0 {
                Signal::Offer { sdp } => final(self).spec_offer() == Some(sdp@)
                    && final(self).spec_queued() == old(self).spec_queued(),
                Signal::Candidate { candidate: Some(c) } => final(self).spec_offer() == old(self).spec_offer()
                    && final(self).spec_queued() == old(self).spec_queued().push(c.candidate@),
                _ => final(self).spec_offer() == old(self).spec_offer()
                    && final(self).spec_queued() == old(self).spec_queued(),
            },
    {
        if !fresh || !from_peer {
            return;
        }
        match signal {
            Some(Signal::Offer { sdp }) => {
                self.offer_sdp = Some(sdp);
            },
            Some(Signal::Candidate { candidate: Some(c) }) => {
                let ghost before = self.queued@;
                self.queued.push(c.candidate);
                assert(texts(self.queued@) =~= texts(before).push(c.candidate@));
            },
            _ => {},
        }
    }

    /// Hands out the offer and the queued candidates, in order of arrival.
    pub fn into_parts(self) -> (r: (Option<String>, Vec<String>))
        ensures
            opt_view(r.0) == self.spec_offer(),
            texts(r.1@) == self.spec_queued(),
    {
        (self.offer_sdp, self.queued)
    }
}

/// The candidate to add, once the offer is applied, from a signal event.
pub fn receiver_candidate(fresh: bool, from_peer: bool, signal: Option<Signal>) -> (r: Option<String>)
    ensures
        r is Some <==> fresh && from_peer && (signal matches Some(Signal::Candidate { candidate: Some(_) })),
        r matches Some(c) ==> (signal matches Some(Signal::Candidate { candidate: Some(p) }) && c@ == p.candidate@),
{
    if !fresh || !from_peer {
        return None;
    }
    match signal {
        Some(Signal::Candidate { candidate: Some(c) }) => Some(c.candidate),
        _ => None,
    }
}

/// Event `a` comes before event `b` when it was created later, or at the
/// same second and listed earlier.
pub open spec fn newer_first(created: Seq<u64>, a: int, b: int) -> bool {
    created[a] > created[b] || (created[a] == created[b] && a < b)
}

/// `order` lists every index of `created` exactly once, newest first, and
/// events created in the same second in the order they were listed.
pub open spec fn is_newest_first_order(created: Seq<u64>, order: Seq<usize>) -> bool {
    &&& order.len() == created.len()
    &&& forall|p: int| 0 <= p < order.len() ==> order[p] < created.len()
    &&& forall|p: int, q: int| 0 <= p < q < order.len() ==> newer_first(created, order[p] as int, order[q] as int)
}

/// The order in which the receiver tries fetched PIN exchange events, given
/// their creation times in seconds: newest first, ties in fetch order (a
/// stable sort by descending creation time).
pub fn newest_first_order(created: &[u64]) -> (order: Vec<usize>)
    ensures
        is_newest_first_order(created@, order@),
{
    let mut order: Vec<usize> = Vec::new();
    let mut i: usize = 0;
    while i < created.len()
        invariant
            0 <= i <= created@.len(),
            order@.len() == i,
            forall|p: int| 0 <= p < order@.len() ==> order@[p] < i,
            forall|p: int, q: int| 0 <= p < q < order@.len() ==> newer_first(created@, order@[p] as int, order@[q] as int),
        decreases created@.len() - i,
    {
        let key = created[i];
        let mut pos: usize = 0;
        while pos < order.len() && created[order[pos]] >= key
            invariant
                0 <= pos <= order@.len(),
                order@.len() == i,
                i < created@.len(),
                key == created@[i as int],
                forall|p: int| 0 <= p < order@.len() ==> order@[p] < i,
                forall|p: int| 0 <= p < pos ==> created@[order@[p] as int] >= key,
            decreases order@.len() - pos,
        {
            pos = pos + 1;
        }
        let ghost old_order = order@;
        order.insert(pos, i);
        proof {
            assert forall|p: int, q: int| 0 <= p < q < order@.len() implies newer_first(created@, order@[p] as int, order@[q] as int) by {
                if q < pos {
                    assert(order@[p] == old_order[p] && order@[q] == old_order[q]);
                } else if q == pos {
                    assert(order@[p] == old_order[p]);
                    assert(created@[old_order[p] as int] >= key);
                } else if p == pos {
                    assert(order@[q] == old_order[q - 1]);
                    assert(pos < old_order.len());
                    assert(created@[old_order[pos as int] as int] < key);
                    if q - 1 > pos {
                        assert(newer_first(created@, old_order[pos as int] as int, old_order[q - 1] as int));
                    }
                } else if p < pos {
                    assert(order@[p] == old_order[p] && order@[q] == old_order[q - 1]);
                } else {
                    assert(order@[p] == old_order[p - 1] && order@[q] == old_order[q - 1]);
                }
            }
        }
        i = i + 1;
    }
    order
}

/// A fetched PIN exchange event as the receiver's search sees it.
pub enum ExchangeCandidate {
    /// Created longer ago than a transfer stays valid.
    Expired,
    /// Not a readable PIN exchange event.
    Unreadable,
    /// A readable event: the hint it was found by, the key salt, the
    /// transfer id, the encrypted payload, and its creation time in ms.
    Readable {
        matched_hint: String,
        salt: Vec<u8>,
        transfer_id: String,
        encrypted_payload: Vec<u8>,
        created_at_ms: u64,
    },
}

/// Why the receiver's search found no transfer.
#[derive(Debug, Clone, Copy, PartialEq, Eq, Structural)]
pub enum ExchangeSearchError {
    /// Every event that matched was too old.
    Expired,
    /// No event led to a transfer.
    NotFound,
}

/// What the receiver learned from the PIN exchange events it went
/// through: whether any had expired, and how many it could read.
pub struct ExchangeSearch {
    saw_expired: bool,
    candidates_checked: u64,
}

impl ExchangeSearch {
    /// Whether an expired event was seen.
    pub closed spec fn spec_saw_expired(&self) -> bool {
        self.saw_expired
    }

    /// How many readable events were seen.
    pub closed spec fn spec_candidates_checked(&self) -> nat {
        self.candidates_checked as nat
    }

    /// A search that has seen nothing.
    pub fn new() -> (r: Self)
        ensures
            !r.spec_saw_expired(),
            r.spec_candidates_checked() == 0,
    {
        ExchangeSearch { saw_expired: false, candidates_checked: 0 }
    }

    /// How many readable events were seen.
    pub fn candidates_checked(&self) -> (r: u64)
        ensures
            r == self.spec_candidates_checked(),
    {
        self.candidates_checked
    }

    /// Screens the next event, created `created_at_secs` after the epoch,
    /// at `now_ms`: an expired event is skipped and remembered; an event
    /// that cannot be read is skipped; a readable one is counted and handed
    /// out for decryption.
    pub fn screen(&mut self, event: &EventData, created_at_secs: u64, now_ms: u64) -> (r: ExchangeCandidate)
        requires
            created_at_secs <= u64::MAX / 1000,
            old(self).spec_candidates_checked() < u64::MAX,
        ensures
            spec_expired_at(now_ms, (created_at_secs * 1000) as u64) ==> {
                &&& r is Expired
                &&& final(self).spec_saw_expired()
                &&& final(self).spec_candidates_checked() == old(self).spec_candidates_checked()
            },
            !spec_expired_at(now_ms, (created_at_secs * 1000) as u64) ==> {
                &&& final(self).spec_saw_expired() == old(self).spec_saw_expired()
                &&& match spec_parse_pin_exchange_event(event@) {
                    None => r is Unreadable && final(self).spec_candidates_checked() == old(self).spec_candidates_checked(),
                    Some((h, salt, t, payload)) => {
                        &&& r matches ExchangeCandidate::Readable { matched_hint, salt: s, transfer_id, encrypted_payload, created_at_ms }
                            && matched_hint@ == h && s@ == salt && transfer_id@ == t && encrypted_payload@ == payload
                            && created_at_ms == created_at_secs * 1000
                        &&& final(self).spec_candidates_checked() == old(self).spec_candidates_checked() + 1
                    },
                }
            },
    {
        let created_at_ms = created_at_secs * 1000;
        if is_expired_at(now_ms, created_at_ms) {
            self.saw_expired = true;
            return ExchangeCandidate::Expired;
        }
        match parse_pin_exchange_event(event) {
            None => ExchangeCandidate::Unreadable,
            Some((matched_hint, salt, transfer_id, encrypted_payload)) => {
                self.candidates_checked = self.candidates_checked + 1;
                ExchangeCandidate::Readable { matched_hint, salt, transfer_id, encrypted_payload, created_at_ms }
            },
        }
    }

    /// The error when no event led to a transfer: `Expired` when an
    /// expired event was seen, `NotFound` otherwise.
    pub fn finish(&self) -> (r: ExchangeSearchError)
        ensures
            r == (if self.spec_saw_expired() { ExchangeSearchError::Expired } else { ExchangeSearchError::NotFound }),
    {
        if self.saw_expired {
            ExchangeSearchError::Expired
        } else {
            ExchangeSearchError::NotFound
        }
    }
}

/// Derives the keys of a readable PIN exchange event from the PIN and the
/// event's salt, and opens its metadata with the metadata key: `None` when
/// the salt is too short or the metadata does not open.
pub fn open_exchange_payload(pin: &str, salt: &[u8], encrypted_payload: &[u8]) -> (r: Option<(NostrTransferKeys, Vec<u8>)>)
    ensures
        salt@.len() < SALT_LENGTH ==> r is None,
        salt@.len() >= SALT_LENGTH ==> match spec_open_sealed(
            spec_labeled_key(pin@, salt@, PinKeyLabel::Metadata),
            encrypted_payload@,
            Seq::<u8>::empty(),
        ) {
            None => r is None,
            Some(p) => r matches Some((keys, payload)) && payload@ == p
                && keys.metadata@ == spec_labeled_key(pin@, salt@, PinKeyLabel::Metadata)
                && keys.signals@ == spec_labeled_key(pin@, salt@, PinKeyLabel::Signals)
                && keys.p2p_content@ == spec_labeled_key(pin@, salt@, PinKeyLabel::P2pContent),
        },
{
    let keys = match derive_nostr_transfer_keys(pin, salt) {
        Ok(k) => k,
        Err(_) => {
            return None;
        },
    };
    match decrypt(&keys.metadata, encrypted_payload) {
        Some(payload) => Some((keys, payload)),
        None => None,
    }
}

/// Whether opened metadata belongs to the event it came in: its transfer
/// id is the event's `t` tag.
pub fn payload_matches_transfer(payload: &PinExchangePayload, transfer_id: &str) -> (r: bool)
    ensures
        r == (payload.transfer_id@ == transfer_id@),
{
    str_eq(payload.transfer_id.as_str(), transfer_id)
}

/// Why a file size is refused for a transfer.
#[derive(Debug, Clone, Copy, PartialEq, Eq, Structural)]
pub enum SizeError {
    /// The receiver was offered an empty file.
    Empty,
    /// The file is larger than `limit` bytes.
    TooLarge { size: u64, limit: u64 },
}

/// Checks the size of a file about to be sent: at most `limit` bytes.
pub fn check_outgoing_size(size: u64, limit: u64) -> (r: Result<(), SizeError>)
    ensures
        r is Ok <==> size <= limit,
        r is Err ==> r == Err::<(), SizeError>(SizeError::TooLarge { size, limit }),
{
    if size > limit {
        Err(SizeError::TooLarge { size, limit })
    } else {
        Ok(())
    }
}

/// Checks the size of a file announced by a sender: not empty and at most
/// `limit` bytes.
pub fn check_incoming_size(size: u64, limit: u64) -> (r: Result<(), SizeError>)
    ensures
        r is Ok <==> 0 < size <= limit,
        size == 0 ==> r == Err::<(), SizeError>(SizeError::Empty),
        0 < size && size > limit ==> r == Err::<(), SizeError>(SizeError::TooLarge { size, limit }),
{
    if size == 0 {
        Err(SizeError::Empty)
    } else {
        check_outgoing_size(size, limit)
    }
}

} // verus!
