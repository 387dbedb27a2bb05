//! Small shared helpers: byte formatting, interrupt detection,
//! destination-filename sanitizing, and choosing where a received file goes.

use vstd::prelude::*;

use vstd::arithmetic::div_mod::lemma_div_denominator;

use crate::ui::FileExistsChoice;
use crate::text::{
    decimal, digit_char, lemma_decimal_roundtrip, digit_to_char, lemma_trim_start, push_decimal, str_chars,
    str_eq, string_from_chars, trim_end_by, trim_end_index, trim_pred, trim_start_by, trim_start_index,
    trim_ws,
};

verus! {

/// The largest integer below which every integer is an exact `f64`.
pub open spec fn f64_exact_limit() -> nat {
    0x20_0000_0000_0000
}

/// The power of two by which an integer is divided to keep 53 significant
/// bits.
pub open spec fn f64_spacing(b: nat) -> nat
    decreases b,
{
    if b < f64_exact_limit() {
        1
    } else {
        2 * f64_spacing(b / 2)
    }
}

/// `num / den` rounded to the nearest integer, ties to even.
pub open spec fn round_half_even(num: nat, den: nat) -> nat {
    let q = num / den;
    let r = num % den;
    if 2 * r > den || (2 * r == den && q % 2 == 1) {
        q + 1
    } else {
        q
    }
}

/// The value of the `f64` nearest to `b`, ties to even: what `b as f64`
/// holds.
pub open spec fn f64_of(b: nat) -> nat {
    f64_spacing(b) * round_half_even(b, f64_spacing(b))
}

/// The unit index of a byte count's `f64` value: 0 for B, 1 for KB and so on
/// up to 4 for TB, the largest unit the value reaches.
pub open spec fn unit_of(v: nat) -> nat {
    if v < 0x400 {
        0
    } else if v < 0x10_0000 {
        1
    } else if v < 0x4000_0000 {
        2
    } else if v < 0x100_0000_0000 {
        3
    } else {
        4
    }
}

/// The size of unit `u` in bytes.
pub open spec fn unit_size(u: nat) -> nat {
    if u == 0 {
        1
    } else if u == 1 {
        0x400
    } else if u == 2 {
        0x10_0000
    } else if u == 3 {
        0x4000_0000
    } else {
        0x100_0000_0000
    }
}

/// The name of unit `u`.
pub open spec fn unit_name(u: nat) -> Seq<char> {
    if u == 0 {
        "B"@
    } else if u == 1 {
        "KB"@
    } else if u == 2 {
        "MB"@
    } else if u == 3 {
        "GB"@
    } else {
        "TB"@
    }
}

/// A byte count for people: below 1024 the exact count and `B`; otherwise
/// the count in the largest unit it reaches (KB, MB, GB, TB, by powers of
/// 1024) with one decimal, rounded half to even, as `{:.1}` prints the `f64`
/// quotient.
pub open spec fn spec_format_bytes(bytes: nat) -> Seq<char> {
    let v = f64_of(bytes);
    let u = unit_of(v);
    if u == 0 {
        decimal(bytes) + " "@ + unit_name(0)
    } else {
        let tenths = round_half_even(v * 10, unit_size(u));
        decimal(tenths / 10) + "."@ + seq![digit_char(tenths % 10)] + " "@ + unit_name(u)
    }
}

fn round_half_even_exec(num: u128, den: u128) -> (r: u128)
    requires
        den > 0,
        den <= 0x1_0000_0000_0000_0000,
        num < 0x1_0000_0000_0000_0000_0000_0000_0000,
    ensures
        r == round_half_even(num as nat, den as nat),
{
    let q = num / den;
    let r = num % den;
    if 2 * r > den || (2 * r == den && q % 2 == 1) {
        assert(q + 1 <= u128::MAX) by (nonlinear_arith)
            requires q == num / den, den > 0, num < 0x1_0000_0000_0000_0000_0000_0000_0000;
        q + 1
    } else {
        q
    }
}

/// The value `b as f64` holds.
fn f64_value(b: u64) -> (r: u128)
    ensures
        r == f64_of(b as nat),
        r <= 0x1_0000_0000_0000_1000,
{
    let mut q: u128 = b as u128;
    let mut den: u128 = 1;
    while q >= 0x20_0000_0000_0000
        invariant
            0 < den <= 0x1_0000_0000_0000_0000,
            q == (b as nat) / (den as nat),
            f64_spacing(b as nat) == den * f64_spacing(q as nat),
            den * f64_exact_limit() <= 2 * (b as nat) || den == 1,
        decreases q,
    {
        proof {
            lemma_div_denominator(b as int, den as int, 2);
            assert(den * 2 * f64_exact_limit() <= 2 * (b as nat)) by (nonlinear_arith)
                requires q == (b as nat) / (den as nat), q >= f64_exact_limit(), den > 0;
            assert(den * 2 <= 0x1_0000_0000_0000_0000) by (nonlinear_arith)
                requires den * 2 * f64_exact_limit() <= 2 * (b as nat), b <= u64::MAX;
            assert(den * f64_spacing(q as nat) == (den * 2) * f64_spacing((q / 2) as nat)) by (nonlinear_arith)
                requires f64_spacing(q as nat) == 2 * f64_spacing((q / 2) as nat);
        }
        q = q / 2;
        den = den * 2;
    }
    assert(f64_spacing(q as nat) == 1);
    assert(den * f64_spacing(q as nat) == den) by (nonlinear_arith)
        requires f64_spacing(q as nat) == 1;
    assert(f64_spacing(b as nat) == den);
    let m = round_half_even_exec(b as u128, den);
    assert(den <= 0x1000) by (nonlinear_arith)
        requires
            (den == 1) || den * f64_exact_limit() <= 2 * (b as nat),
            b <= u64::MAX,
    ;
    assert(den * m <= 0x1_0000_0000_0000_1000) by (nonlinear_arith)
        requires
            m <= (b as nat) / (den as nat) + 1,
            den <= 0x1000,
            den > 0,
            b <= u64::MAX,
    ;
    den * m
}

/// Formats a byte count as a human-readable string, e.g. `512 B` or `1.5 KB`.
pub fn format_bytes(bytes: u64) -> (r: String)
    ensures
        r@ == spec_format_bytes(bytes as nat),
{
    let v = f64_value(bytes);
    let mut out: Vec<char> = Vec::new();
    if v < 0x400 {
        push_decimal(bytes, &mut out);
        out.push(' ');
        out.push('B');
        proof {
            reveal_strlit(" ");
            reveal_strlit("B");
        }
        assert(out@ =~= spec_format_bytes(bytes as nat));
        return string_from_chars(out.as_slice());
    }
    let (size, u): (u128, u64) = if v < 0x10_0000 {
        (0x400, 1)
    } else if v < 0x4000_0000 {
        (0x10_0000, 2)
    } else if v < 0x100_0000_0000 {
        (0x4000_0000, 3)
    } else {
        (0x100_0000_0000, 4)
    };
    let tenths = round_half_even_exec(v * 10, size);
    assert(tenths <= 0x1_0000_0000_0000_0000) by (nonlinear_arith)
        requires tenths <= (v * 10) as int / (size as int) + 1, size >= 0x400, v <= 0x1_0000_0000_0000_1000;
    assert(size == unit_size(unit_of(v as nat)));
    assert(u == unit_of(v as nat));
    push_decimal((tenths / 10) as u64, &mut out);
    out.push('.');
    out.push(digit_to_char((tenths % 10) as u64));
    out.push(' ');
    if u == 1 {
        out.push('K');
    } else if u == 2 {
        out.push('M');
    } else if u == 3 {
        out.push('G');
    } else {
        out.push('T');
    }
    out.push('B');
    proof {
        reveal_strlit(" ");
        reveal_strlit(".");
        reveal_strlit("KB");
        reveal_strlit("MB");
        reveal_strlit("GB");
        reveal_strlit("TB");
    }
    assert(tenths / 10 < 0x1_0000_0000_0000_0000);
    assert(unit_name(u as nat) =~= seq![out@[out@.len() - 2], 'B']);
    assert(out@ =~= spec_format_bytes(bytes as nat));
    string_from_chars(out.as_slice())
}

/// Whether `c` separates path components (`/` on Unix, `\\` on Windows).
pub open spec fn is_path_separator(c: char) -> bool {
    c == '/' || c == '\\'
}

/// The part of `s` after its last path separator; all of `s` when it has
/// none.
pub open spec fn last_segment(s: Seq<char>) -> Seq<char>
    decreases s.len(),
{
    if s.len() == 0 {
        s
    } else if is_path_separator(s.last()) {
        Seq::empty()
    } else {
        last_segment(s.drop_last()).push(s.last())
    }
}

/// The last path component of `name`, trimmed of whitespace and then of
/// dots at both ends.
pub open spec fn sanitized_base(name: Seq<char>) -> Seq<char> {
    trim_end_by(trim_start_by(trim_ws(last_segment(name)), trim_pred(true)), trim_pred(true))
}

/// The name a received file is stored under: `sanitized_base(name)`, or
/// `received.bin` when that is empty, `.` or `..`.
pub open spec fn spec_sanitize_filename(name: Seq<char>) -> Seq<char> {
    let base = sanitized_base(name);
    if base.len() == 0 || base == "."@ || base == ".."@ {
        "received.bin"@
    } else {
        base
    }
}

/// A bare file name: not empty, free of path separators, and neither `.`
/// nor `..`, so that joined to a directory it names an entry of that
/// directory.
pub open spec fn is_safe_basename(s: Seq<char>) -> bool {
    &&& s.len() > 0
    &&& forall|i: int| 0 <= i < s.len() ==> !is_path_separator(#[trigger] s[i])
    &&& s != "."@
    &&& s != ".."@
}

/// The last segment of a path holds no separator.
proof fn lemma_last_segment_has_no_separator(s: Seq<char>)
    ensures
        forall|i: int| 0 <= i < last_segment(s).len() ==> !is_path_separator(#[trigger] last_segment(s)[i]),
    decreases s.len(),
{
    if s.len() > 0 && !is_path_separator(s.last()) {
        lemma_last_segment_has_no_separator(s.drop_last());
        let t = last_segment(s.drop_last());
        assert forall|i: int| 0 <= i < t.push(s.last()).len() implies !is_path_separator(#[trigger] t.push(s.last())[i]) by {
            if i < t.len() {
                assert(t.push(s.last())[i] == t[i]);
            }
        }
    }
}

/// Where the last segment of `s` starts.
fn last_segment_start(s: &[char]) -> (r: usize)
    ensures
        r <= s@.len(),
        s@.subrange(r as int, s@.len() as int) == last_segment(s@),
{
    let n = s.len();
    let mut j = n;
    assert(s@.take(n as int) =~= s@);
    assert(s@.subrange(n as int, n as int) =~= Seq::<char>::empty());
    while j > 0
        invariant
            j <= n == s@.len(),
            last_segment(s@) == last_segment(s@.take(j as int)) + s@.subrange(j as int, n as int),
        decreases j,
    {
        let c = s[j - 1];
        let ghost head = s@.take(j as int);
        assert(head.last() == c);
        if c == '/' || c == '\\' {
            assert(last_segment(head) =~= Seq::<char>::empty());
            assert(last_segment(s@) =~= s@.subrange(j as int, n as int));
            return j;
        }
        assert(head.drop_last() =~= s@.take(j - 1));
        assert(last_segment(head) == last_segment(s@.take(j - 1)).push(c));
        assert(last_segment(s@.take(j - 1)).push(c) + s@.subrange(j as int, n as int)
            =~= last_segment(s@.take(j - 1)) + s@.subrange(j - 1, n as int));
        j = j - 1;
    }
    assert(s@.take(0) =~= Seq::<char>::empty());
    assert(last_segment(s@) =~= s@.subrange(0, n as int));
    0
}

/// Reduces an untrusted, peer-supplied file name to a bare name: the part
/// after the last `/` or `\\`, trimmed of whitespace and then of dots, or
/// `received.bin` when nothing is left.
pub fn sanitize_filename(name: &str) -> (r: String)
    ensures
        r@ == spec_sanitize_filename(name@),
        is_safe_basename(r@),
{
    let s = str_chars(name);
    let n = s.len();
    let start = last_segment_start(s.as_slice());
    let a = trim_start_index(s.as_slice(), start, n, false);
    let b = trim_end_index(s.as_slice(), a, n, false);
    let c = trim_start_index(s.as_slice(), a, b, true);
    let d = trim_end_index(s.as_slice(), c, b, true);
    proof {
        assert(trim_ws(last_segment(name@)) == s@.subrange(a as int, b as int));
        assert(sanitized_base(name@) == s@.subrange(c as int, d as int));
        reveal_strlit(".");
        reveal_strlit("..");
        reveal_strlit("received.bin");
    }
    let empty = d == c;
    let one_dot = d - c == 1 && s[c] == '.';
    let two_dots = d - c == 2 && s[c] == '.' && s[c + 1] == '.';
    if empty || one_dot || two_dots {
        proof {
            if one_dot {
                assert(s@.subrange(c as int, d as int) =~= "."@);
            }
            if two_dots {
                assert(s@.subrange(c as int, d as int) =~= ".."@);
            }
        }
        let fallback = "received.bin";
        let r = String::from_str(fallback);
        return r;
    }
    let base = string_from_chars(&s.as_slice()[c..d]);
    proof {
        let seg = s@.subrange(start as int, n as int);
        lemma_last_segment_has_no_separator(name@);
        assert forall|i: int| 0 <= i < base@.len() implies !is_path_separator(#[trigger] base@[i]) by {
            assert(base@[i] == seg[c - start + i]);
        }
        lemma_trim_start(s@.subrange(a as int, b as int), trim_pred(true));
        assert(s@.subrange(c as int, b as int)[0] == s@[c as int]);
        assert(base@[0] == s@[c as int]);
        assert(base@ != "."@);
        assert(base@ != ".."@);
    }
    base
}

/// Whether an error message is the one a user interrupt (Ctrl+C) or a
/// cancelled prompt leaves.
pub open spec fn is_interrupt_message(m: Seq<char>) -> bool {
    m == "Interrupted"@ || m == "Cancelled"@
}

/// Whether an error came from a user interrupt, given the messages of the
/// error and of each of its causes, so the process can exit with the
/// conventional code 130.
pub fn is_interrupted(messages: &[String]) -> (r: bool)
    ensures
        r == exists|i: int| 0 <= i < messages@.len() && is_interrupt_message(#[trigger] messages@[i]@),
{
    let mut i: usize = 0;
    while i < messages.len()
        invariant
            0 <= i <= messages@.len(),
            forall|k: int| 0 <= k < i ==> !is_interrupt_message(#[trigger] messages@[k]@),
        decreases messages@.len() - i,
    {
        let m = messages[i].as_str();
        if str_eq(m, "Interrupted") || str_eq(m, "Cancelled") {
            assert(is_interrupt_message(messages@[i as int]@));
            return true;
        }
        i = i + 1;
    }
    false
}

/// The position of the last `c` in `s`, or -1 when there is none.
pub open spec fn last_index_of(s: Seq<char>, c: char) -> int
    decreases s.len(),
{
    if s.len() == 0 {
        -1
    } else if s.last() == c {
        s.len() - 1
    } else {
        last_index_of(s.drop_last(), c)
    }
}

/// The `n`-th alternative to an existing `name`: `stem (n).ext`, where the
/// extension runs from the last dot when something precedes that dot, and
/// `name (n)` when there is no such extension.
pub open spec fn spec_numbered_name(name: Seq<char>, n: nat) -> Seq<char> {
    let k = last_index_of(name, '.');
    let tag = " ("@ + decimal(n) + ")"@;
    if k > 0 {
        name.take(k) + tag + name.skip(k)
    } else {
        name + tag
    }
}

proof fn lemma_last_index_of(s: Seq<char>, c: char)
    ensures
        -1 <= last_index_of(s, c) < s.len(),
        last_index_of(s, c) >= 0 ==> s[last_index_of(s, c)] == c,
        forall|i: int| last_index_of(s, c) < i < s.len() ==> s[i] != c,
    decreases s.len(),
{
    if s.len() > 0 && s.last() != c {
        lemma_last_index_of(s.drop_last(), c);
        assert forall|i: int| last_index_of(s, c) < i < s.len() implies s[i] != c by {
            if i < s.len() - 1 {
                assert(s[i] == s.drop_last()[i]);
            }
        }
    }
}

/// The `n`-th alternative name tried when the user asks to rename instead
/// of overwriting `name`.
pub fn numbered_name(name: &str, n: u64) -> (r: String)
    ensures
        r@ == spec_numbered_name(name@, n as nat),
{
    let s = str_chars(name);
    let len = s.len();
    let mut k: usize = len;
    assert(s@.take(len as int) =~= s@);
    while k > 0 && s[k - 1] != '.'
        invariant
            k <= len == s@.len(),
            last_index_of(s@, '.') == last_index_of(s@.take(k as int), '.'),
        decreases k,
    {
        assert(s@.take(k as int).drop_last() =~= s@.take(k - 1));
        k = k - 1;
    }
    let mut out: Vec<char> = Vec::new();
    let has_ext = k > 1;
    let stem_end = if has_ext { k - 1 } else { len };
    let mut i: usize = 0;
    while i < stem_end
        invariant
            stem_end <= len == s@.len(),
            i <= stem_end,
            out@ == s@.take(i as int),
        decreases stem_end - i,
    {
        out.push(s[i]);
        i = i + 1;
        assert(out@ =~= s@.take(i as int));
    }
    out.push(' ');
    out.push('(');
    push_decimal(n, &mut out);
    out.push(')');
    let ghost with_tag = out@;
    let mut j: usize = stem_end;
    while j < len
        invariant
            stem_end <= j <= len == s@.len(),
            out@ == with_tag + s@.subrange(stem_end as int, j as int),
        decreases len - j,
    {
        out.push(s[j]);
        j = j + 1;
        assert(out@ =~= with_tag + s@.subrange(stem_end as int, j as int));
    }
    proof {
        reveal_strlit(" (");
        reveal_strlit(")");
        let k0 = last_index_of(s@, '.');
        if has_ext {
            assert(s@.take(k as int).last() == '.');
            assert(k0 == k - 1);
            assert(s@.subrange(stem_end as int, len as int) =~= s@.skip(k0));
        } else {
            if k == 1 {
                assert(s@.take(1).last() == '.');
                assert(k0 == 0);
            } else {
                assert(s@.take(0) =~= Seq::<char>::empty());
                assert(k0 == -1);
            }
            assert(s@.subrange(len as int, len as int) =~= Seq::<char>::empty());
            assert(s@.take(len as int) =~= s@);
        }
        assert(out@ =~= spec_numbered_name(name@, n as nat));
    }
    string_from_chars(out.as_slice())
}

/// The alternatives to a bare name are bare names too.
proof fn lemma_numbered_name_safe(name: Seq<char>, n: nat)
    requires
        is_safe_basename(name),
    ensures
        is_safe_basename(spec_numbered_name(name, n)),
{
    reveal_strlit(" (");
    reveal_strlit(")");
    reveal_strlit(".");
    reveal_strlit("..");
    lemma_decimal_roundtrip(n);
    lemma_last_index_of(name, '.');
    let k = last_index_of(name, '.');
    let tag = " ("@ + decimal(n) + ")"@;
    assert forall|i: int| 0 <= i < tag.len() implies !is_path_separator(#[trigger] tag[i]) by {
        if 2 <= i < tag.len() - 1 {
            assert(tag[i] == decimal(n)[i - 2]);
        }
    }
    let r = spec_numbered_name(name, n);
    if k > 0 {
        assert forall|i: int| 0 <= i < r.len() implies !is_path_separator(#[trigger] r[i]) by {
            if i < k {
                assert(r[i] == name[i]);
            } else if i < k + tag.len() {
                assert(r[i] == tag[i - k]);
            } else {
                assert(r[i] == name[i - tag.len()]);
            }
        }
    } else {
        assert forall|i: int| 0 <= i < r.len() implies !is_path_separator(#[trigger] r[i]) by {
            if i < name.len() {
                assert(r[i] == name[i]);
            } else {
                assert(r[i] == tag[i - name.len()]);
            }
        }
    }
    assert(r.len() >= 4);
}

/// Where the choice of a destination name stands.
#[derive(Debug, Clone, Copy, PartialEq, Eq, Structural)]
pub enum DestinationPhase {
    /// Waiting to hear whether the sanitized name is taken.
    Checking,
    /// Waiting for the user's answer about the existing file.
    Asking,
    /// Waiting to hear whether the `n`-th numbered name is taken.
    Renaming(u64),
    /// A name was chosen, or the user cancelled.
    Finished,
}

/// What the caller does next while a destination is chosen. Every name is
/// a bare file name inside the output directory.
pub enum DestinationAction {
    /// Report whether this name already exists.
    CheckExists(String),
    /// Ask the user what to do about this existing name.
    AskUser(String),
    /// Write the file under this name.
    Use(String),
    /// The user cancelled: write nothing.
    Cancel,
}

/// A `DestinationAction` with its names as character sequences.
pub enum DestinationStep {
    CheckExists(Seq<char>),
    AskUser(Seq<char>),
    Use(Seq<char>),
    Cancel,
}

impl View for DestinationAction {
    type V = DestinationStep;

    open spec fn view(&self) -> DestinationStep {
        match self {
            DestinationAction::CheckExists(n) => DestinationStep::CheckExists(n@),
            DestinationAction::AskUser(n) => DestinationStep::AskUser(n@),
            DestinationAction::Use(n) => DestinationStep::Use(n@),
            DestinationAction::Cancel => DestinationStep::Cancel,
        }
    }
}

/// Whether every name a step carries is a bare file name.
pub open spec fn step_names_are_safe(step: DestinationStep) -> bool {
    match step {
        DestinationStep::CheckExists(n) => is_safe_basename(n),
        DestinationStep::AskUser(n) => is_safe_basename(n),
        DestinationStep::Use(n) => is_safe_basename(n),
        DestinationStep::Cancel => true,
    }
}

/// Chooses the name a received file is written under: the sanitized name
/// when it is free, else what the user decides (overwrite it, take the first
/// free numbered alternative, or cancel).
pub struct DestinationResolver {
    name: String,
    phase: DestinationPhase,
}

/// What a `DestinationResolver` holds: the sanitized name and the phase.
pub struct DestinationView {
    pub name: Seq<char>,
    pub phase: DestinationPhase,
}

impl View for DestinationResolver {
    type V = DestinationView;

    closed spec fn view(&self) -> DestinationView {
        DestinationView { name: self.name@, phase: self.phase }
    }
}

/// Starts choosing where a received file called `file_name` goes: the first
/// step is to check whether its sanitized name is taken.
pub fn resolve_destination(file_name: &str) -> (r: (DestinationResolver, DestinationAction))
    ensures
        r.0.wf(),
        r.0@.name == spec_sanitize_filename(file_name@),
        r.0@.phase == DestinationPhase::Checking,
        r.1@ == DestinationStep::CheckExists(r.0@.name),
        step_names_are_safe(r.1@),
{
    let name = sanitize_filename(file_name);
    let check = DestinationAction::CheckExists(name.clone());
    (DestinationResolver { name, phase: DestinationPhase::Checking }, check)
}

impl DestinationResolver {
    /// The sanitized name is a bare file name.
    pub closed spec fn wf(&self) -> bool {
        is_safe_basename(self.name@)
    }

    /// The phase the choice is in.
    pub fn phase(&self) -> (r: DestinationPhase)
        ensures
            r == self@.phase,
    {
        self.phase
    }

    /// Takes the answer to the last `CheckExists`.
    pub fn on_exists(&mut self, exists: bool) -> (r: DestinationAction)
        requires
            old(self).wf(),
            old(self)@.phase == DestinationPhase::Checking
                || (old(self)@.phase matches DestinationPhase::Renaming(n) && (exists ==> n < u64::MAX)),
        ensures
            final(self).wf(),
            final(self)@.name == old(self)@.name,
            step_names_are_safe(r@),
            old(self)@.phase == DestinationPhase::Checking ==> (if exists {
                &&& final(self)@.phase == DestinationPhase::Asking
                &&& r@ == DestinationStep::AskUser(old(self)@.name)
            } else {
                &&& final(self)@.phase == DestinationPhase::Finished
                &&& r@ == DestinationStep::Use(old(self)@.name)
            }),
            old(self)@.phase matches DestinationPhase::Renaming(n) ==> (if exists {
                &&& final(self)@.phase == DestinationPhase::Renaming((n + 1) as u64)
                &&& r@ == DestinationStep::CheckExists(spec_numbered_name(old(self)@.name, (n + 1) as nat))
            } else {
                &&& final(self)@.phase == DestinationPhase::Finished
                &&& r@ == DestinationStep::Use(spec_numbered_name(old(self)@.name, n as nat))
            }),
    {
        match self.phase {
            DestinationPhase::Renaming(n) => {
                if exists {
                    self.phase = DestinationPhase::Renaming(n + 1);
                    let candidate = numbered_name(self.name.as_str(), n + 1);
                    proof {
                        lemma_numbered_name_safe(self.name@, (n + 1) as nat);
                    }
                    DestinationAction::CheckExists(candidate)
                } else {
                    self.phase = DestinationPhase::Finished;
                    let candidate = numbered_name(self.name.as_str(), n);
                    proof {
                        lemma_numbered_name_safe(self.name@, n as nat);
                    }
                    DestinationAction::Use(candidate)
                }
            },
            _ => {
                if exists {
                    self.phase = DestinationPhase::Asking;
                    DestinationAction::AskUser(self.name.clone())
                } else {
                    self.phase = DestinationPhase::Finished;
                    DestinationAction::Use(self.name.clone())
                }
            },
        }
    }

    /// Takes the user's answer about the existing file.
    pub fn on_choice(&mut self, choice: FileExistsChoice) -> (r: DestinationAction)
        requires
            old(self).wf(),
            old(self)@.phase == DestinationPhase::Asking,
        ensures
            final(self).wf(),
            final(self)@.name == old(self)@.name,
            step_names_are_safe(r@),
            choice == FileExistsChoice::Overwrite ==> {
                &&& final(self)@.phase == DestinationPhase::Finished
                &&& r@ == DestinationStep::Use(old(self)@.name)
            },
            choice == FileExistsChoice::Rename ==> {
                &&& final(self)@.phase == DestinationPhase::Renaming(1)
                &&& r@ == DestinationStep::CheckExists(spec_numbered_name(old(self)@.name, 1))
            },
            choice == FileExistsChoice::Cancel ==> {
                &&& final(self)@.phase == DestinationPhase::Finished
                &&& r@ == DestinationStep::Cancel
            },
    {
        match choice {
            FileExistsChoice::Overwrite => {
                self.phase = DestinationPhase::Finished;
                DestinationAction::Use(self.name.clone())
            },
            FileExistsChoice::Rename => {
                self.phase = DestinationPhase::Renaming(1);
                proof {
                    lemma_numbered_name_safe(self.name@, 1);
                }
                DestinationAction::CheckExists(numbered_name(self.name.as_str(), 1))
            },
            FileExistsChoice::Cancel => {
                self.phase = DestinationPhase::Finished;
                DestinationAction::Cancel
            },
        }
    }
}

} // verus!
