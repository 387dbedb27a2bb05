//! The decisions behind the terminal prompts and progress line: which way a
//! transfer goes, what the user answered about an existing file, and how a
//! pasted code is gathered from the lines typed.

use vstd::prelude::*;

use crate::text::{str_chars, string_from_chars, trim_end_index, trim_start_index, trim_ws};

verus! {

/// Direction of a transfer, used to label progress.
#[derive(Debug, Clone, Copy, PartialEq, Eq, Structural)]
pub enum Direction {
    Send,
    Receive,
}

/// The user's choice when a destination file already exists.
#[derive(Debug, Clone, Copy, PartialEq, Eq, Structural)]
pub enum FileExistsChoice {
    Overwrite,
    Rename,
    Cancel,
}

/// The verb that labels the progress line of a transfer.
pub fn direction_verb(dir: Direction) -> (r: &'static str)
    ensures
        r@ == (match dir {
            Direction::Send => "Sending"@,
            Direction::Receive => "Receiving"@,
        }),
{
    match dir {
        Direction::Send => "Sending",
        Direction::Receive => "Receiving",
    }
}

/// `c` with an ASCII capital letter turned into its small letter.
pub open spec fn ascii_lower(c: char) -> char {
    if 'A' <= c <= 'Z' {
        ((c as nat) + 32) as char
    } else {
        c
    }
}

/// `s` and `word` are equal once `s` is lowercased. For the words the
/// prompt accepts, all of them ASCII, comparing ASCII letters without case
/// is exact: no other character lowercases to one of their letters.
pub open spec fn equals_ignoring_case(s: Seq<char>, word: Seq<char>) -> bool {
    &&& s.len() == word.len()
    &&& forall|i: int| 0 <= i < s.len() ==> ascii_lower(#[trigger] s[i]) == word[i]
}

/// What an answer to the "file exists" prompt means: `o` or `overwrite`,
/// `r` or `rename` in any case and surrounded by any whitespace; anything
/// else cancels.
pub open spec fn spec_file_exists_choice(input: Seq<char>) -> FileExistsChoice {
    let t = trim_ws(input);
    if equals_ignoring_case(t, "o"@) || equals_ignoring_case(t, "overwrite"@) {
        FileExistsChoice::Overwrite
    } else if equals_ignoring_case(t, "r"@) || equals_ignoring_case(t, "rename"@) {
        FileExistsChoice::Rename
    } else {
        FileExistsChoice::Cancel
    }
}

/// Whether `s[from..to]` equals the ASCII word `word` once lowercased.
fn range_equals_ignoring_case(s: &[char], from: usize, to: usize, word: &str) -> (r: bool)
    requires
        from <= to <= s@.len(),
    ensures
        r == equals_ignoring_case(s@.subrange(from as int, to as int), word@),
{
    let w = str_chars(word);
    if to - from != w.len() {
        return false;
    }
    let mut i: usize = 0;
    while i < w.len()
        invariant
            from <= to <= s@.len(),
            to - from == w@.len(),
            w@ == word@,
            0 <= i <= w@.len(),
            forall|k: int| 0 <= k < i ==> ascii_lower(#[trigger] s@.subrange(from as int, to as int)[k]) == w@[k],
        decreases w@.len() - i,
    {
        let c = s[from + i];
        let lower = if 'A' <= c && c <= 'Z' {
            let code: u8 = (c as u32 + 32) as u8;
            code as char
        } else {
            c
        };
        assert(s@.subrange(from as int, to as int)[i as int] == c);
        if lower != w[i] {
            return false;
        }
        i = i + 1;
    }
    true
}

/// Reads the answer to the "file exists" prompt.
pub fn parse_file_exists_choice(input: &str) -> (r: FileExistsChoice)
    ensures
        r == spec_file_exists_choice(input@),
{
    let s = str_chars(input);
    let n = s.len();
    let a = trim_start_index(s.as_slice(), 0, n, false);
    let b = trim_end_index(s.as_slice(), a, n, false);
    assert(s@.subrange(0, n as int) =~= input@);
    assert(trim_ws(input@) == s@.subrange(a as int, b as int));
    if range_equals_ignoring_case(s.as_slice(), a, b, "o") || range_equals_ignoring_case(s.as_slice(), a, b, "overwrite") {
        FileExistsChoice::Overwrite
    } else if range_equals_ignoring_case(s.as_slice(), a, b, "r") || range_equals_ignoring_case(s.as_slice(), a, b, "rename") {
        FileExistsChoice::Rename
    } else {
        FileExistsChoice::Cancel
    }
}

/// Why no code was read from the lines typed.
#[derive(Debug, Clone, Copy, PartialEq, Eq, Structural)]
pub enum CodeInputError {
    /// Only blank lines, or none at all.
    NoCodeEntered,
}

/// Gathers a code pasted over one or more lines: each line is trimmed and
/// appended; blank lines before the code are skipped, and the first blank
/// line after it ends the input.
pub struct CodeCollector {
    collected: Vec<char>,
    complete: bool,
}

/// The range `[a, b)` of `s` that trimming whitespace leaves.
fn trimmed_range(s: &[char]) -> (r: (usize, usize))
    ensures
        r.0 <= r.1 <= s@.len(),
        trim_ws(s@) == s@.subrange(r.0 as int, r.1 as int),
{
    let n = s.len();
    let a = trim_start_index(s, 0, n, false);
    let b = trim_end_index(s, a, n, false);
    assert(s@.subrange(0, n as int) =~= s@);
    (a, b)
}

impl CodeCollector {
    /// The characters gathered so far.
    pub closed spec fn spec_collected(&self) -> Seq<char> {
        self.collected@
    }

    /// Whether a blank line has ended the input.
    pub closed spec fn spec_complete(&self) -> bool {
        self.complete
    }

    /// Nothing gathered yet.
    pub fn new() -> (r: Self)
        ensures
            r.spec_collected() == Seq::<char>::empty(),
            !r.spec_complete(),
    {
        CodeCollector { collected: Vec::new(), complete: false }
    }

    /// Takes the next line typed; `true` means the input is complete and no
    /// more lines should be read.
    pub fn on_line(&mut self, line: &str) -> (r: bool)
        requires
            !old(self).spec_complete(),
        ensures
            r == final(self).spec_complete(),
            trim_ws(line@).len() == 0 && trim_ws(old(self).spec_collected()).len() == 0 ==> {
                &&& !r
                &&& final(self).spec_collected() == old(self).spec_collected()
            },
            trim_ws(line@).len() == 0 && trim_ws(old(self).spec_collected()).len() > 0 ==> {
                &&& r
                &&& final(self).spec_collected() == old(self).spec_collected()
            },
            trim_ws(line@).len() > 0 ==> {
                &&& !r
                &&& final(self).spec_collected() == old(self).spec_collected() + trim_ws(line@)
            },
    {
        let chars = str_chars(line);
        let (a, b) = trimmed_range(chars.as_slice());
        if a == b {
            let (c, d) = trimmed_range(self.collected.as_slice());
            if c == d {
                return false;
            }
            self.complete = true;
            return true;
        }
        let ghost before = self.collected@;
        let mut i = a;
        while i < b
            invariant
                a <= i <= b <= chars@.len(),
                self.collected@ == before + chars@.subrange(a as int, i as int),
                !self.complete,
            decreases b - i,
        {
            self.collected.push(chars[i]);
            i = i + 1;
            assert(self.collected@ =~= before + chars@.subrange(a as int, i as int));
        }
        false
    }

    /// The code gathered, or `NoCodeEntered` when it is blank.
    pub fn finish(&self) -> (r: Result<String, CodeInputError>)
        ensures
            r is Ok <==> trim_ws(self.spec_collected()).len() > 0,
            r matches Ok(code) ==> code@ == self.spec_collected(),
            r is Err ==> r == Err::<String, CodeInputError>(CodeInputError::NoCodeEntered),
    {
        let (c, d) = trimmed_range(self.collected.as_slice());
        if c == d {
            return Err(CodeInputError::NoCodeEntered);
        }
        Ok(string_from_chars(self.collected.as_slice()))
    }
}

} // verus!
