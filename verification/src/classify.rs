//! Classes of source bytes, and maximal runs of one class.

use vstd::prelude::*;

verus! {

/// The line feed, which ends a line.
pub const NEWLINE: u8 = 0x0A;

/// The double quote, which opens and closes a string literal.
pub const QUOTE: u8 = 0x22;

/// The single quote, which opens and closes a character literal.
pub const APOSTROPHE: u8 = 0x27;

/// The backslash, which starts an escape sequence.
pub const BACKSLASH: u8 = 0x5C;

/// An ASCII letter.
pub open spec fn spec_is_letter(b: u8) -> bool {
    ('a' as u8) <= b <= ('z' as u8) || ('A' as u8) <= b <= ('Z' as u8)
}

/// An ASCII decimal digit.
pub open spec fn spec_is_digit(b: u8) -> bool {
    ('0' as u8) <= b <= ('9' as u8)
}

/// A byte that may start a word: a letter or an underscore.
pub open spec fn spec_is_word_start(b: u8) -> bool {
    spec_is_letter(b) || b == '_' as u8
}

/// ASCII whitespace: space, tab, line feed, form feed, carriage return.
pub open spec fn spec_is_whitespace(b: u8) -> bool {
    b == ' ' as u8 || b == '\t' as u8 || b == NEWLINE || b == 0x0C || b == '\r' as u8
}

/// Whether `b` is an ASCII letter.
#[verifier::when_used_as_spec(spec_is_letter)]
pub fn is_letter(b: u8) -> (r: bool)
    ensures
        r == spec_is_letter(b),
{
    ('a' as u8 <= b && b <= 'z' as u8) || ('A' as u8 <= b && b <= 'Z' as u8)
}

/// Whether `b` is an ASCII decimal digit.
#[verifier::when_used_as_spec(spec_is_digit)]
pub fn is_digit(b: u8) -> (r: bool)
    ensures
        r == spec_is_digit(b),
{
    '0' as u8 <= b && b <= '9' as u8
}

/// Whether `b` may start a word.
#[verifier::when_used_as_spec(spec_is_word_start)]
pub fn is_word_start(b: u8) -> (r: bool)
    ensures
        r == spec_is_word_start(b),
{
    is_letter(b) || b == '_' as u8
}

/// Whether `b` is ASCII whitespace.
#[verifier::when_used_as_spec(spec_is_whitespace)]
pub fn is_whitespace(b: u8) -> (r: bool)
    ensures
        r == spec_is_whitespace(b),
{
    b == ' ' as u8 || b == '\t' as u8 || b == NEWLINE || b == 0x0C || b == '\r' as u8
}

/// The classes of bytes of which the lexer consumes maximal runs.
#[derive(Clone, Copy, Debug, PartialEq, Eq)]
pub enum ByteClass {
    /// Letters, digits and the underscore: the bytes of a word.
    Word,
    /// Digits and the bytes `.`, `e`, `E` and `-`: the bytes of a number.
    Number,
    /// Decimal digits.
    Digit,
}

impl ByteClass {
    /// Whether `b` belongs to the class.
    pub open spec fn spec_contains(self, b: u8) -> bool {
        match self {
            ByteClass::Word => is_word_start(b) || is_digit(b),
            ByteClass::Number => is_digit(b) || b == '.' as u8 || b == 'e' as u8 || b == 'E' as u8
                || b == '-' as u8,
            ByteClass::Digit => is_digit(b),
        }
    }

    /// Whether `b` belongs to the class.
    #[verifier::when_used_as_spec(spec_contains)]
    pub fn contains(self, b: u8) -> (r: bool)
        ensures
            r == self.spec_contains(b),
    {
        match self {
            ByteClass::Word => is_word_start(b) || is_digit(b),
            ByteClass::Number => is_digit(b) || b == '.' as u8 || b == 'e' as u8 || b == 'E' as u8
                || b == '-' as u8,
            ByteClass::Digit => is_digit(b),
        }
    }
}

/// The byte of `src` at offset `i`, if there is one.
pub open spec fn byte_at(src: Seq<u8>, i: int) -> Option<u8> {
    if 0 <= i < src.len() {
        Some(src[i])
    } else {
        None
    }
}

/// Whether every byte of `src` from offset `from` up to offset `to` is
/// whitespace.
pub open spec fn whitespace_between(src: Seq<u8>, from: int, to: int) -> bool {
    forall|k: int| from <= k < to ==> is_whitespace(#[trigger] src[k])
}

/// The end of the longest run of bytes of `class` that starts at `start`:
/// the first offset from `start` on whose byte is missing or outside the class.
pub open spec fn run_end(src: Seq<u8>, start: int, class: ByteClass) -> int
    decreases src.len() - start,
{
    if 0 <= start < src.len() && class.contains(src[start]) {
        run_end(src, start + 1, class)
    } else {
        start
    }
}

/// A run ends at or after its start and inside the buffer, holds only bytes
/// of its class, and cannot be extended.
pub proof fn lemma_run_end(src: Seq<u8>, start: int, class: ByteClass)
    requires
        0 <= start <= src.len(),
    ensures
        start <= run_end(src, start, class) <= src.len(),
        forall|k: int| start <= k < run_end(src, start, class) ==> class.contains(#[trigger] src[k]),
        byte_at(src, run_end(src, start, class)) matches Some(b) ==> !class.contains(b),
    decreases src.len() - start,
{
    if start < src.len() && class.contains(src[start]) {
        lemma_run_end(src, start + 1, class);
    }
}

/// A run that starts inside another run of the same class ends where that one ends.
pub proof fn lemma_run_end_from_inside(src: Seq<u8>, start: int, mid: int, class: ByteClass)
    requires
        0 <= start <= mid <= src.len(),
        forall|k: int| start <= k < mid ==> class.contains(#[trigger] src[k]),
    ensures
        run_end(src, start, class) == run_end(src, mid, class),
    decreases mid - start,
{
    if start < mid {
        lemma_run_end_from_inside(src, start + 1, mid, class);
    }
}

/// The end of the longest run of bytes of `class` in `input` from `start` on.
pub fn scan_run(input: &[u8], start: usize, class: ByteClass) -> (end: usize)
    ensures
        end == run_end(input@, start as int, class),
        start <= input@.len() ==> start <= end <= input@.len(),
{
    let mut end: usize = start;
    while end < input.len() && class.contains(input[end])
        invariant
            start <= end,
            end <= input@.len() || end == start,
            forall|k: int| start <= k < end ==> class.contains(#[trigger] input@[k]),
        decreases input@.len() - end,
    {
        end += 1;
    }
    proof {
        if start <= input@.len() {
            lemma_run_end_from_inside(input@, start as int, end as int, class);
        }
    }
    end
}

} // verus!
