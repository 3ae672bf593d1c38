//! Escape sequences and the bodies of string literals.

use crate::classify::{APOSTROPHE, BACKSLASH, QUOTE};
use vstd::prelude::*;

verus! {

/// The escape codes shared by string and character literals: a backslash
/// and the letters `t`, `n` and `r`.
pub open spec fn is_common_escape(code: u8) -> bool {
    code == BACKSLASH || code == 't' as u8 || code == 'n' as u8 || code == 'r' as u8
}

/// The bytes that may follow a backslash in a string literal.
pub open spec fn spec_is_string_escape(code: u8) -> bool {
    is_common_escape(code) || code == QUOTE
}

/// The bytes that may follow a backslash in a character literal.
pub open spec fn spec_is_char_escape(code: u8) -> bool {
    is_common_escape(code) || code == APOSTROPHE
}

/// The byte that an escape code stands for: tab, line feed and carriage
/// return for `t`, `n` and `r`; a backslash or a quote for itself.
pub open spec fn spec_unescape(code: u8) -> u8 {
    if code == 't' as u8 {
        0x09
    } else if code == 'n' as u8 {
        0x0A
    } else if code == 'r' as u8 {
        0x0D
    } else {
        code
    }
}

/// Whether `code` may follow a backslash in a string literal.
#[verifier::when_used_as_spec(spec_is_string_escape)]
pub fn is_string_escape(code: u8) -> (r: bool)
    ensures
        r == spec_is_string_escape(code),
{
    code == BACKSLASH || code == QUOTE || code == 't' as u8 || code == 'n' as u8 || code
        == 'r' as u8
}

/// Whether `code` may follow a backslash in a character literal.
#[verifier::when_used_as_spec(spec_is_char_escape)]
pub fn is_char_escape(code: u8) -> (r: bool)
    ensures
        r == spec_is_char_escape(code),
{
    code == BACKSLASH || code == APOSTROPHE || code == 't' as u8 || code == 'n' as u8 || code
        == 'r' as u8
}

/// The byte that the escape code `code` stands for.
#[verifier::when_used_as_spec(spec_unescape)]
pub fn unescape(code: u8) -> (r: u8)
    ensures
        r == spec_unescape(code),
{
    if code == 't' as u8 {
        0x09
    } else if code == 'n' as u8 {
        0x0A
    } else if code == 'r' as u8 {
        0x0D
    } else {
        code
    }
}

/// How the body of a string literal ends.
pub enum StringEnd {
    /// The closing quote stands at this offset.
    Closed(int),
    /// The byte at this offset follows a backslash and is no escape code.
    BadEscape(int),
    /// The input ends before a closing quote.
    Unterminated,
}

/// Reads the body of a string literal from offset `i` on: a backslash takes
/// the next byte with it, and the first quote that no backslash takes
/// closes the literal.
pub open spec fn string_end(src: Seq<u8>, i: int) -> StringEnd
    decreases src.len() - i,
{
    if i < 0 || i >= src.len() {
        StringEnd::Unterminated
    } else if src[i] == QUOTE {
        StringEnd::Closed(i)
    } else if src[i] != BACKSLASH {
        string_end(src, i + 1)
    } else if i + 1 >= src.len() {
        StringEnd::Unterminated
    } else if is_string_escape(src[i + 1]) {
        string_end(src, i + 2)
    } else {
        StringEnd::BadEscape(i + 1)
    }
}

/// The closing quote of a string literal is a quote inside the source, at
/// or after the start of the body; a bad escape code stands inside the
/// source too.
pub proof fn lemma_string_end_bounds(src: Seq<u8>, i: int)
    requires
        0 <= i,
    ensures
        string_end(src, i) matches StringEnd::Closed(close) ==> i <= close < src.len()
            && src[close] == QUOTE,
        string_end(src, i) matches StringEnd::BadEscape(at) ==> i < at < src.len(),
    decreases src.len() - i,
{
    if i < src.len() && src[i] != QUOTE {
        if src[i] != BACKSLASH {
            lemma_string_end_bounds(src, i + 1);
        } else if i + 1 < src.len() && is_string_escape(src[i + 1]) {
            lemma_string_end_bounds(src, i + 2);
        }
    }
}

/// Whether the body of a string literal holds an escape sequence.
pub open spec fn has_escape(body: Seq<u8>) -> bool {
    body.contains(BACKSLASH)
}

/// A stretch of bytes holds an escape sequence exactly when one of its two
/// parts does.
pub proof fn lemma_has_escape_split(src: Seq<u8>, from: int, mid: int, to: int)
    requires
        0 <= from <= mid <= to <= src.len(),
    ensures
        has_escape(src.subrange(from, to)) == (has_escape(src.subrange(from, mid)) || has_escape(
            src.subrange(mid, to),
        )),
{
    let whole = src.subrange(from, to);
    let left = src.subrange(from, mid);
    let right = src.subrange(mid, to);
    if has_escape(left) {
        let k = choose|k: int| 0 <= k < left.len() && left[k] == BACKSLASH;
        assert(whole[k] == BACKSLASH);
    }
    if has_escape(right) {
        let k = choose|k: int| 0 <= k < right.len() && right[k] == BACKSLASH;
        assert(whole[k + (mid - from)] == BACKSLASH);
    }
    if has_escape(whole) {
        let k = choose|k: int| 0 <= k < whole.len() && whole[k] == BACKSLASH;
        if k < mid - from {
            assert(left[k] == BACKSLASH);
        } else {
            assert(right[k - (mid - from)] == BACKSLASH);
        }
    }
}

/// The bytes that the body of a string literal stands for, from offset `i`
/// on: each escape pair gives the one byte it stands for, every other byte
/// gives itself.
pub open spec fn decode_from(body: Seq<u8>, i: int) -> Seq<u8>
    decreases body.len() - i,
{
    if i < 0 || i >= body.len() {
        Seq::empty()
    } else if body[i] == BACKSLASH && i + 1 < body.len() {
        seq![unescape(body[i + 1])] + decode_from(body, i + 2)
    } else {
        seq![body[i]] + decode_from(body, i + 1)
    }
}

/// The bytes that the body of a string literal stands for.
pub open spec fn decode(body: Seq<u8>) -> Seq<u8> {
    decode_from(body, 0)
}

/// A body without a backslash stands for itself.
pub proof fn lemma_decode_plain(body: Seq<u8>, i: int)
    requires
        0 <= i <= body.len(),
        !has_escape(body),
    ensures
        decode_from(body, i) == body.skip(i),
    decreases body.len() - i,
{
    if i < body.len() {
        assert(body.contains(body[i]));
        lemma_decode_plain(body, i + 1);
        assert(seq![body[i]] + body.skip(i + 1) =~= body.skip(i));
    } else {
        assert(body.skip(i) =~= Seq::<u8>::empty());
    }
}

/// Builds the bytes that the body of a string literal stands for.
pub fn decode_body(body: &[u8]) -> (r: Vec<u8>)
    ensures
        r@ == decode(body@),
{
    let mut out: Vec<u8> = Vec::with_capacity(body.len() / 4 * 3);
    let mut i: usize = 0;
    while i < body.len()
        invariant
            i <= body@.len(),
            out@ + decode_from(body@, i as int) == decode(body@),
        decreases body@.len() - i,
    {
        let ghost before = out@;
        if body[i] == BACKSLASH && i + 1 < body.len() {
            out.push(unescape(body[i + 1]));
            proof {
                assert(out@ + decode_from(body@, i + 2) =~= before + decode_from(body@, i as int));
            }
            i += 2;
        } else {
            out.push(body[i]);
            proof {
                assert(out@ + decode_from(body@, i + 1) =~= before + decode_from(body@, i as int));
            }
            i += 1;
        }
    }
    proof {
        assert(out@ + Seq::<u8>::empty() =~= out@);
    }
    out
}

} // verus!
