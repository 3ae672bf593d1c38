//! The table of reserved words.

use crate::classify::is_word_start;
use crate::token::Keyword;
use vstd::prelude::*;
use vstd::string::*;

verus! {

/// The bytes of a sequence of ASCII characters.
pub open spec fn ascii(chars: Seq<char>) -> Seq<u8> {
    Seq::new(chars.len(), |i: int| chars[i] as u8)
}

impl Keyword {
    /// The word as it is written in source text.
    pub open spec fn spelling(self) -> Seq<u8> {
        ascii(
            match self {
                Keyword::Import => "import"@,
                Keyword::Struct => "struct"@,
                Keyword::Fn => "fn"@,
                Keyword::Enum => "enum"@,
                Keyword::Mod => "mod"@,
                Keyword::Const => "const"@,
                Keyword::Let => "let"@,
                Keyword::If => "if"@,
                Keyword::Else => "else"@,
                Keyword::For => "for"@,
                Keyword::In => "in"@,
                Keyword::While => "while"@,
                Keyword::Return => "return"@,
                Keyword::Break => "break"@,
                Keyword::Continue => "continue"@,
                Keyword::Print => "print"@,
            },
        )
    }
}

/// The reserved word that `word` spells, if it spells one. The match is
/// exact and case-sensitive.
pub open spec fn keyword_of(word: Seq<u8>) -> Option<Keyword> {
    if word == Keyword::Import.spelling() {
        Some(Keyword::Import)
    } else if word == Keyword::Struct.spelling() {
        Some(Keyword::Struct)
    } else if word == Keyword::Fn.spelling() {
        Some(Keyword::Fn)
    } else if word == Keyword::Enum.spelling() {
        Some(Keyword::Enum)
    } else if word == Keyword::Mod.spelling() {
        Some(Keyword::Mod)
    } else if word == Keyword::Const.spelling() {
        Some(Keyword::Const)
    } else if word == Keyword::Let.spelling() {
        Some(Keyword::Let)
    } else if word == Keyword::If.spelling() {
        Some(Keyword::If)
    } else if word == Keyword::Else.spelling() {
        Some(Keyword::Else)
    } else if word == Keyword::For.spelling() {
        Some(Keyword::For)
    } else if word == Keyword::In.spelling() {
        Some(Keyword::In)
    } else if word == Keyword::While.spelling() {
        Some(Keyword::While)
    } else if word == Keyword::Return.spelling() {
        Some(Keyword::Return)
    } else if word == Keyword::Break.spelling() {
        Some(Keyword::Break)
    } else if word == Keyword::Continue.spelling() {
        Some(Keyword::Continue)
    } else if word == Keyword::Print.spelling() {
        Some(Keyword::Print)
    } else {
        None
    }
}

/// Whether `text` has `len` bytes, of which the first two are `a` and `b`.
spec fn begins(text: Seq<u8>, len: nat, a: char, b: char) -> bool {
    text.len() == len && text[0] == a as u8 && text[1] == b as u8
}

/// Every keyword is found in the table under its own spelling, which is a
/// word that starts with a letter.
pub proof fn lemma_keyword_of_spelling(keyword: Keyword)
    ensures
        keyword_of(keyword.spelling()) == Some(keyword),
        keyword.spelling().len() > 0,
        is_word_start(keyword.spelling()[0]),
{
    reveal_strlit("import");
    reveal_strlit("struct");
    reveal_strlit("fn");
    reveal_strlit("enum");
    reveal_strlit("mod");
    reveal_strlit("const");
    reveal_strlit("let");
    reveal_strlit("if");
    reveal_strlit("else");
    reveal_strlit("for");
    reveal_strlit("in");
    reveal_strlit("while");
    reveal_strlit("return");
    reveal_strlit("break");
    reveal_strlit("continue");
    reveal_strlit("print");
    assert(begins(Keyword::Import.spelling(), 6, 'i', 'm'));
    assert(begins(Keyword::Struct.spelling(), 6, 's', 't'));
    assert(begins(Keyword::Fn.spelling(), 2, 'f', 'n'));
    assert(begins(Keyword::Enum.spelling(), 4, 'e', 'n'));
    assert(begins(Keyword::Mod.spelling(), 3, 'm', 'o'));
    assert(begins(Keyword::Const.spelling(), 5, 'c', 'o'));
    assert(begins(Keyword::Let.spelling(), 3, 'l', 'e'));
    assert(begins(Keyword::If.spelling(), 2, 'i', 'f'));
    assert(begins(Keyword::Else.spelling(), 4, 'e', 'l'));
    assert(begins(Keyword::For.spelling(), 3, 'f', 'o'));
    assert(begins(Keyword::In.spelling(), 2, 'i', 'n'));
    assert(begins(Keyword::While.spelling(), 5, 'w', 'h'));
    assert(begins(Keyword::Return.spelling(), 6, 'r', 'e'));
    assert(begins(Keyword::Break.spelling(), 5, 'b', 'r'));
    assert(begins(Keyword::Continue.spelling(), 8, 'c', 'o'));
    assert(begins(Keyword::Print.spelling(), 5, 'p', 'r'));
}

/// Whether the bytes of `word` are the characters of `text`.
fn spells(word: &[u8], text: &str) -> (r: bool)
    requires
        is_ascii(text),
    ensures
        r == (word@ == ascii(text@)),
{
    broadcast use is_ascii_spec_bytes;

    let t = text.as_bytes();
    assert(t@ =~= ascii(text@));
    if word.len() != t.len() {
        return false;
    }
    let mut i: usize = 0;
    while i < word.len()
        invariant
            i <= word@.len(),
            word@.len() == t@.len(),
            t@ == ascii(text@),
            forall|j: int| 0 <= j < i ==> word@[j] == t@[j],
        decreases word@.len() - i,
    {
        if word[i] != t[i] {
            return false;
        }
        i += 1;
    }
    assert(word@ =~= t@);
    true
}

/// Looks `word` up in the table of reserved words.
pub fn lookup_keyword(word: &[u8]) -> (r: Option<Keyword>)
    ensures
        r == keyword_of(word@),
{
    proof {
        reveal_strlit("import");
        reveal_strlit("struct");
        reveal_strlit("fn");
        reveal_strlit("enum");
        reveal_strlit("mod");
        reveal_strlit("const");
        reveal_strlit("let");
        reveal_strlit("if");
        reveal_strlit("else");
        reveal_strlit("for");
        reveal_strlit("in");
        reveal_strlit("while");
        reveal_strlit("return");
        reveal_strlit("break");
        reveal_strlit("continue");
        reveal_strlit("print");
    }
    if spells(word, "import") {
        Some(Keyword::Import)
    } else if spells(word, "struct") {
        Some(Keyword::Struct)
    } else if spells(word, "fn") {
        Some(Keyword::Fn)
    } else if spells(word, "enum") {
        Some(Keyword::Enum)
    } else if spells(word, "mod") {
        Some(Keyword::Mod)
    } else if spells(word, "const") {
        Some(Keyword::Const)
    } else if spells(word, "let") {
        Some(Keyword::Let)
    } else if spells(word, "if") {
        Some(Keyword::If)
    } else if spells(word, "else") {
        Some(Keyword::Else)
    } else if spells(word, "for") {
        Some(Keyword::For)
    } else if spells(word, "in") {
        Some(Keyword::In)
    } else if spells(word, "while") {
        Some(Keyword::While)
    } else if spells(word, "return") {
        Some(Keyword::Return)
    } else if spells(word, "break") {
        Some(Keyword::Break)
    } else if spells(word, "continue") {
        Some(Keyword::Continue)
    } else if spells(word, "print") {
        Some(Keyword::Print)
    } else {
        None
    }
}

} // verus!
