//! Tokenizing Helios source texts.
//!
//! The [`Lexer`] walks a source text character by character and cuts it into
//! [`Token`]s. It is lossless: the texts of the tokens, one after the other,
//! give back the source text exactly, whitespace and comments included. It is
//! error-tolerant: a character that starts no token becomes a token of its own
//! of kind `UnknownChar`, reported with a [`Message`].
//!
//! The functions [`token_kind`] and [`token_end`] say, for a text and a
//! character index, which token starts there and where it ends; [`lex_from`]
//! lists the tokens of a whole text. The lexer is proved to follow them.

use std::ops::Range;
use vstd::prelude::*;
use vstd::string::*;

use crate::cursor::Cursor;
use crate::diagnostic::Location;
use crate::message::{LexerMessage, Message, MessageKind};
use crate::syntax_kind::{
    symbol_for_char, symbol_for_pair, symbol_from_char, symbol_from_chars, SyntaxKind,
};
use crate::text::str_eq;
use crate::utf8::{byte_offset, lemma_byte_offset_mono};

verus! {

/// Whether the character has the Unicode `XID_Start` property, as the
/// `unicode-xid` crate computes it.
pub uninterp spec fn xid_start(c: char) -> bool;

/// Whether the character has the Unicode `XID_Continue` property, as the
/// `unicode-xid` crate computes it.
pub uninterp spec fn xid_continue(c: char) -> bool;

/// Checks whether the character has the Unicode `XID_Start` property.
///
/// This is `UnicodeXID::is_xid_start` of the `unicode-xid` crate, a lookup in
/// the crate's tables of the Unicode character database.
#[verifier::external_body]
fn is_xid_start(c: char) -> (b: bool)
    ensures
        b == xid_start(c),
{
    unicode_xid::UnicodeXID::is_xid_start(c)
}

/// Checks whether the character has the Unicode `XID_Continue` property.
///
/// This is `UnicodeXID::is_xid_continue` of the `unicode-xid` crate, a lookup
/// in the crate's tables of the Unicode character database.
#[verifier::external_body]
fn is_xid_continue(c: char) -> (b: bool)
    ensures
        b == xid_continue(c),
{
    unicode_xid::UnicodeXID::is_xid_continue(c)
}

pub open spec fn is_ascii_letter(c: char) -> bool {
    ('a' <= c && c <= 'z') || ('A' <= c && c <= 'Z')
}

/// A valid start of an identifier: an ASCII letter, an underscore, or any
/// character with the `XID_Start` property.
pub open spec fn is_identifier_start_spec(c: char) -> bool {
    is_ascii_letter(c) || c == '_' || xid_start(c)
}

/// A valid continuation of an identifier: an ASCII letter or digit, an
/// underscore, or any character with the `XID_Continue` property.
pub open spec fn is_identifier_continue_spec(c: char) -> bool {
    is_ascii_letter(c) || ('0' <= c && c <= '9') || c == '_' || xid_continue(c)
}

/// The characters that start a symbol (or, for `#`, a comment).
pub open spec fn is_symbol_char_spec(c: char) -> bool {
    c == '&' || c == '*' || c == '@' || c == '!' || c == '^' || c == ':' || c == ','
        || c == '$' || c == '.' || c == '–' || c == '—' || c == '=' || c == '-' || c == '%'
        || c == '+' || c == '#' || c == '?' || c == ';' || c == '£' || c == '~' || c == '|'
        || c == '/' || c == '\\' || c == '<' || c == '>' || c == '{' || c == '}' || c == '['
        || c == ']' || c == '(' || c == ')'
}

pub open spec fn is_digit_spec(c: char) -> bool {
    '0' <= c && c <= '9'
}

/// The whitespace delimiters (line feeds are tokens of their own).
pub open spec fn is_whitespace_spec(c: char) -> bool {
    c == ' ' || c == '\t' || c == '\r'
}

/// The characters that may continue a number literal, in any base.
pub open spec fn is_digit_continue_spec(c: char) -> bool {
    c == '_' || is_digit_spec(c) || is_ascii_letter(c)
}

/// Determines whether the character is a valid start of an identifier.
pub fn is_identifier_start(c: char) -> (b: bool)
    ensures
        b == is_identifier_start_spec(c),
{
    ('a' <= c && c <= 'z') || ('A' <= c && c <= 'Z') || c == '_' || is_xid_start(c)
}

/// Determines whether the character is a valid continuation of an identifier.
pub fn is_identifier_continue(c: char) -> (b: bool)
    ensures
        b == is_identifier_continue_spec(c),
{
    ('a' <= c && c <= 'z') || ('A' <= c && c <= 'Z') || ('0' <= c && c <= '9') || c == '_'
        || is_xid_continue(c)
}

/// Determines whether the character starts a symbol (or, for `#`, a comment).
pub fn is_symbol(c: char) -> (b: bool)
    ensures
        b == is_symbol_char_spec(c),
{
    c == '&' || c == '*' || c == '@' || c == '!' || c == '^' || c == ':' || c == ',' || c == '$'
        || c == '.' || c == '–' || c == '—' || c == '=' || c == '-' || c == '%' || c == '+'
        || c == '#' || c == '?' || c == ';' || c == '£' || c == '~' || c == '|' || c == '/'
        || c == '\\' || c == '<' || c == '>' || c == '{' || c == '}' || c == '[' || c == ']'
        || c == '(' || c == ')'
}

/// Determines whether the character is a decimal digit.
pub fn is_digit(c: char) -> (b: bool)
    ensures
        b == is_digit_spec(c),
{
    '0' <= c && c <= '9'
}

/// Determines whether the character is a whitespace delimiter.
pub fn is_whitespace(c: char) -> (b: bool)
    ensures
        b == is_whitespace_spec(c),
{
    c == ' ' || c == '\t' || c == '\r'
}

fn is_digit_continue(c: char) -> (b: bool)
    ensures
        b == is_digit_continue_spec(c),
{
    c == '_' || ('0' <= c && c <= '9') || ('a' <= c && c <= 'z') || ('A' <= c && c <= 'Z')
}

/// The classes of characters that a run of a token consists of.
#[derive(Clone, Copy, Debug, PartialEq, Eq, Structural)]
pub enum CharClass {
    /// Spaces, which make up indentation after a line feed.
    Space,
    /// Anything but a line feed, which makes up a comment.
    NotNewline,
    Whitespace,
    IdentifierContinue,
    DigitContinue,
}

pub open spec fn class_holds(class: CharClass, c: char) -> bool {
    match class {
        CharClass::Space => c == ' ',
        CharClass::NotNewline => c != '\n',
        CharClass::Whitespace => is_whitespace_spec(c),
        CharClass::IdentifierContinue => is_identifier_continue_spec(c),
        CharClass::DigitContinue => is_digit_continue_spec(c),
    }
}

fn class_contains(class: CharClass, c: char) -> (b: bool)
    ensures
        b == class_holds(class, c),
{
    match class {
        CharClass::Space => c == ' ',
        CharClass::NotNewline => c != '\n',
        CharClass::Whitespace => is_whitespace(c),
        CharClass::IdentifierContinue => is_identifier_continue(c),
        CharClass::DigitContinue => is_digit_continue(c),
    }
}

/// The character at index `k` of `s`, or the NUL character past the end.
pub open spec fn char_at(s: Seq<char>, k: int) -> char {
    if 0 <= k < s.len() {
        s[k]
    } else {
        '\0'
    }
}

/// The number of consecutive characters of the class in `s` from index `from`.
pub open spec fn run_len(s: Seq<char>, from: int, class: CharClass) -> nat
    decreases s.len() - from,
{
    if from < 0 || from >= s.len() || !class_holds(class, s[from]) {
        0
    } else {
        1 + run_len(s, from + 1, class)
    }
}

/// The keyword that the text spells, or `ReservedIdentifier` for a lone
/// underscore, or `Identifier` otherwise.
pub open spec fn keyword_or_identifier(text: Seq<char>) -> SyntaxKind {
    if text == "and"@ { SyntaxKind::Kwd_And }
    else if text == "as"@ { SyntaxKind::Kwd_As }
    else if text == "case"@ { SyntaxKind::Kwd_Case }
    else if text == "else"@ { SyntaxKind::Kwd_Else }
    else if text == "enum"@ { SyntaxKind::Kwd_Enum }
    else if text == "for"@ { SyntaxKind::Kwd_For }
    else if text == "forall"@ { SyntaxKind::Kwd_Forall }
    else if text == "func"@ { SyntaxKind::Kwd_Func }
    else if text == "if"@ { SyntaxKind::Kwd_If }
    else if text == "impl"@ { SyntaxKind::Kwd_Impl }
    else if text == "import"@ { SyntaxKind::Kwd_Import }
    else if text == "in"@ { SyntaxKind::Kwd_In }
    else if text == "iter"@ { SyntaxKind::Kwd_Iter }
    else if text == "let"@ { SyntaxKind::Kwd_Let }
    else if text == "module"@ { SyntaxKind::Kwd_Module }
    else if text == "not"@ { SyntaxKind::Kwd_Not }
    else if text == "of"@ { SyntaxKind::Kwd_Of }
    else if text == "or"@ { SyntaxKind::Kwd_Or }
    else if text == "range"@ { SyntaxKind::Kwd_Range }
    else if text == "record"@ { SyntaxKind::Kwd_Record }
    else if text == "type"@ { SyntaxKind::Kwd_Type }
    else if text == "var"@ { SyntaxKind::Kwd_Var }
    else if text == "while"@ { SyntaxKind::Kwd_While }
    else if text == "with"@ { SyntaxKind::Kwd_With }
    else if text == "yield"@ { SyntaxKind::Kwd_Yield }
    else if text == "_"@ { SyntaxKind::ReservedIdentifier }
    else { SyntaxKind::Identifier }
}

/// Each keyword is lexed from its spelling: the text that describes a
/// keyword kind gives that kind back.
pub proof fn lemma_keyword_roundtrip(k: SyntaxKind)
    requires
        k.is_keyword_spec(),
    ensures
        k.description_spec() is Some,
        keyword_or_identifier(k.description_spec()->Some_0) == k,
{
    reveal_strlit("and");
    reveal_strlit("as");
    reveal_strlit("case");
    reveal_strlit("else");
    reveal_strlit("enum");
    reveal_strlit("for");
    reveal_strlit("forall");
    reveal_strlit("func");
    reveal_strlit("if");
    reveal_strlit("impl");
    reveal_strlit("import");
    reveal_strlit("in");
    reveal_strlit("iter");
    reveal_strlit("let");
    reveal_strlit("module");
    reveal_strlit("not");
    reveal_strlit("of");
    reveal_strlit("or");
    reveal_strlit("range");
    reveal_strlit("record");
    reveal_strlit("type");
    reveal_strlit("var");
    reveal_strlit("while");
    reveal_strlit("with");
    reveal_strlit("yield");
    reveal_strlit("_");
    assert("and"@ =~= seq!['a', 'n', 'd']);
    assert("as"@ =~= seq!['a', 's']);
    assert("case"@ =~= seq!['c', 'a', 's', 'e']);
    assert("else"@ =~= seq!['e', 'l', 's', 'e']);
    assert("enum"@ =~= seq!['e', 'n', 'u', 'm']);
    assert("for"@ =~= seq!['f', 'o', 'r']);
    assert("forall"@ =~= seq!['f', 'o', 'r', 'a', 'l', 'l']);
    assert("func"@ =~= seq!['f', 'u', 'n', 'c']);
    assert("if"@ =~= seq!['i', 'f']);
    assert("impl"@ =~= seq!['i', 'm', 'p', 'l']);
    assert("import"@ =~= seq!['i', 'm', 'p', 'o', 'r', 't']);
    assert("in"@ =~= seq!['i', 'n']);
    assert("iter"@ =~= seq!['i', 't', 'e', 'r']);
    assert("let"@ =~= seq!['l', 'e', 't']);
    assert("module"@ =~= seq!['m', 'o', 'd', 'u', 'l', 'e']);
    assert("not"@ =~= seq!['n', 'o', 't']);
    assert("of"@ =~= seq!['o', 'f']);
    assert("or"@ =~= seq!['o', 'r']);
    assert("range"@ =~= seq!['r', 'a', 'n', 'g', 'e']);
    assert("record"@ =~= seq!['r', 'e', 'c', 'o', 'r', 'd']);
    assert("type"@ =~= seq!['t', 'y', 'p', 'e']);
    assert("var"@ =~= seq!['v', 'a', 'r']);
    assert("while"@ =~= seq!['w', 'h', 'i', 'l', 'e']);
    assert("with"@ =~= seq!['w', 'i', 't', 'h']);
    assert("yield"@ =~= seq!['y', 'i', 'e', 'l', 'd']);
    assert("_"@ =~= seq!['_']);
    match k {
        SyntaxKind::Kwd_And => {
            assert(keyword_or_identifier("and"@) == SyntaxKind::Kwd_And);
        },
        SyntaxKind::Kwd_As => {
            assert(keyword_or_identifier("as"@) == SyntaxKind::Kwd_As);
        },
        SyntaxKind::Kwd_Case => {
            assert(keyword_or_identifier("case"@) == SyntaxKind::Kwd_Case);
        },
        SyntaxKind::Kwd_Else => {
            assert(keyword_or_identifier("else"@) == SyntaxKind::Kwd_Else);
        },
        SyntaxKind::Kwd_Enum => {
            assert(keyword_or_identifier("enum"@) == SyntaxKind::Kwd_Enum);
        },
        SyntaxKind::Kwd_For => {
            assert(keyword_or_identifier("for"@) == SyntaxKind::Kwd_For);
        },
        SyntaxKind::Kwd_Forall => {
            assert(keyword_or_identifier("forall"@) == SyntaxKind::Kwd_Forall);
        },
        SyntaxKind::Kwd_Func => {
            assert(keyword_or_identifier("func"@) == SyntaxKind::Kwd_Func);
        },
        SyntaxKind::Kwd_If => {
            assert(keyword_or_identifier("if"@) == SyntaxKind::Kwd_If);
        },
        SyntaxKind::Kwd_Impl => {
            assert(keyword_or_identifier("impl"@) == SyntaxKind::Kwd_Impl);
        },
        SyntaxKind::Kwd_Import => {
            assert(keyword_or_identifier("import"@) == SyntaxKind::Kwd_Import);
        },
        SyntaxKind::Kwd_In => {
            assert(keyword_or_identifier("in"@) == SyntaxKind::Kwd_In);
        },
        SyntaxKind::Kwd_Iter => {
            assert(keyword_or_identifier("iter"@) == SyntaxKind::Kwd_Iter);
        },
        SyntaxKind::Kwd_Let => {
            assert(keyword_or_identifier("let"@) == SyntaxKind::Kwd_Let);
        },
        SyntaxKind::Kwd_Module => {
            assert(keyword_or_identifier("module"@) == SyntaxKind::Kwd_Module);
        },
        SyntaxKind::Kwd_Not => {
            assert(keyword_or_identifier("not"@) == SyntaxKind::Kwd_Not);
        },
        SyntaxKind::Kwd_Of => {
            assert(keyword_or_identifier("of"@) == SyntaxKind::Kwd_Of);
        },
        SyntaxKind::Kwd_Or => {
            assert(keyword_or_identifier("or"@) == SyntaxKind::Kwd_Or);
        },
        SyntaxKind::Kwd_Range => {
            assert(keyword_or_identifier("range"@) == SyntaxKind::Kwd_Range);
        },
        SyntaxKind::Kwd_Record => {
            assert(keyword_or_identifier("record"@) == SyntaxKind::Kwd_Record);
        },
        SyntaxKind::Kwd_Type => {
            assert(keyword_or_identifier("type"@) == SyntaxKind::Kwd_Type);
        },
        SyntaxKind::Kwd_Var => {
            assert(keyword_or_identifier("var"@) == SyntaxKind::Kwd_Var);
        },
        SyntaxKind::Kwd_While => {
            assert(keyword_or_identifier("while"@) == SyntaxKind::Kwd_While);
        },
        SyntaxKind::Kwd_With => {
            assert(keyword_or_identifier("with"@) == SyntaxKind::Kwd_With);
        },
        SyntaxKind::Kwd_Yield => {
            assert(keyword_or_identifier("yield"@) == SyntaxKind::Kwd_Yield);
        },
        _ => {},
    }
}

/// The kind and the end (a character index) of the number literal whose
/// first digit is at index `i` of `s`.
///
/// Literals in a non-decimal base (`0b`, `0o`, `0x`) are integers; a decimal
/// literal is a float when its integer part is followed by a dot that is not
/// followed by the start of an identifier. Letters are taken into literals
/// whatever the base; checking the digits is left to later stages.
pub open spec fn number_token(s: Seq<char>, i: int) -> (SyntaxKind, int) {
    let j = i + 1;
    if s[i] == '0' && (char_at(s, j) == 'b' || char_at(s, j) == 'o' || char_at(s, j) == 'x') {
        (SyntaxKind::Lit_Integer, j + run_len(s, j, CharClass::DigitContinue))
    } else {
        let e = j + run_len(s, j, CharClass::DigitContinue);
        if char_at(s, e) == '.' && !is_identifier_start_spec(char_at(s, e + 1)) {
            (SyntaxKind::Lit_Float, e + 1 + run_len(s, e + 1, CharClass::DigitContinue))
        } else {
            (SyntaxKind::Lit_Integer, e)
        }
    }
}

/// The kind and the end of the symbol token whose first character is at
/// index `i` of `s`: `???` is a placeholder, and two characters that form a
/// symbol together (such as `<=`) are taken as one token.
pub open spec fn symbol_token(s: Seq<char>, i: int) -> (SyntaxKind, int) {
    let c = s[i];
    let j = i + 1;
    if c == '?' {
        if char_at(s, j) == '?' && char_at(s, j + 1) == '?' {
            (SyntaxKind::Placeholder, j + 2)
        } else {
            (SyntaxKind::Sym_Question, j)
        }
    } else {
        match symbol_for_pair(c, char_at(s, j)) {
            Some(k) => (k, j + 1),
            None => (symbol_for_char(c).unwrap(), j),
        }
    }
}

/// The kind and the end (a character index, exclusive) of the token that
/// starts at index `i` of `s`, for `0 <= i < s.len()`.
pub open spec fn token_at(s: Seq<char>, i: int) -> (SyntaxKind, int) {
    let c = s[i];
    let j = i + 1;
    if c == '\n' {
        (SyntaxKind::Newline, j + run_len(s, j, CharClass::Space))
    } else if c == '#' {
        let kind = if char_at(s, j) == '#' || char_at(s, j) == '!' {
            SyntaxKind::DocComment
        } else {
            SyntaxKind::Comment
        };
        (kind, j + run_len(s, j, CharClass::NotNewline))
    } else if is_whitespace_spec(c) {
        (SyntaxKind::Whitespace, j + run_len(s, j, CharClass::Whitespace))
    } else if is_symbol_char_spec(c) {
        symbol_token(s, i)
    } else if is_identifier_start_spec(c) {
        let e = j + run_len(s, j, CharClass::IdentifierContinue);
        (keyword_or_identifier(s.subrange(i, e)), e)
    } else if is_digit_spec(c) {
        number_token(s, i)
    } else {
        (SyntaxKind::UnknownChar, j)
    }
}

pub open spec fn token_kind(s: Seq<char>, i: int) -> SyntaxKind {
    token_at(s, i).0
}

pub open spec fn token_end(s: Seq<char>, i: int) -> int {
    token_at(s, i).1
}

/// The message that the lexer reports for the token that starts at index `i`
/// of `s`: an unknown character is reported at the byte range of one byte
/// from its offset.
pub open spec fn lexer_message_at<FileId>(s: Seq<char>, i: int, file_id: FileId) -> Option<
    Message<FileId>,
> {
    if token_kind(s, i) == SyntaxKind::UnknownChar {
        let start = byte_offset(s, i) as usize;
        Some(
            Message {
                kind: MessageKind::Lexer(LexerMessage::UnknownCharacter(s[i])),
                location: Location { file_id, range: start..(start + 1) as usize },
            },
        )
    } else {
        None
    }
}

/// A run of characters never reaches past the end of the text.
pub proof fn lemma_run_len_bound(s: Seq<char>, from: int, class: CharClass)
    requires
        0 <= from <= s.len(),
    ensures
        from + run_len(s, from, class) <= s.len(),
    decreases s.len() - from,
{
    if from < s.len() && class_holds(class, s[from]) {
        lemma_run_len_bound(s, from + 1, class);
    }
}

/// Every token takes at least one character and ends within the text.
pub proof fn lemma_token_end_bounds(s: Seq<char>, i: int)
    requires
        0 <= i < s.len(),
    ensures
        i < token_end(s, i) <= s.len(),
{
    let j = i + 1;
    lemma_run_len_bound(s, j, CharClass::Space);
    lemma_run_len_bound(s, j, CharClass::NotNewline);
    lemma_run_len_bound(s, j, CharClass::Whitespace);
    lemma_run_len_bound(s, j, CharClass::IdentifierContinue);
    lemma_run_len_bound(s, j, CharClass::DigitContinue);
    let e = j + run_len(s, j, CharClass::DigitContinue);
    if char_at(s, e) == '.' {
        lemma_run_len_bound(s, e + 1, CharClass::DigitContinue);
    }
}

/// The tokens of `s` from index `i` on, as triples of kind, start index and
/// end index.
pub open spec fn lex_from(s: Seq<char>, i: int) -> Seq<(SyntaxKind, int, int)>
    decreases s.len() - i,
{
    if i < 0 || i >= s.len() {
        Seq::empty()
    } else {
        let e = token_end(s, i);
        if e <= i || e > s.len() {
            Seq::empty()
        } else {
            seq![(token_kind(s, i), i, e)] + lex_from(s, e)
        }
    }
}

/// The tokens of the whole text `s`.
pub open spec fn lex(s: Seq<char>) -> Seq<(SyntaxKind, int, int)> {
    lex_from(s, 0)
}

/// The token of a lexer item, with its kind, text and byte range.
#[derive(Debug, PartialEq, Eq)]
pub struct Token<'source> {
    pub kind: SyntaxKind,
    pub text: &'source str,
    pub range: Range<usize>,
}

impl<'source> Clone for Token<'source> {
    fn clone(&self) -> (t: Self)
        ensures
            t == *self,
    {
        Token { kind: self.kind, text: self.text, range: self.range.start..self.range.end }
    }
}

impl<'source> Token<'source> {
    /// Constructs a token with the given kind, text and byte range.
    pub fn new(kind: SyntaxKind, text: &'source str, range: Range<usize>) -> (t: Self)
        ensures
            t.kind == kind,
            t.text == text,
            t.range == range,
    {
        Token { kind, text, range }
    }
}

/// The abstract state of a lexer: the text, how many characters it has
/// tokenized, and the file it reports messages for.
pub struct LexerView<FileId> {
    pub text: Seq<char>,
    pub index: nat,
    pub file_id: FileId,
}

/// A lossless, error-tolerant lexer for Helios source texts.
pub struct Lexer<'source, FileId> {
    file_id: FileId,
    cursor: Cursor<'source>,
}

impl<'source, FileId: Copy> View for Lexer<'source, FileId> {
    type V = LexerView<FileId>;

    closed spec fn view(&self) -> LexerView<FileId> {
        LexerView { text: self.cursor@.text, index: self.cursor@.index, file_id: self.file_id }
    }
}


/// Tokenizes the text of an identifier into a keyword or an identifier.
pub fn lex_keyword_or_identifier(text: &str) -> (kind: SyntaxKind)
    ensures
        kind == keyword_or_identifier(text@),
{
    if text.unicode_len() > 6 {
        proof {
            reveal_strlit("and"); reveal_strlit("as"); reveal_strlit("case");
            reveal_strlit("else"); reveal_strlit("enum"); reveal_strlit("for");
            reveal_strlit("forall"); reveal_strlit("func"); reveal_strlit("if");
            reveal_strlit("impl"); reveal_strlit("import"); reveal_strlit("in");
            reveal_strlit("iter"); reveal_strlit("let"); reveal_strlit("module");
            reveal_strlit("not"); reveal_strlit("of"); reveal_strlit("or");
            reveal_strlit("range"); reveal_strlit("record"); reveal_strlit("type");
            reveal_strlit("var"); reveal_strlit("while"); reveal_strlit("with");
            reveal_strlit("yield"); reveal_strlit("_");
        }
        return SyntaxKind::Identifier;
    }
    if str_eq(text, "and") { SyntaxKind::Kwd_And }
    else if str_eq(text, "as") { SyntaxKind::Kwd_As }
    else if str_eq(text, "case") { SyntaxKind::Kwd_Case }
    else if str_eq(text, "else") { SyntaxKind::Kwd_Else }
    else if str_eq(text, "enum") { SyntaxKind::Kwd_Enum }
    else if str_eq(text, "for") { SyntaxKind::Kwd_For }
    else if str_eq(text, "forall") { SyntaxKind::Kwd_Forall }
    else if str_eq(text, "func") { SyntaxKind::Kwd_Func }
    else if str_eq(text, "if") { SyntaxKind::Kwd_If }
    else if str_eq(text, "impl") { SyntaxKind::Kwd_Impl }
    else if str_eq(text, "import") { SyntaxKind::Kwd_Import }
    else if str_eq(text, "in") { SyntaxKind::Kwd_In }
    else if str_eq(text, "iter") { SyntaxKind::Kwd_Iter }
    else if str_eq(text, "let") { SyntaxKind::Kwd_Let }
    else if str_eq(text, "module") { SyntaxKind::Kwd_Module }
    else if str_eq(text, "not") { SyntaxKind::Kwd_Not }
    else if str_eq(text, "of") { SyntaxKind::Kwd_Of }
    else if str_eq(text, "or") { SyntaxKind::Kwd_Or }
    else if str_eq(text, "range") { SyntaxKind::Kwd_Range }
    else if str_eq(text, "record") { SyntaxKind::Kwd_Record }
    else if str_eq(text, "type") { SyntaxKind::Kwd_Type }
    else if str_eq(text, "var") { SyntaxKind::Kwd_Var }
    else if str_eq(text, "while") { SyntaxKind::Kwd_While }
    else if str_eq(text, "with") { SyntaxKind::Kwd_With }
    else if str_eq(text, "yield") { SyntaxKind::Kwd_Yield }
    else if str_eq(text, "_") { SyntaxKind::ReservedIdentifier }
    else { SyntaxKind::Identifier }
}

impl<'source, FileId: Copy> Lexer<'source, FileId> {
    /// The lexer is consistent: its cursor is, and it holds no checkpoint
    /// between two tokens.
    pub closed spec fn wf(&self) -> bool {
        &&& self.cursor.wf()
        &&& self.cursor@.checkpoints.len() == 0
    }

    /// The source text that the lexer tokenizes.
    pub closed spec fn source_spec(&self) -> &'source str {
        self.cursor.source_spec()
    }

    /// Constructs a lexer at the start of the given source text, reporting
    /// its messages for the given file.
    pub fn new(file_id: FileId, source: &'source str) -> (l: Self)
        ensures
            l.wf(),
            l@.text == source@,
            l@.index == 0,
            l@.file_id == file_id,
            l.source_spec() == source,
    {
        Lexer { file_id, cursor: Cursor::new(source) }
    }

    /// Checks if the lexer has reached the end of the input.
    pub fn is_at_end(&self) -> (b: bool)
        requires
            self.wf(),
        ensures
            b == (self@.index >= self@.text.len()),
    {
        self.cursor.is_at_end()
    }

    /// The current position of the lexer, in bytes.
    pub fn current_pos(&self) -> (n: usize)
        requires
            self.wf(),
        ensures
            n == byte_offset(self@.text, self@.index as int),
    {
        self.cursor.pos()
    }

    /// Consumes the characters of the class that follow, returning how many
    /// there were.
    fn consume_while(&mut self, class: CharClass) -> (n: usize)
        requires
            old(self).cursor.wf(),
        ensures
            final(self).cursor.wf(),
            final(self).file_id == old(self).file_id,
            final(self).cursor.source_spec() == old(self).cursor.source_spec(),
            final(self).cursor@.text == old(self).cursor@.text,
            final(self).cursor@.checkpoints == old(self).cursor@.checkpoints,
            n == run_len(old(self).cursor@.text, old(self).cursor@.index as int, class),
            final(self).cursor@.index == old(self).cursor@.index + n,
    {
        let ghost s = self.cursor@.text;
        let ghost start = self.cursor@.index as int;
        let mut consumed: usize = 0;
        proof {
            self.cursor.lemma_bounds();
        }
        while class_contains(class, self.cursor.nth(0)) && !self.cursor.is_at_end()
            invariant
                self.cursor.wf(),
                self.file_id == old(self).file_id,
                self.cursor.source_spec() == old(self).cursor.source_spec(),
                self.cursor@.text == s,
                self.cursor@.checkpoints == old(self).cursor@.checkpoints,
                self.cursor@.index == start + consumed,
                self.cursor@.index <= s.len(),
                s.len() <= usize::MAX,
                run_len(s, start, class) == consumed + run_len(s, self.cursor@.index as int, class),
            decreases s.len() - self.cursor@.index,
        {
            self.cursor.advance();
            consumed = consumed + 1;
            proof {
                self.cursor.lemma_bounds();
            }
        }
        consumed
    }

    /// Tokenizes a symbol whose first character, `c`, was just consumed.
    fn lex_symbol(&mut self, c: char) -> (kind: SyntaxKind)
        requires
            old(self).cursor.wf(),
            is_symbol_char_spec(c),
            c != '#',
            old(self).cursor@.index >= 1,
            old(self).cursor@.text[old(self).cursor@.index - 1] == c,
        ensures
            final(self).cursor.wf(),
            final(self).file_id == old(self).file_id,
            final(self).cursor.source_spec() == old(self).cursor.source_spec(),
            final(self).cursor@.text == old(self).cursor@.text,
            final(self).cursor@.checkpoints == old(self).cursor@.checkpoints,
            (kind, final(self).cursor@.index as int) == symbol_token(
                old(self).cursor@.text,
                old(self).cursor@.index - 1,
            ),
    {
        proof {
            self.cursor.lemma_bounds();
        }
        if c == '?' {
            if self.cursor.nth(0) == '?' && self.cursor.nth(1) == '?' {
                self.cursor.advance();
                self.cursor.advance();
                SyntaxKind::Placeholder
            } else {
                SyntaxKind::Sym_Question
            }
        } else {
            let next = self.cursor.nth(0);
            let pair = [c, next];
            match symbol_from_chars(&pair) {
                Some(kind) => {
                    self.cursor.advance();
                    kind
                },
                None => symbol_from_char(c),
            }
        }
    }

    /// Tokenizes a number literal whose first digit, `c`, was just consumed.
    fn lex_number(&mut self, c: char) -> (kind: SyntaxKind)
        requires
            old(self).cursor.wf(),
            is_digit_spec(c),
            old(self).cursor@.index >= 1,
            old(self).cursor@.text[old(self).cursor@.index - 1] == c,
        ensures
            final(self).cursor.wf(),
            final(self).file_id == old(self).file_id,
            final(self).cursor.source_spec() == old(self).cursor.source_spec(),
            final(self).cursor@.text == old(self).cursor@.text,
            final(self).cursor@.checkpoints == old(self).cursor@.checkpoints,
            (kind, final(self).cursor@.index as int) == number_token(
                old(self).cursor@.text,
                old(self).cursor@.index - 1,
            ),
    {
        let next = self.cursor.nth(0);
        if c == '0' && (next == 'b' || next == 'o' || next == 'x') {
            self.consume_while(CharClass::DigitContinue);
            SyntaxKind::Lit_Integer
        } else {
            self.consume_while(CharClass::DigitContinue);
            if self.cursor.nth(0) == '.' && !is_identifier_start(self.cursor.nth(1)) {
                self.cursor.advance();
                self.consume_while(CharClass::DigitContinue);
                SyntaxKind::Lit_Float
            } else {
                SyntaxKind::Lit_Integer
            }
        }
    }

    /// Tokenizes the next token, returning it with the message to report
    /// about it, if any, or returns `None` at the end of the input.
    pub fn next(&mut self) -> (r: Option<(Token<'source>, Option<Message<FileId>>)>)
        requires
            old(self).wf(),
        ensures
            final(self).wf(),
            final(self)@.text == old(self)@.text,
            final(self)@.file_id == old(self)@.file_id,
            final(self).source_spec() == old(self).source_spec(),
            old(self)@.index >= old(self)@.text.len() ==> r is None && final(self)@.index
                == old(self)@.index,
            old(self)@.index < old(self)@.text.len() ==> (r matches Some((t, m)) && {
                let s = old(self)@.text;
                let i = old(self)@.index as int;
                let e = token_end(s, i);
                &&& t.kind == token_kind(s, i)
                &&& t.text@ == s.subrange(i, e)
                &&& t.range.start == byte_offset(s, i)
                &&& t.range.end == byte_offset(s, e)
                &&& final(self)@.index == e
                &&& m == lexer_message_at(s, i, old(self)@.file_id)
            }),
    {
        let ghost s = self.cursor@.text;
        let ghost i = self.cursor@.index as int;
        if self.cursor.is_at_end() {
            return None;
        }
        proof {
            self.cursor.lemma_bounds();
            lemma_byte_offset_mono(s, i, i + 1);
        }
        self.cursor.checkpoint();
        let start = self.cursor.pos();
        let c = match self.cursor.advance() {
            Some(c) => c,
            None => {
                proof {
                    assert(false);
                }
                return None;
            },
        };
        let mut message: Option<Message<FileId>> = None;
        let mut identifier = false;
        let kind = if c == '\n' {
            self.consume_while(CharClass::Space);
            SyntaxKind::Newline
        } else if c == '#' {
            let next = self.cursor.nth(0);
            self.consume_while(CharClass::NotNewline);
            if next == '#' || next == '!' {
                SyntaxKind::DocComment
            } else {
                SyntaxKind::Comment
            }
        } else if is_whitespace(c) {
            self.consume_while(CharClass::Whitespace);
            SyntaxKind::Whitespace
        } else if is_symbol(c) {
            self.lex_symbol(c)
        } else if is_identifier_start(c) {
            self.consume_while(CharClass::IdentifierContinue);
            identifier = true;
            SyntaxKind::Identifier
        } else if is_digit(c) {
            self.lex_number(c)
        } else {
            message = Some(
                Message::new(
                    MessageKind::Lexer(LexerMessage::UnknownCharacter(c)),
                    Location::new(self.file_id, start..start + 1),
                ),
            );
            SyntaxKind::UnknownChar
        };
        proof {
            lemma_token_end_bounds(s, i);
            self.cursor.lemma_bounds();
        }
        let end = self.cursor.pos();
        let text = self.cursor.slice();
        let kind = if identifier {
            lex_keyword_or_identifier(text)
        } else {
            kind
        };
        Some((Token::new(kind, text, start..end), message))
    }
}

/// The messages that the lexer reports for the tokens of `s` from index `i` on.
pub open spec fn messages_from<FileId>(s: Seq<char>, i: int, file_id: FileId) -> Seq<
    Message<FileId>,
>
    decreases s.len() - i,
{
    if i < 0 || i >= s.len() {
        Seq::empty()
    } else {
        let e = token_end(s, i);
        if e <= i || e > s.len() {
            Seq::empty()
        } else {
            match lexer_message_at(s, i, file_id) {
                Some(m) => seq![m] + messages_from(s, e, file_id),
                None => messages_from(s, e, file_id),
            }
        }
    }
}

/// The number of the given tokens that are unknown characters.
pub open spec fn count_unknown(toks: Seq<(SyntaxKind, int, int)>) -> nat
    decreases toks.len(),
{
    if toks.len() == 0 {
        0
    } else {
        (if toks[0].0 == SyntaxKind::UnknownChar {
            1nat
        } else {
            0nat
        }) + count_unknown(toks.drop_first())
    }
}

/// The lexer reports one message for each unknown character and no other:
/// the messages of a text are as many as its unknown-character tokens.
pub proof fn lemma_message_count<FileId>(s: Seq<char>, file_id: FileId)
    ensures
        messages_from(s, 0, file_id).len() == count_unknown(lex(s)),
{
    lemma_message_count_from(s, 0, file_id);
}

proof fn lemma_message_count_from<FileId>(s: Seq<char>, i: int, file_id: FileId)
    requires
        0 <= i,
    ensures
        messages_from(s, i, file_id).len() == count_unknown(lex_from(s, i)),
    decreases s.len() - i,
{
    if i < s.len() {
        lemma_token_end_bounds(s, i);
        let e = token_end(s, i);
        lemma_message_count_from(s, e, file_id);
        let t = lex_from(s, i);
        assert(t.drop_first() =~= lex_from(s, e));
    }
}

/// A carriage return is white space: the token that starts at a carriage
/// return is a `Whitespace` token, which runs on over the spaces, tabs and
/// carriage returns that follow it (so that a Windows line ending `\r\n`
/// lexes as white space and then a line feed).
pub proof fn lemma_carriage_return_is_whitespace(s: Seq<char>, i: int)
    requires
        0 <= i < s.len(),
        s[i] == '\r',
    ensures
        token_kind(s, i) == SyntaxKind::Whitespace,
        forall|k: int|
            i <= k < token_end(s, i) ==> #[trigger] s[k] == ' ' || s[k] == '\t' || s[k] == '\r',
        token_end(s, i) < s.len() ==> !(s[token_end(s, i)] == ' ' || s[token_end(s, i)] == '\t'
            || s[token_end(s, i)] == '\r'),
{
    lemma_whitespace_run(s, i + 1);
}

/// The run of white space from `from` is made of spaces, tabs and carriage
/// returns, and stops before any other character.
proof fn lemma_whitespace_run(s: Seq<char>, from: int)
    requires
        0 <= from <= s.len(),
    ensures
        from + run_len(s, from, CharClass::Whitespace) <= s.len(),
        forall|k: int|
            from <= k < from + run_len(s, from, CharClass::Whitespace) ==> #[trigger] s[k] == ' '
                || s[k] == '\t' || s[k] == '\r',
        from + run_len(s, from, CharClass::Whitespace) < s.len() ==> !(s[from + run_len(
            s,
            from,
            CharClass::Whitespace,
        )] == ' ' || s[from + run_len(s, from, CharClass::Whitespace)] == '\t' || s[from
            + run_len(s, from, CharClass::Whitespace)] == '\r'),
        (forall|k: int| from <= k < s.len() ==> #[trigger] s[k] == ' ' || s[k] == '\t' || s[k] == '\r')
            ==> from + run_len(s, from, CharClass::Whitespace) == s.len(),
    decreases s.len() - from,
{
    if from < s.len() && class_holds(CharClass::Whitespace, s[from]) {
        lemma_whitespace_run(s, from + 1);
    }
}

/// A carriage return is never reported as an unknown character: whatever
/// the text, no message of the lexer is about a carriage return.
pub proof fn lemma_no_carriage_return_message<FileId>(s: Seq<char>, i: int, file_id: FileId)
    requires
        0 <= i,
    ensures
        forall|k: int|
            0 <= k < messages_from(s, i, file_id).len() ==> (#[trigger] messages_from(s, i, file_id)[k]).kind
                != MessageKind::Lexer(LexerMessage::UnknownCharacter('\r')),
    decreases s.len() - i,
{
    if i < s.len() {
        lemma_token_end_bounds(s, i);
        let e = token_end(s, i);
        lemma_no_carriage_return_message(s, e, file_id);
        if s[i] == '\r' {
            lemma_carriage_return_is_whitespace(s, i);
        }
        let rest = messages_from(s, e, file_id);
        match lexer_message_at(s, i, file_id) {
            Some(m) => {
                assert(messages_from(s, i, file_id) == seq![m] + rest);
                assert forall|k: int| 0 <= k < messages_from(s, i, file_id).len() implies (
                #[trigger] messages_from(s, i, file_id)[k]).kind != MessageKind::Lexer(
                    LexerMessage::UnknownCharacter('\r'),
                ) by {
                    if k > 0 {
                        assert(messages_from(s, i, file_id)[k] == rest[k - 1]);
                    }
                }
            },
            None => {},
        }
    }
}

/// A text made only of spaces, tabs and carriage returns is one
/// `Whitespace` token, and the lexer reports nothing about it.
pub proof fn lemma_blank_text<FileId>(s: Seq<char>, file_id: FileId)
    requires
        s.len() > 0,
        forall|k: int| 0 <= k < s.len() ==> #[trigger] s[k] == ' ' || s[k] == '\t' || s[k] == '\r',
    ensures
        lex(s) == seq![(SyntaxKind::Whitespace, 0int, s.len() as int)],
        messages_from(s, 0, file_id).len() == 0,
{
    lemma_whitespace_run(s, 1);
    assert(s[0] == ' ' || s[0] == '\t' || s[0] == '\r');
    assert(token_at(s, 0) == (SyntaxKind::Whitespace, s.len() as int));
    assert(lex_from(s, s.len() as int) == Seq::<(SyntaxKind, int, int)>::empty());
    assert(lex(s) =~= seq![(SyntaxKind::Whitespace, 0int, s.len() as int)]);
    assert(messages_from(s, s.len() as int, file_id).len() == 0);
}

/// The texts of the given tokens of `s`, one after the other.
pub open spec fn concat_texts(s: Seq<char>, toks: Seq<(SyntaxKind, int, int)>) -> Seq<char>
    decreases toks.len(),
{
    if toks.len() == 0 {
        Seq::empty()
    } else {
        s.subrange(toks[0].1, toks[0].2) + concat_texts(s, toks.drop_first())
    }
}

/// The tokens from index `i` on cover the rest of the text without gap or
/// overlap: each token is non-empty, starts where the previous one ended,
/// and is the token that [`token_at`] gives for its start; the first one
/// starts at `i` and the last one ends at the end of the text.
pub proof fn lemma_lex_from_shape(s: Seq<char>, i: int)
    requires
        0 <= i <= s.len(),
    ensures
        ({
            let t = lex_from(s, i);
            &&& (t.len() == 0 <==> i == s.len())
            &&& t.len() > 0 ==> t[0].1 == i && t.last().2 == s.len()
            &&& forall|k: int|
                0 <= k < t.len() ==> i <= #[trigger] t[k].1 < t[k].2 <= s.len() && t[k].0
                    == token_kind(s, t[k].1) && t[k].2 == token_end(s, t[k].1)
            &&& forall|k: int| 0 <= k < t.len() - 1 ==> #[trigger] t[k].2 == t[k + 1].1
        }),
    decreases s.len() - i,
{
    if i < s.len() {
        lemma_token_end_bounds(s, i);
        let e = token_end(s, i);
        lemma_lex_from_shape(s, e);
        let t = lex_from(s, i);
        let rest = lex_from(s, e);
        assert(t == seq![(token_kind(s, i), i, e)] + rest);
        assert forall|k: int| 0 <= k < t.len() implies i <= #[trigger] t[k].1 < t[k].2 <= s.len()
            && t[k].0 == token_kind(s, t[k].1) && t[k].2 == token_end(s, t[k].1) by {
            if k > 0 {
                assert(t[k] == rest[k - 1]);
            }
        }
        assert forall|k: int| 0 <= k < t.len() - 1 implies #[trigger] t[k].2 == t[k + 1].1 by {
            assert(t[k + 1] == rest[k]);
            if k > 0 {
                assert(t[k] == rest[k - 1]);
            }
        }
    }
}

/// The lexer never makes a token of the root kind.
pub proof fn lemma_token_kind_not_root(s: Seq<char>, i: int)
    requires
        0 <= i < s.len(),
    ensures
        token_kind(s, i) != SyntaxKind::Root,
{
    let c = s[i];
    if !(c == '\n' || c == '#' || is_whitespace_spec(c)) && is_symbol_char_spec(c) {
        assert(symbol_for_char(c) is Some);
    }
}

/// No token of a text is of the root kind.
pub proof fn lemma_lex_not_root(s: Seq<char>)
    ensures
        forall|k: int| 0 <= k < lex(s).len() ==> (#[trigger] lex(s)[k]).0 != SyntaxKind::Root,
{
    lemma_lex_from_shape(s, 0);
    assert forall|k: int| 0 <= k < lex(s).len() implies (#[trigger] lex(s)[k]).0 != SyntaxKind::Root by {
        lemma_token_kind_not_root(s, lex(s)[k].1);
    }
}

/// The lexer reports only unknown characters.
pub proof fn lemma_messages_from_unknown<FileId>(s: Seq<char>, i: int, file_id: FileId)
    ensures
        forall|k: int|
            0 <= k < messages_from(s, i, file_id).len() ==> (#[trigger] messages_from(
                s,
                i,
                file_id,
            )[k]).kind matches MessageKind::Lexer(LexerMessage::UnknownCharacter(_)),
    decreases s.len() - i,
{
    if 0 <= i < s.len() {
        let e = token_end(s, i);
        if i < e <= s.len() {
            lemma_messages_from_unknown(s, e, file_id);
            let rest = messages_from(s, e, file_id);
            match lexer_message_at(s, i, file_id) {
                Some(m) => {
                    assert forall|k: int| 0 <= k < messages_from(s, i, file_id).len() implies (
                    #[trigger] messages_from(s, i, file_id)[k]).kind matches MessageKind::Lexer(
                        LexerMessage::UnknownCharacter(_),
                    ) by {
                        if k > 0 {
                            assert(messages_from(s, i, file_id)[k] == rest[k - 1]);
                        }
                    }
                },
                None => {},
            }
        }
    }
}

/// Lexing is lossless: the texts of the tokens from index `i` on, one after
/// the other, are the rest of the text.
pub proof fn lemma_lex_from_lossless(s: Seq<char>, i: int)
    requires
        0 <= i <= s.len(),
    ensures
        concat_texts(s, lex_from(s, i)) == s.subrange(i, s.len() as int),
    decreases s.len() - i,
{
    if i == s.len() {
        assert(s.subrange(i, s.len() as int) =~= Seq::<char>::empty());
    } else {
        lemma_token_end_bounds(s, i);
        let e = token_end(s, i);
        lemma_lex_from_lossless(s, e);
        let t = lex_from(s, i);
        assert(t.drop_first() =~= lex_from(s, e));
        assert(s.subrange(i, e) + s.subrange(e, s.len() as int) =~= s.subrange(i, s.len() as int));
    }
}

/// Lexing is lossless: the texts of the tokens of a text, one after the
/// other, give back the text exactly.
pub proof fn lemma_lex_lossless(s: Seq<char>)
    ensures
        concat_texts(s, lex(s)) == s,
{
    lemma_lex_from_lossless(s, 0);
    assert(s.subrange(0, s.len() as int) =~= s);
}

/// A token and the triple (kind, start index, end index) of the text `s`
/// agree: same kind, the text between the two indexes, and the byte range
/// between their offsets.
pub open spec fn token_matches(t: Token, s: Seq<char>, triple: (SyntaxKind, int, int)) -> bool {
    &&& t.kind == triple.0
    &&& t.text@ == s.subrange(triple.1, triple.2)
    &&& t.range.start == byte_offset(s, triple.1)
    &&& t.range.end == byte_offset(s, triple.2)
}

/// Tokenizes the given source text, returning its tokens and the messages
/// reported about them (one per unknown character).
///
/// The tokens are those of [`lex`], in order; by [`lemma_lex_lossless`]
/// their texts give back the source text.
pub fn tokenize<'source, FileId: Copy>(file_id: FileId, source: &'source str) -> (r: (
    Vec<Token<'source>>,
    Vec<Message<FileId>>,
))
    ensures
        r.0@.len() == lex(source@).len(),
        forall|k: int| 0 <= k < r.0@.len() ==> token_matches(#[trigger] r.0@[k], source@, lex(source@)[k]),
        r.1@ == messages_from(source@, 0, file_id),
        r.1@.len() == count_unknown(lex(source@)),
        forall|k: int|
            0 <= k < r.1@.len() ==> (#[trigger] r.1@[k]).kind != MessageKind::Lexer(
                LexerMessage::UnknownCharacter('\r'),
            ),
        forall|k: int|
            0 <= k < r.0@.len() && (#[trigger] r.0@[k]).text@.len() > 0 && r.0@[k].text@[0] == '\r'
                ==> r.0@[k].kind == SyntaxKind::Whitespace,
{
    let ghost s = source@;
    proof {
        lemma_message_count(s, file_id);
        lemma_no_carriage_return_message(s, 0, file_id);
    }
    let mut lexer = Lexer::new(file_id, source);
    let mut tokens: Vec<Token<'source>> = Vec::new();
    let mut messages: Vec<Message<FileId>> = Vec::new();
    let ghost mut done: Seq<(SyntaxKind, int, int)> = Seq::empty();
    proof {
        lemma_lex_from_shape(s, 0);
        assert(done + lex_from(s, 0) =~= lex(s));
        assert(messages@ + messages_from(s, 0, file_id) =~= messages_from(s, 0, file_id));
    }
    loop
        invariant
            lexer.wf(),
            lexer@.text == s,
            lexer@.file_id == file_id,
            lexer@.index <= s.len(),
            done + lex_from(s, lexer@.index as int) == lex(s),
            tokens@.len() == done.len(),
            forall|k: int| 0 <= k < tokens@.len() ==> token_matches(#[trigger] tokens@[k], s, done[k]),
            messages@ + messages_from(s, lexer@.index as int, file_id) == messages_from(s, 0, file_id),
        ensures
            done == lex(s),
            tokens@.len() == done.len(),
            forall|k: int| 0 <= k < tokens@.len() ==> token_matches(#[trigger] tokens@[k], s, done[k]),
            messages@ == messages_from(s, 0, file_id),
        decreases s.len() - lexer@.index,
    {
        let ghost i = lexer@.index as int;
        match lexer.next() {
            Some((token, message)) => {
                proof {
                    lemma_token_end_bounds(s, i);
                    let e = token_end(s, i);
                    let triple = (token_kind(s, i), i, e);
                    assert(lex_from(s, i) == seq![triple] + lex_from(s, e));
                    assert(done.push(triple) + lex_from(s, e) =~= done + lex_from(s, i));
                    done = done.push(triple);
                }
                tokens.push(token);
                match message {
                    Some(m) => {
                        proof {
                            assert(messages@.push(m) + messages_from(s, lexer@.index as int, file_id)
                                =~= messages@ + messages_from(s, i, file_id));
                        }
                        messages.push(m);
                    },
                    None => {},
                }
            },
            None => {
                proof {
                    assert(done =~= lex(s));
                    assert(messages@ =~= messages_from(s, 0, file_id));
                }
                break;
            },
        }
    }
    proof {
        lemma_lex_from_shape(s, 0);
        assert forall|k: int|
            0 <= k < tokens@.len() && (#[trigger] tokens@[k]).text@.len() > 0 && tokens@[k].text@[0]
                == '\r' implies tokens@[k].kind == SyntaxKind::Whitespace by {
            let t = lex(s)[k];
            assert(token_matches(tokens@[k], s, t));
            assert(tokens@[k].text@[0] == s[t.1]);
            lemma_carriage_return_is_whitespace(s, t.1);
        }
    }
    (tokens, messages)
}

} // verus!
