//! The kinds of nodes and tokens of the Helios grammar, and what can be said
//! of each kind in human-readable terms.

use vstd::prelude::*;
use vstd::string::*;

use crate::human::{lemma_repr_plain_text, Article, HumanReadableRepr, ReprView};
use crate::formatting::rendered_segments;

verus! {

/// All the possible nodes and tokens defined in the Helios grammar.
///
/// The order of the variants matters: each kind has a raw number (its
/// position in this list), and the keyword, symbol, literal and expression
/// kinds occupy contiguous ranges of raw numbers.
#[allow(non_camel_case_types)]
#[derive(Debug, Clone, Copy, PartialEq, Eq, Hash, PartialOrd, Ord, Structural)]
pub enum SyntaxKind {
    Kwd_And,
    Kwd_As,
    Kwd_Case,
    Kwd_Else,
    Kwd_Enum,
    Kwd_For,
    Kwd_Forall,
    Kwd_Func,
    Kwd_If,
    Kwd_Impl,
    Kwd_Import,
    Kwd_In,
    Kwd_Iter,
    Kwd_Let,
    Kwd_Module,
    Kwd_Not,
    Kwd_Of,
    Kwd_Or,
    Kwd_Range,
    Kwd_Record,
    Kwd_Type,
    Kwd_Var,
    Kwd_While,
    Kwd_With,
    Kwd_Yield,
    Sym_Ampersand,
    Sym_Asterisk,
    Sym_At,
    Sym_BackSlash,
    Sym_Bang,
    Sym_BangEq,
    Sym_Caret,
    Sym_Colon,
    Sym_Comma,
    Sym_Dollar,
    Sym_Dot,
    Sym_EmDash,
    Sym_EnDash,
    Sym_Eq,
    Sym_ForwardSlash,
    Sym_Minus,
    Sym_Percent,
    Sym_Pipe,
    Sym_Plus,
    Sym_Question,
    Sym_Semicolon,
    Sym_Sterling,
    Sym_Tilde,
    Sym_Lt,
    Sym_LtEq,
    Sym_Gt,
    Sym_GtEq,
    Sym_LThinArrow,
    Sym_RThinArrow,
    Sym_ThickArrow,
    Sym_Walrus,
    Sym_LBrace,
    Sym_RBrace,
    Sym_LBracket,
    Sym_RBracket,
    Sym_LParen,
    Sym_RParen,
    Lit_Character,
    Lit_Float,
    Lit_Integer,
    Lit_String,
    Exp_Binary,
    Exp_Indented,
    Exp_Literal,
    Exp_Paren,
    Exp_UnaryPrefix,
    Exp_UnaryPostfix,
    Exp_VariableRef,
    Exp_Unnamed,
    Dec_GlobalBinding,
    Comment,
    DocComment,
    Whitespace,
    Indent,
    Dedent,
    Newline,
    Identifier,
    ReservedIdentifier,
    Placeholder,
    UnknownChar,
    Error,
    Root,
}

/// The view of an optional owned string: the characters it holds, if any.
pub open spec fn opt_chars(o: Option<String>) -> Option<Seq<char>> {
    match o {
        Some(s) => Some(s@),
        None => None,
    }
}

/// The number of kinds in the grammar (the raw number of the last kind, plus one).
pub const SYNTAX_KIND_COUNT: u16 = 87;

impl SyntaxKind {
    /// The raw number of the kind: its position in the declaration order.
    pub open spec fn raw_spec(self) -> u16 {
        match self {
            SyntaxKind::Kwd_And => 0,
            SyntaxKind::Kwd_As => 1,
            SyntaxKind::Kwd_Case => 2,
            SyntaxKind::Kwd_Else => 3,
            SyntaxKind::Kwd_Enum => 4,
            SyntaxKind::Kwd_For => 5,
            SyntaxKind::Kwd_Forall => 6,
            SyntaxKind::Kwd_Func => 7,
            SyntaxKind::Kwd_If => 8,
            SyntaxKind::Kwd_Impl => 9,
            SyntaxKind::Kwd_Import => 10,
            SyntaxKind::Kwd_In => 11,
            SyntaxKind::Kwd_Iter => 12,
            SyntaxKind::Kwd_Let => 13,
            SyntaxKind::Kwd_Module => 14,
            SyntaxKind::Kwd_Not => 15,
            SyntaxKind::Kwd_Of => 16,
            SyntaxKind::Kwd_Or => 17,
            SyntaxKind::Kwd_Range => 18,
            SyntaxKind::Kwd_Record => 19,
            SyntaxKind::Kwd_Type => 20,
            SyntaxKind::Kwd_Var => 21,
            SyntaxKind::Kwd_While => 22,
            SyntaxKind::Kwd_With => 23,
            SyntaxKind::Kwd_Yield => 24,
            SyntaxKind::Sym_Ampersand => 25,
            SyntaxKind::Sym_Asterisk => 26,
            SyntaxKind::Sym_At => 27,
            SyntaxKind::Sym_BackSlash => 28,
            SyntaxKind::Sym_Bang => 29,
            SyntaxKind::Sym_BangEq => 30,
            SyntaxKind::Sym_Caret => 31,
            SyntaxKind::Sym_Colon => 32,
            SyntaxKind::Sym_Comma => 33,
            SyntaxKind::Sym_Dollar => 34,
            SyntaxKind::Sym_Dot => 35,
            SyntaxKind::Sym_EmDash => 36,
            SyntaxKind::Sym_EnDash => 37,
            SyntaxKind::Sym_Eq => 38,
            SyntaxKind::Sym_ForwardSlash => 39,
            SyntaxKind::Sym_Minus => 40,
            SyntaxKind::Sym_Percent => 41,
            SyntaxKind::Sym_Pipe => 42,
            SyntaxKind::Sym_Plus => 43,
            SyntaxKind::Sym_Question => 44,
            SyntaxKind::Sym_Semicolon => 45,
            SyntaxKind::Sym_Sterling => 46,
            SyntaxKind::Sym_Tilde => 47,
            SyntaxKind::Sym_Lt => 48,
            SyntaxKind::Sym_LtEq => 49,
            SyntaxKind::Sym_Gt => 50,
            SyntaxKind::Sym_GtEq => 51,
            SyntaxKind::Sym_LThinArrow => 52,
            SyntaxKind::Sym_RThinArrow => 53,
            SyntaxKind::Sym_ThickArrow => 54,
            SyntaxKind::Sym_Walrus => 55,
            SyntaxKind::Sym_LBrace => 56,
            SyntaxKind::Sym_RBrace => 57,
            SyntaxKind::Sym_LBracket => 58,
            SyntaxKind::Sym_RBracket => 59,
            SyntaxKind::Sym_LParen => 60,
            SyntaxKind::Sym_RParen => 61,
            SyntaxKind::Lit_Character => 62,
            SyntaxKind::Lit_Float => 63,
            SyntaxKind::Lit_Integer => 64,
            SyntaxKind::Lit_String => 65,
            SyntaxKind::Exp_Binary => 66,
            SyntaxKind::Exp_Indented => 67,
            SyntaxKind::Exp_Literal => 68,
            SyntaxKind::Exp_Paren => 69,
            SyntaxKind::Exp_UnaryPrefix => 70,
            SyntaxKind::Exp_UnaryPostfix => 71,
            SyntaxKind::Exp_VariableRef => 72,
            SyntaxKind::Exp_Unnamed => 73,
            SyntaxKind::Dec_GlobalBinding => 74,
            SyntaxKind::Comment => 75,
            SyntaxKind::DocComment => 76,
            SyntaxKind::Whitespace => 77,
            SyntaxKind::Indent => 78,
            SyntaxKind::Dedent => 79,
            SyntaxKind::Newline => 80,
            SyntaxKind::Identifier => 81,
            SyntaxKind::ReservedIdentifier => 82,
            SyntaxKind::Placeholder => 83,
            SyntaxKind::UnknownChar => 84,
            SyntaxKind::Error => 85,
            SyntaxKind::Root => 86,
        }
    }

    /// The kind whose raw number is `raw`, if there is one.
    pub open spec fn from_raw_spec(raw: u16) -> Option<SyntaxKind> {
        if raw == 0 { Some(SyntaxKind::Kwd_And) }
        else if raw == 1 { Some(SyntaxKind::Kwd_As) }
        else if raw == 2 { Some(SyntaxKind::Kwd_Case) }
        else if raw == 3 { Some(SyntaxKind::Kwd_Else) }
        else if raw == 4 { Some(SyntaxKind::Kwd_Enum) }
        else if raw == 5 { Some(SyntaxKind::Kwd_For) }
        else if raw == 6 { Some(SyntaxKind::Kwd_Forall) }
        else if raw == 7 { Some(SyntaxKind::Kwd_Func) }
        else if raw == 8 { Some(SyntaxKind::Kwd_If) }
        else if raw == 9 { Some(SyntaxKind::Kwd_Impl) }
        else if raw == 10 { Some(SyntaxKind::Kwd_Import) }
        else if raw == 11 { Some(SyntaxKind::Kwd_In) }
        else if raw == 12 { Some(SyntaxKind::Kwd_Iter) }
        else if raw == 13 { Some(SyntaxKind::Kwd_Let) }
        else if raw == 14 { Some(SyntaxKind::Kwd_Module) }
        else if raw == 15 { Some(SyntaxKind::Kwd_Not) }
        else if raw == 16 { Some(SyntaxKind::Kwd_Of) }
        else if raw == 17 { Some(SyntaxKind::Kwd_Or) }
        else if raw == 18 { Some(SyntaxKind::Kwd_Range) }
        else if raw == 19 { Some(SyntaxKind::Kwd_Record) }
        else if raw == 20 { Some(SyntaxKind::Kwd_Type) }
        else if raw == 21 { Some(SyntaxKind::Kwd_Var) }
        else if raw == 22 { Some(SyntaxKind::Kwd_While) }
        else if raw == 23 { Some(SyntaxKind::Kwd_With) }
        else if raw == 24 { Some(SyntaxKind::Kwd_Yield) }
        else if raw == 25 { Some(SyntaxKind::Sym_Ampersand) }
        else if raw == 26 { Some(SyntaxKind::Sym_Asterisk) }
        else if raw == 27 { Some(SyntaxKind::Sym_At) }
        else if raw == 28 { Some(SyntaxKind::Sym_BackSlash) }
        else if raw == 29 { Some(SyntaxKind::Sym_Bang) }
        else if raw == 30 { Some(SyntaxKind::Sym_BangEq) }
        else if raw == 31 { Some(SyntaxKind::Sym_Caret) }
        else if raw == 32 { Some(SyntaxKind::Sym_Colon) }
        else if raw == 33 { Some(SyntaxKind::Sym_Comma) }
        else if raw == 34 { Some(SyntaxKind::Sym_Dollar) }
        else if raw == 35 { Some(SyntaxKind::Sym_Dot) }
        else if raw == 36 { Some(SyntaxKind::Sym_EmDash) }
        else if raw == 37 { Some(SyntaxKind::Sym_EnDash) }
        else if raw == 38 { Some(SyntaxKind::Sym_Eq) }
        else if raw == 39 { Some(SyntaxKind::Sym_ForwardSlash) }
        else if raw == 40 { Some(SyntaxKind::Sym_Minus) }
        else if raw == 41 { Some(SyntaxKind::Sym_Percent) }
        else if raw == 42 { Some(SyntaxKind::Sym_Pipe) }
        else if raw == 43 { Some(SyntaxKind::Sym_Plus) }
        else if raw == 44 { Some(SyntaxKind::Sym_Question) }
        else if raw == 45 { Some(SyntaxKind::Sym_Semicolon) }
        else if raw == 46 { Some(SyntaxKind::Sym_Sterling) }
        else if raw == 47 { Some(SyntaxKind::Sym_Tilde) }
        else if raw == 48 { Some(SyntaxKind::Sym_Lt) }
        else if raw == 49 { Some(SyntaxKind::Sym_LtEq) }
        else if raw == 50 { Some(SyntaxKind::Sym_Gt) }
        else if raw == 51 { Some(SyntaxKind::Sym_GtEq) }
        else if raw == 52 { Some(SyntaxKind::Sym_LThinArrow) }
        else if raw == 53 { Some(SyntaxKind::Sym_RThinArrow) }
        else if raw == 54 { Some(SyntaxKind::Sym_ThickArrow) }
        else if raw == 55 { Some(SyntaxKind::Sym_Walrus) }
        else if raw == 56 { Some(SyntaxKind::Sym_LBrace) }
        else if raw == 57 { Some(SyntaxKind::Sym_RBrace) }
        else if raw == 58 { Some(SyntaxKind::Sym_LBracket) }
        else if raw == 59 { Some(SyntaxKind::Sym_RBracket) }
        else if raw == 60 { Some(SyntaxKind::Sym_LParen) }
        else if raw == 61 { Some(SyntaxKind::Sym_RParen) }
        else if raw == 62 { Some(SyntaxKind::Lit_Character) }
        else if raw == 63 { Some(SyntaxKind::Lit_Float) }
        else if raw == 64 { Some(SyntaxKind::Lit_Integer) }
        else if raw == 65 { Some(SyntaxKind::Lit_String) }
        else if raw == 66 { Some(SyntaxKind::Exp_Binary) }
        else if raw == 67 { Some(SyntaxKind::Exp_Indented) }
        else if raw == 68 { Some(SyntaxKind::Exp_Literal) }
        else if raw == 69 { Some(SyntaxKind::Exp_Paren) }
        else if raw == 70 { Some(SyntaxKind::Exp_UnaryPrefix) }
        else if raw == 71 { Some(SyntaxKind::Exp_UnaryPostfix) }
        else if raw == 72 { Some(SyntaxKind::Exp_VariableRef) }
        else if raw == 73 { Some(SyntaxKind::Exp_Unnamed) }
        else if raw == 74 { Some(SyntaxKind::Dec_GlobalBinding) }
        else if raw == 75 { Some(SyntaxKind::Comment) }
        else if raw == 76 { Some(SyntaxKind::DocComment) }
        else if raw == 77 { Some(SyntaxKind::Whitespace) }
        else if raw == 78 { Some(SyntaxKind::Indent) }
        else if raw == 79 { Some(SyntaxKind::Dedent) }
        else if raw == 80 { Some(SyntaxKind::Newline) }
        else if raw == 81 { Some(SyntaxKind::Identifier) }
        else if raw == 82 { Some(SyntaxKind::ReservedIdentifier) }
        else if raw == 83 { Some(SyntaxKind::Placeholder) }
        else if raw == 84 { Some(SyntaxKind::UnknownChar) }
        else if raw == 85 { Some(SyntaxKind::Error) }
        else if raw == 86 { Some(SyntaxKind::Root) }
        else { None }
    }

    /// Returns the raw number of the kind (its position in the declaration
    /// order of [`SyntaxKind`]).
    pub fn to_raw(self) -> (raw: u16)
        ensures
            raw == self.raw_spec(),
            raw < SYNTAX_KIND_COUNT,
    {
        match self {
            SyntaxKind::Kwd_And => 0,
            SyntaxKind::Kwd_As => 1,
            SyntaxKind::Kwd_Case => 2,
            SyntaxKind::Kwd_Else => 3,
            SyntaxKind::Kwd_Enum => 4,
            SyntaxKind::Kwd_For => 5,
            SyntaxKind::Kwd_Forall => 6,
            SyntaxKind::Kwd_Func => 7,
            SyntaxKind::Kwd_If => 8,
            SyntaxKind::Kwd_Impl => 9,
            SyntaxKind::Kwd_Import => 10,
            SyntaxKind::Kwd_In => 11,
            SyntaxKind::Kwd_Iter => 12,
            SyntaxKind::Kwd_Let => 13,
            SyntaxKind::Kwd_Module => 14,
            SyntaxKind::Kwd_Not => 15,
            SyntaxKind::Kwd_Of => 16,
            SyntaxKind::Kwd_Or => 17,
            SyntaxKind::Kwd_Range => 18,
            SyntaxKind::Kwd_Record => 19,
            SyntaxKind::Kwd_Type => 20,
            SyntaxKind::Kwd_Var => 21,
            SyntaxKind::Kwd_While => 22,
            SyntaxKind::Kwd_With => 23,
            SyntaxKind::Kwd_Yield => 24,
            SyntaxKind::Sym_Ampersand => 25,
            SyntaxKind::Sym_Asterisk => 26,
            SyntaxKind::Sym_At => 27,
            SyntaxKind::Sym_BackSlash => 28,
            SyntaxKind::Sym_Bang => 29,
            SyntaxKind::Sym_BangEq => 30,
            SyntaxKind::Sym_Caret => 31,
            SyntaxKind::Sym_Colon => 32,
            SyntaxKind::Sym_Comma => 33,
            SyntaxKind::Sym_Dollar => 34,
            SyntaxKind::Sym_Dot => 35,
            SyntaxKind::Sym_EmDash => 36,
            SyntaxKind::Sym_EnDash => 37,
            SyntaxKind::Sym_Eq => 38,
            SyntaxKind::Sym_ForwardSlash => 39,
            SyntaxKind::Sym_Minus => 40,
            SyntaxKind::Sym_Percent => 41,
            SyntaxKind::Sym_Pipe => 42,
            SyntaxKind::Sym_Plus => 43,
            SyntaxKind::Sym_Question => 44,
            SyntaxKind::Sym_Semicolon => 45,
            SyntaxKind::Sym_Sterling => 46,
            SyntaxKind::Sym_Tilde => 47,
            SyntaxKind::Sym_Lt => 48,
            SyntaxKind::Sym_LtEq => 49,
            SyntaxKind::Sym_Gt => 50,
            SyntaxKind::Sym_GtEq => 51,
            SyntaxKind::Sym_LThinArrow => 52,
            SyntaxKind::Sym_RThinArrow => 53,
            SyntaxKind::Sym_ThickArrow => 54,
            SyntaxKind::Sym_Walrus => 55,
            SyntaxKind::Sym_LBrace => 56,
            SyntaxKind::Sym_RBrace => 57,
            SyntaxKind::Sym_LBracket => 58,
            SyntaxKind::Sym_RBracket => 59,
            SyntaxKind::Sym_LParen => 60,
            SyntaxKind::Sym_RParen => 61,
            SyntaxKind::Lit_Character => 62,
            SyntaxKind::Lit_Float => 63,
            SyntaxKind::Lit_Integer => 64,
            SyntaxKind::Lit_String => 65,
            SyntaxKind::Exp_Binary => 66,
            SyntaxKind::Exp_Indented => 67,
            SyntaxKind::Exp_Literal => 68,
            SyntaxKind::Exp_Paren => 69,
            SyntaxKind::Exp_UnaryPrefix => 70,
            SyntaxKind::Exp_UnaryPostfix => 71,
            SyntaxKind::Exp_VariableRef => 72,
            SyntaxKind::Exp_Unnamed => 73,
            SyntaxKind::Dec_GlobalBinding => 74,
            SyntaxKind::Comment => 75,
            SyntaxKind::DocComment => 76,
            SyntaxKind::Whitespace => 77,
            SyntaxKind::Indent => 78,
            SyntaxKind::Dedent => 79,
            SyntaxKind::Newline => 80,
            SyntaxKind::Identifier => 81,
            SyntaxKind::ReservedIdentifier => 82,
            SyntaxKind::Placeholder => 83,
            SyntaxKind::UnknownChar => 84,
            SyntaxKind::Error => 85,
            SyntaxKind::Root => 86,
        }
    }

    /// Returns the kind with the given raw number, or `None` if no kind has it.
    pub fn from_raw(raw: u16) -> (kind: Option<SyntaxKind>)
        ensures
            kind == Self::from_raw_spec(raw),
            kind is Some <==> raw < SYNTAX_KIND_COUNT,
            kind matches Some(k) ==> k.raw_spec() == raw,
    {
        match raw {
            0 => Some(SyntaxKind::Kwd_And),
            1 => Some(SyntaxKind::Kwd_As),
            2 => Some(SyntaxKind::Kwd_Case),
            3 => Some(SyntaxKind::Kwd_Else),
            4 => Some(SyntaxKind::Kwd_Enum),
            5 => Some(SyntaxKind::Kwd_For),
            6 => Some(SyntaxKind::Kwd_Forall),
            7 => Some(SyntaxKind::Kwd_Func),
            8 => Some(SyntaxKind::Kwd_If),
            9 => Some(SyntaxKind::Kwd_Impl),
            10 => Some(SyntaxKind::Kwd_Import),
            11 => Some(SyntaxKind::Kwd_In),
            12 => Some(SyntaxKind::Kwd_Iter),
            13 => Some(SyntaxKind::Kwd_Let),
            14 => Some(SyntaxKind::Kwd_Module),
            15 => Some(SyntaxKind::Kwd_Not),
            16 => Some(SyntaxKind::Kwd_Of),
            17 => Some(SyntaxKind::Kwd_Or),
            18 => Some(SyntaxKind::Kwd_Range),
            19 => Some(SyntaxKind::Kwd_Record),
            20 => Some(SyntaxKind::Kwd_Type),
            21 => Some(SyntaxKind::Kwd_Var),
            22 => Some(SyntaxKind::Kwd_While),
            23 => Some(SyntaxKind::Kwd_With),
            24 => Some(SyntaxKind::Kwd_Yield),
            25 => Some(SyntaxKind::Sym_Ampersand),
            26 => Some(SyntaxKind::Sym_Asterisk),
            27 => Some(SyntaxKind::Sym_At),
            28 => Some(SyntaxKind::Sym_BackSlash),
            29 => Some(SyntaxKind::Sym_Bang),
            30 => Some(SyntaxKind::Sym_BangEq),
            31 => Some(SyntaxKind::Sym_Caret),
            32 => Some(SyntaxKind::Sym_Colon),
            33 => Some(SyntaxKind::Sym_Comma),
            34 => Some(SyntaxKind::Sym_Dollar),
            35 => Some(SyntaxKind::Sym_Dot),
            36 => Some(SyntaxKind::Sym_EmDash),
            37 => Some(SyntaxKind::Sym_EnDash),
            38 => Some(SyntaxKind::Sym_Eq),
            39 => Some(SyntaxKind::Sym_ForwardSlash),
            40 => Some(SyntaxKind::Sym_Minus),
            41 => Some(SyntaxKind::Sym_Percent),
            42 => Some(SyntaxKind::Sym_Pipe),
            43 => Some(SyntaxKind::Sym_Plus),
            44 => Some(SyntaxKind::Sym_Question),
            45 => Some(SyntaxKind::Sym_Semicolon),
            46 => Some(SyntaxKind::Sym_Sterling),
            47 => Some(SyntaxKind::Sym_Tilde),
            48 => Some(SyntaxKind::Sym_Lt),
            49 => Some(SyntaxKind::Sym_LtEq),
            50 => Some(SyntaxKind::Sym_Gt),
            51 => Some(SyntaxKind::Sym_GtEq),
            52 => Some(SyntaxKind::Sym_LThinArrow),
            53 => Some(SyntaxKind::Sym_RThinArrow),
            54 => Some(SyntaxKind::Sym_ThickArrow),
            55 => Some(SyntaxKind::Sym_Walrus),
            56 => Some(SyntaxKind::Sym_LBrace),
            57 => Some(SyntaxKind::Sym_RBrace),
            58 => Some(SyntaxKind::Sym_LBracket),
            59 => Some(SyntaxKind::Sym_RBracket),
            60 => Some(SyntaxKind::Sym_LParen),
            61 => Some(SyntaxKind::Sym_RParen),
            62 => Some(SyntaxKind::Lit_Character),
            63 => Some(SyntaxKind::Lit_Float),
            64 => Some(SyntaxKind::Lit_Integer),
            65 => Some(SyntaxKind::Lit_String),
            66 => Some(SyntaxKind::Exp_Binary),
            67 => Some(SyntaxKind::Exp_Indented),
            68 => Some(SyntaxKind::Exp_Literal),
            69 => Some(SyntaxKind::Exp_Paren),
            70 => Some(SyntaxKind::Exp_UnaryPrefix),
            71 => Some(SyntaxKind::Exp_UnaryPostfix),
            72 => Some(SyntaxKind::Exp_VariableRef),
            73 => Some(SyntaxKind::Exp_Unnamed),
            74 => Some(SyntaxKind::Dec_GlobalBinding),
            75 => Some(SyntaxKind::Comment),
            76 => Some(SyntaxKind::DocComment),
            77 => Some(SyntaxKind::Whitespace),
            78 => Some(SyntaxKind::Indent),
            79 => Some(SyntaxKind::Dedent),
            80 => Some(SyntaxKind::Newline),
            81 => Some(SyntaxKind::Identifier),
            82 => Some(SyntaxKind::ReservedIdentifier),
            83 => Some(SyntaxKind::Placeholder),
            84 => Some(SyntaxKind::UnknownChar),
            85 => Some(SyntaxKind::Error),
            86 => Some(SyntaxKind::Root),
            _ => None,
        }
    }

    /// Keywords occupy the raw numbers from `Kwd_And` to `Kwd_Yield`.
    pub open spec fn is_keyword_spec(self) -> bool {
        0 <= self.raw_spec() <= 24
    }

    /// Symbols occupy the raw numbers from `Sym_Ampersand` to `Sym_RParen`.
    pub open spec fn is_symbol_spec(self) -> bool {
        25 <= self.raw_spec() <= 61
    }

    /// Literals occupy the raw numbers from `Lit_Character` to `Lit_String`.
    pub open spec fn is_literal_spec(self) -> bool {
        62 <= self.raw_spec() <= 65
    }

    /// Expressions occupy the raw numbers from `Exp_Binary` to `Exp_Unnamed`.
    pub open spec fn is_expression_spec(self) -> bool {
        66 <= self.raw_spec() <= 73
    }

    pub open spec fn is_trivia_spec(self) -> bool {
        ||| self == SyntaxKind::Comment
        ||| self == SyntaxKind::DocComment
        ||| self == SyntaxKind::Whitespace
        ||| self == SyntaxKind::Newline
    }

    pub open spec fn is_declaration_spec(self) -> bool {
        self == SyntaxKind::Dec_GlobalBinding
    }

    pub open spec fn is_comment_spec(self) -> bool {
        self == SyntaxKind::Comment || self == SyntaxKind::DocComment
    }

    pub open spec fn is_identifier_spec(self) -> bool {
        self == SyntaxKind::Identifier || self == SyntaxKind::ReservedIdentifier
    }

    /// Determines if the kind is a discardable token (syntax trivia).
    pub fn is_trivia(self) -> (r: bool)
        ensures
            r == self.is_trivia_spec(),
    {
        matches!(self, SyntaxKind::Comment | SyntaxKind::DocComment | SyntaxKind::Whitespace | SyntaxKind::Newline)
    }

    /// Determines if the kind is a keyword.
    pub fn is_keyword(self) -> (r: bool)
        ensures
            r == self.is_keyword_spec(),
    {
        let raw = self.to_raw();
        0 <= raw && raw <= 24
    }

    /// Determines if the kind is a symbol.
    pub fn is_symbol(self) -> (r: bool)
        ensures
            r == self.is_symbol_spec(),
    {
        let raw = self.to_raw();
        25 <= raw && raw <= 61
    }

    /// Determines if the kind is a literal.
    pub fn is_literal(self) -> (r: bool)
        ensures
            r == self.is_literal_spec(),
    {
        let raw = self.to_raw();
        62 <= raw && raw <= 65
    }

    /// Determines if the kind is an expression.
    pub fn is_expression(self) -> (r: bool)
        ensures
            r == self.is_expression_spec(),
    {
        let raw = self.to_raw();
        66 <= raw && raw <= 73
    }

    /// Determines if the kind is a declaration.
    pub fn is_declaration(self) -> (r: bool)
        ensures
            r == self.is_declaration_spec(),
    {
        matches!(self, SyntaxKind::Dec_GlobalBinding)
    }

    /// Determines if the kind is a comment.
    pub fn is_comment(self) -> (r: bool)
        ensures
            r == self.is_comment_spec(),
    {
        matches!(self, SyntaxKind::Comment | SyntaxKind::DocComment)
    }

    /// Determines if the kind is an identifier.
    pub fn is_identifier(self) -> (r: bool)
        ensures
            r == self.is_identifier_spec(),
    {
        matches!(self, SyntaxKind::Identifier | SyntaxKind::ReservedIdentifier)
    }

    /// The article that precedes the kind in a sentence.
    pub open spec fn article_spec(self) -> Article {
        if self.is_keyword_spec() {
            Article::The
        } else if self == SyntaxKind::Sym_Ampersand || self == SyntaxKind::Sym_Asterisk || self == SyntaxKind::Sym_At || self == SyntaxKind::Sym_Bang || self == SyntaxKind::Sym_EmDash || self == SyntaxKind::Sym_EnDash || self == SyntaxKind::Sym_Eq || self == SyntaxKind::Sym_LBrace || self == SyntaxKind::Sym_LBracket || self == SyntaxKind::Sym_LParen || self == SyntaxKind::Lit_Integer || self == SyntaxKind::Exp_Indented || self == SyntaxKind::Exp_Unnamed || self == SyntaxKind::Indent || self == SyntaxKind::Identifier || self == SyntaxKind::UnknownChar || self == SyntaxKind::Error {
            Article::An
        } else {
            Article::A
        }
    }

    /// The article that precedes the kind in a sentence: `the` for keywords,
    /// `an` for the kinds whose description starts with a vowel sound, and
    /// `a` for the others.
    pub fn article(self) -> (a: Article)
        ensures
            a == self.article_spec(),
    {
        if self.is_keyword() {
            Article::The
        } else {
            match self {
                SyntaxKind::Sym_Ampersand
                | SyntaxKind::Sym_Asterisk
                | SyntaxKind::Sym_At
                | SyntaxKind::Sym_Bang
                | SyntaxKind::Sym_EmDash
                | SyntaxKind::Sym_EnDash
                | SyntaxKind::Sym_Eq
                | SyntaxKind::Sym_LBrace
                | SyntaxKind::Sym_LBracket
                | SyntaxKind::Sym_LParen
                | SyntaxKind::Lit_Integer
                | SyntaxKind::Exp_Indented
                | SyntaxKind::Exp_Unnamed
                | SyntaxKind::Indent
                | SyntaxKind::Identifier
                | SyntaxKind::UnknownChar
                | SyntaxKind::Error
                    => Article::An,
                _ => Article::A,
            }
        }
    }

    /// The text of [`SyntaxKind::qualifier`], as a sequence of characters.
    pub open spec fn qualifier_spec(self) -> Option<Seq<char>> {
        match self {
            SyntaxKind::Sym_LBrace => Some("opening curly"@),
            SyntaxKind::Sym_RBrace => Some("closing curly"@),
            SyntaxKind::Sym_LBracket => Some("opening square"@),
            SyntaxKind::Sym_RBracket => Some("closing square"@),
            SyntaxKind::Sym_LParen => Some("opening"@),
            SyntaxKind::Sym_RParen => Some("closing"@),
            _ => None,
        }
    }

    /// The qualifier of the kind (such as `opening` for `(`), if it has one.
    pub fn qualifier(self) -> (s: Option<String>)
        ensures
            opt_chars(s) == self.qualifier_spec(),
    {
        match self {
            SyntaxKind::Sym_LBrace => Some(String::from_str("opening curly")),
            SyntaxKind::Sym_RBrace => Some(String::from_str("closing curly")),
            SyntaxKind::Sym_LBracket => Some(String::from_str("opening square")),
            SyntaxKind::Sym_RBracket => Some(String::from_str("closing square")),
            SyntaxKind::Sym_LParen => Some(String::from_str("opening")),
            SyntaxKind::Sym_RParen => Some(String::from_str("closing")),
            _ => None,
        }
    }

    /// The text of [`SyntaxKind::description`], as a sequence of characters.
    pub open spec fn description_spec(self) -> Option<Seq<char>> {
        match self {
            SyntaxKind::Kwd_And => Some("and"@),
            SyntaxKind::Kwd_As => Some("as"@),
            SyntaxKind::Kwd_Case => Some("case"@),
            SyntaxKind::Kwd_Else => Some("else"@),
            SyntaxKind::Kwd_Enum => Some("enum"@),
            SyntaxKind::Kwd_For => Some("for"@),
            SyntaxKind::Kwd_Forall => Some("forall"@),
            SyntaxKind::Kwd_Func => Some("func"@),
            SyntaxKind::Kwd_If => Some("if"@),
            SyntaxKind::Kwd_Impl => Some("impl"@),
            SyntaxKind::Kwd_Import => Some("import"@),
            SyntaxKind::Kwd_In => Some("in"@),
            SyntaxKind::Kwd_Iter => Some("iter"@),
            SyntaxKind::Kwd_Let => Some("let"@),
            SyntaxKind::Kwd_Module => Some("module"@),
            SyntaxKind::Kwd_Not => Some("not"@),
            SyntaxKind::Kwd_Of => Some("of"@),
            SyntaxKind::Kwd_Or => Some("or"@),
            SyntaxKind::Kwd_Range => Some("range"@),
            SyntaxKind::Kwd_Record => Some("record"@),
            SyntaxKind::Kwd_Type => Some("type"@),
            SyntaxKind::Kwd_Var => Some("var"@),
            SyntaxKind::Kwd_While => Some("while"@),
            SyntaxKind::Kwd_With => Some("with"@),
            SyntaxKind::Kwd_Yield => Some("yield"@),
            SyntaxKind::Sym_Ampersand => Some("ampersand"@),
            SyntaxKind::Sym_Asterisk => Some("asterisk"@),
            SyntaxKind::Sym_At => Some("at"@),
            SyntaxKind::Sym_BackSlash => Some("backslash"@),
            SyntaxKind::Sym_Bang => Some("exclamation mark"@),
            SyntaxKind::Sym_BangEq => Some("not equal"@),
            SyntaxKind::Sym_Caret => Some("caret"@),
            SyntaxKind::Sym_Colon => Some("colon"@),
            SyntaxKind::Sym_Comma => Some("comma"@),
            SyntaxKind::Sym_Dollar => Some("dollar"@),
            SyntaxKind::Sym_Dot => Some("dot"@),
            SyntaxKind::Sym_EmDash => Some("em-dash"@),
            SyntaxKind::Sym_EnDash => Some("en-dash"@),
            SyntaxKind::Sym_Eq => Some("equals"@),
            SyntaxKind::Sym_ForwardSlash => Some("forward slash"@),
            SyntaxKind::Sym_Minus => Some("minus"@),
            SyntaxKind::Sym_Percent => Some("percent"@),
            SyntaxKind::Sym_Pipe => Some("pipe"@),
            SyntaxKind::Sym_Plus => Some("plus"@),
            SyntaxKind::Sym_Question => Some("question mark"@),
            SyntaxKind::Sym_Semicolon => Some("semicolon"@),
            SyntaxKind::Sym_Sterling => Some("sterling"@),
            SyntaxKind::Sym_Tilde => Some("tilde"@),
            SyntaxKind::Sym_Lt => Some("less than"@),
            SyntaxKind::Sym_LtEq => Some("less than equal"@),
            SyntaxKind::Sym_Gt => Some("greater than"@),
            SyntaxKind::Sym_GtEq => Some("greater than equal"@),
            SyntaxKind::Sym_LThinArrow => Some("leftwards thin arrow"@),
            SyntaxKind::Sym_RThinArrow => Some("rightwards thin arrow"@),
            SyntaxKind::Sym_ThickArrow => Some("thick arrow"@),
            SyntaxKind::Sym_Walrus => Some("walrus"@),
            SyntaxKind::Sym_LBrace => Some("brace"@),
            SyntaxKind::Sym_RBrace => Some("brace"@),
            SyntaxKind::Sym_LBracket => Some("bracket"@),
            SyntaxKind::Sym_RBracket => Some("bracket"@),
            SyntaxKind::Sym_LParen => Some("parenthesis"@),
            SyntaxKind::Sym_RParen => Some("parenthesis"@),
            SyntaxKind::Lit_Character => Some("character"@),
            SyntaxKind::Lit_Float => Some("float"@),
            SyntaxKind::Lit_Integer => Some("integer"@),
            SyntaxKind::Lit_String => Some("string"@),
            SyntaxKind::Exp_Binary => Some("binary"@),
            SyntaxKind::Exp_Indented => Some("indented"@),
            SyntaxKind::Exp_Literal => Some("literal"@),
            SyntaxKind::Exp_Paren => Some("parenthesized"@),
            SyntaxKind::Exp_UnaryPrefix => Some("prefixed unary"@),
            SyntaxKind::Exp_UnaryPostfix => Some("postfixed unary"@),
            SyntaxKind::Exp_VariableRef => Some("variable reference"@),
            SyntaxKind::Dec_GlobalBinding => Some("global binding"@),
            SyntaxKind::DocComment => Some("documentation"@),
            SyntaxKind::ReservedIdentifier => Some("reserved"@),
            _ => None,
        }
    }

    /// The description of the kind (such as `less than` for `<`), if it has one.
    pub fn description(self) -> (s: Option<String>)
        ensures
            opt_chars(s) == self.description_spec(),
    {
        match self {
            SyntaxKind::Kwd_And => Some(String::from_str("and")),
            SyntaxKind::Kwd_As => Some(String::from_str("as")),
            SyntaxKind::Kwd_Case => Some(String::from_str("case")),
            SyntaxKind::Kwd_Else => Some(String::from_str("else")),
            SyntaxKind::Kwd_Enum => Some(String::from_str("enum")),
            SyntaxKind::Kwd_For => Some(String::from_str("for")),
            SyntaxKind::Kwd_Forall => Some(String::from_str("forall")),
            SyntaxKind::Kwd_Func => Some(String::from_str("func")),
            SyntaxKind::Kwd_If => Some(String::from_str("if")),
            SyntaxKind::Kwd_Impl => Some(String::from_str("impl")),
            SyntaxKind::Kwd_Import => Some(String::from_str("import")),
            SyntaxKind::Kwd_In => Some(String::from_str("in")),
            SyntaxKind::Kwd_Iter => Some(String::from_str("iter")),
            SyntaxKind::Kwd_Let => Some(String::from_str("let")),
            SyntaxKind::Kwd_Module => Some(String::from_str("module")),
            SyntaxKind::Kwd_Not => Some(String::from_str("not")),
            SyntaxKind::Kwd_Of => Some(String::from_str("of")),
            SyntaxKind::Kwd_Or => Some(String::from_str("or")),
            SyntaxKind::Kwd_Range => Some(String::from_str("range")),
            SyntaxKind::Kwd_Record => Some(String::from_str("record")),
            SyntaxKind::Kwd_Type => Some(String::from_str("type")),
            SyntaxKind::Kwd_Var => Some(String::from_str("var")),
            SyntaxKind::Kwd_While => Some(String::from_str("while")),
            SyntaxKind::Kwd_With => Some(String::from_str("with")),
            SyntaxKind::Kwd_Yield => Some(String::from_str("yield")),
            SyntaxKind::Sym_Ampersand => Some(String::from_str("ampersand")),
            SyntaxKind::Sym_Asterisk => Some(String::from_str("asterisk")),
            SyntaxKind::Sym_At => Some(String::from_str("at")),
            SyntaxKind::Sym_BackSlash => Some(String::from_str("backslash")),
            SyntaxKind::Sym_Bang => Some(String::from_str("exclamation mark")),
            SyntaxKind::Sym_BangEq => Some(String::from_str("not equal")),
            SyntaxKind::Sym_Caret => Some(String::from_str("caret")),
            SyntaxKind::Sym_Colon => Some(String::from_str("colon")),
            SyntaxKind::Sym_Comma => Some(String::from_str("comma")),
            SyntaxKind::Sym_Dollar => Some(String::from_str("dollar")),
            SyntaxKind::Sym_Dot => Some(String::from_str("dot")),
            SyntaxKind::Sym_EmDash => Some(String::from_str("em-dash")),
            SyntaxKind::Sym_EnDash => Some(String::from_str("en-dash")),
            SyntaxKind::Sym_Eq => Some(String::from_str("equals")),
            SyntaxKind::Sym_ForwardSlash => Some(String::from_str("forward slash")),
            SyntaxKind::Sym_Minus => Some(String::from_str("minus")),
            SyntaxKind::Sym_Percent => Some(String::from_str("percent")),
            SyntaxKind::Sym_Pipe => Some(String::from_str("pipe")),
            SyntaxKind::Sym_Plus => Some(String::from_str("plus")),
            SyntaxKind::Sym_Question => Some(String::from_str("question mark")),
            SyntaxKind::Sym_Semicolon => Some(String::from_str("semicolon")),
            SyntaxKind::Sym_Sterling => Some(String::from_str("sterling")),
            SyntaxKind::Sym_Tilde => Some(String::from_str("tilde")),
            SyntaxKind::Sym_Lt => Some(String::from_str("less than")),
            SyntaxKind::Sym_LtEq => Some(String::from_str("less than equal")),
            SyntaxKind::Sym_Gt => Some(String::from_str("greater than")),
            SyntaxKind::Sym_GtEq => Some(String::from_str("greater than equal")),
            SyntaxKind::Sym_LThinArrow => Some(String::from_str("leftwards thin arrow")),
            SyntaxKind::Sym_RThinArrow => Some(String::from_str("rightwards thin arrow")),
            SyntaxKind::Sym_ThickArrow => Some(String::from_str("thick arrow")),
            SyntaxKind::Sym_Walrus => Some(String::from_str("walrus")),
            SyntaxKind::Sym_LBrace => Some(String::from_str("brace")),
            SyntaxKind::Sym_RBrace => Some(String::from_str("brace")),
            SyntaxKind::Sym_LBracket => Some(String::from_str("bracket")),
            SyntaxKind::Sym_RBracket => Some(String::from_str("bracket")),
            SyntaxKind::Sym_LParen => Some(String::from_str("parenthesis")),
            SyntaxKind::Sym_RParen => Some(String::from_str("parenthesis")),
            SyntaxKind::Lit_Character => Some(String::from_str("character")),
            SyntaxKind::Lit_Float => Some(String::from_str("float")),
            SyntaxKind::Lit_Integer => Some(String::from_str("integer")),
            SyntaxKind::Lit_String => Some(String::from_str("string")),
            SyntaxKind::Exp_Binary => Some(String::from_str("binary")),
            SyntaxKind::Exp_Indented => Some(String::from_str("indented")),
            SyntaxKind::Exp_Literal => Some(String::from_str("literal")),
            SyntaxKind::Exp_Paren => Some(String::from_str("parenthesized")),
            SyntaxKind::Exp_UnaryPrefix => Some(String::from_str("prefixed unary")),
            SyntaxKind::Exp_UnaryPostfix => Some(String::from_str("postfixed unary")),
            SyntaxKind::Exp_VariableRef => Some(String::from_str("variable reference")),
            SyntaxKind::Dec_GlobalBinding => Some(String::from_str("global binding")),
            SyntaxKind::DocComment => Some(String::from_str("documentation")),
            SyntaxKind::ReservedIdentifier => Some(String::from_str("reserved")),
            _ => None,
        }
    }

    /// The text of [`SyntaxKind::code_repr`], as a sequence of characters.
    pub open spec fn code_repr_spec(self) -> Option<Seq<char>> {
        match self {
            SyntaxKind::Sym_Ampersand => Some("&"@),
            SyntaxKind::Sym_Asterisk => Some("*"@),
            SyntaxKind::Sym_At => Some("@"@),
            SyntaxKind::Sym_BackSlash => Some("\\"@),
            SyntaxKind::Sym_Bang => Some("!"@),
            SyntaxKind::Sym_BangEq => Some("!="@),
            SyntaxKind::Sym_Caret => Some("^"@),
            SyntaxKind::Sym_Colon => Some(":"@),
            SyntaxKind::Sym_Comma => Some(","@),
            SyntaxKind::Sym_Dollar => Some("$"@),
            SyntaxKind::Sym_Dot => Some("."@),
            SyntaxKind::Sym_EmDash => Some("—"@),
            SyntaxKind::Sym_EnDash => Some("–"@),
            SyntaxKind::Sym_Eq => Some("="@),
            SyntaxKind::Sym_ForwardSlash => Some("/"@),
            SyntaxKind::Sym_Minus => Some("-"@),
            SyntaxKind::Sym_Percent => Some("%"@),
            SyntaxKind::Sym_Pipe => Some("|"@),
            SyntaxKind::Sym_Plus => Some("+"@),
            SyntaxKind::Sym_Question => Some("?"@),
            SyntaxKind::Sym_Semicolon => Some(";"@),
            SyntaxKind::Sym_Sterling => Some("£"@),
            SyntaxKind::Sym_Tilde => Some("~"@),
            SyntaxKind::Sym_Lt => Some("<"@),
            SyntaxKind::Sym_LtEq => Some("<="@),
            SyntaxKind::Sym_Gt => Some(">"@),
            SyntaxKind::Sym_GtEq => Some(">="@),
            SyntaxKind::Sym_LThinArrow => Some("<-"@),
            SyntaxKind::Sym_RThinArrow => Some("->"@),
            SyntaxKind::Sym_ThickArrow => Some("=>"@),
            SyntaxKind::Sym_Walrus => Some(":="@),
            SyntaxKind::Sym_LBrace => Some("{"@),
            SyntaxKind::Sym_RBrace => Some("}"@),
            SyntaxKind::Sym_LBracket => Some("["@),
            SyntaxKind::Sym_RBracket => Some("]"@),
            SyntaxKind::Sym_LParen => Some("("@),
            SyntaxKind::Sym_RParen => Some(")"@),
            _ => None,
        }
    }

    /// How the kind is written in code, for symbols.
    pub fn code_repr(self) -> (s: Option<String>)
        ensures
            opt_chars(s) == self.code_repr_spec(),
    {
        match self {
            SyntaxKind::Sym_Ampersand => Some(String::from_str("&")),
            SyntaxKind::Sym_Asterisk => Some(String::from_str("*")),
            SyntaxKind::Sym_At => Some(String::from_str("@")),
            SyntaxKind::Sym_BackSlash => Some(String::from_str("\\")),
            SyntaxKind::Sym_Bang => Some(String::from_str("!")),
            SyntaxKind::Sym_BangEq => Some(String::from_str("!=")),
            SyntaxKind::Sym_Caret => Some(String::from_str("^")),
            SyntaxKind::Sym_Colon => Some(String::from_str(":")),
            SyntaxKind::Sym_Comma => Some(String::from_str(",")),
            SyntaxKind::Sym_Dollar => Some(String::from_str("$")),
            SyntaxKind::Sym_Dot => Some(String::from_str(".")),
            SyntaxKind::Sym_EmDash => Some(String::from_str("—")),
            SyntaxKind::Sym_EnDash => Some(String::from_str("–")),
            SyntaxKind::Sym_Eq => Some(String::from_str("=")),
            SyntaxKind::Sym_ForwardSlash => Some(String::from_str("/")),
            SyntaxKind::Sym_Minus => Some(String::from_str("-")),
            SyntaxKind::Sym_Percent => Some(String::from_str("%")),
            SyntaxKind::Sym_Pipe => Some(String::from_str("|")),
            SyntaxKind::Sym_Plus => Some(String::from_str("+")),
            SyntaxKind::Sym_Question => Some(String::from_str("?")),
            SyntaxKind::Sym_Semicolon => Some(String::from_str(";")),
            SyntaxKind::Sym_Sterling => Some(String::from_str("£")),
            SyntaxKind::Sym_Tilde => Some(String::from_str("~")),
            SyntaxKind::Sym_Lt => Some(String::from_str("<")),
            SyntaxKind::Sym_LtEq => Some(String::from_str("<=")),
            SyntaxKind::Sym_Gt => Some(String::from_str(">")),
            SyntaxKind::Sym_GtEq => Some(String::from_str(">=")),
            SyntaxKind::Sym_LThinArrow => Some(String::from_str("<-")),
            SyntaxKind::Sym_RThinArrow => Some(String::from_str("->")),
            SyntaxKind::Sym_ThickArrow => Some(String::from_str("=>")),
            SyntaxKind::Sym_Walrus => Some(String::from_str(":=")),
            SyntaxKind::Sym_LBrace => Some(String::from_str("{")),
            SyntaxKind::Sym_RBrace => Some(String::from_str("}")),
            SyntaxKind::Sym_LBracket => Some(String::from_str("[")),
            SyntaxKind::Sym_RBracket => Some(String::from_str("]")),
            SyntaxKind::Sym_LParen => Some(String::from_str("(")),
            SyntaxKind::Sym_RParen => Some(String::from_str(")")),
            _ => None,
        }
    }

    /// The text of [`SyntaxKind::example`], as a sequence of characters.
    pub open spec fn example_spec(self) -> Option<Seq<char>> {
        match self {
            SyntaxKind::Lit_Character => Some("'a'"@),
            SyntaxKind::Lit_Float => Some("123.456"@),
            SyntaxKind::Lit_Integer => Some("123"@),
            SyntaxKind::Lit_String => Some("\"hello, world!\""@),
            SyntaxKind::Identifier => Some("foo"@),
            _ => None,
        }
    }

    /// An example of code of the kind, for literals and identifiers.
    pub fn example(self) -> (s: Option<String>)
        ensures
            opt_chars(s) == self.example_spec(),
    {
        match self {
            SyntaxKind::Lit_Character => Some(String::from_str("'a'")),
            SyntaxKind::Lit_Float => Some(String::from_str("123.456")),
            SyntaxKind::Lit_Integer => Some(String::from_str("123")),
            SyntaxKind::Lit_String => Some(String::from_str("\"hello, world!\"")),
            SyntaxKind::Identifier => Some(String::from_str("foo")),
            _ => None,
        }
    }

    /// The name of the category of the kind. Every kind but `Root` has one.
    pub open spec fn kind_spec(self) -> Seq<char>
        recommends
            self != SyntaxKind::Root,
    {
        if self.is_keyword_spec() {
            "keyword"@
        } else if self.is_symbol_spec() {
            "symbol"@
        } else if self.is_literal_spec() {
            "literal"@
        } else if self.is_expression_spec() {
            "expression"@
        } else if self.is_declaration_spec() {
            "declaration"@
        } else if self.is_comment_spec() {
            "comment"@
        } else if self.is_identifier_spec() {
            "identifier"@
        } else {
            match self {
                SyntaxKind::Indent => "indent"@,
                SyntaxKind::Dedent => "dedent"@,
                SyntaxKind::Newline => "new line"@,
                SyntaxKind::Whitespace => "whitespace"@,
                SyntaxKind::Placeholder => "placeholder"@,
                SyntaxKind::UnknownChar => "unknown character"@,
                _ => "error"@,
            }
        }
    }

    /// The name of the category of the kind (such as `keyword` or `symbol`).
    ///
    /// The root node has no category, so it may not be asked for one.
    pub fn kind(self) -> (s: String)
        requires
            self != SyntaxKind::Root,
        ensures
            s@ == self.kind_spec(),
    {
        if self.is_keyword() {
            String::from_str("keyword")
        } else if self.is_symbol() {
            String::from_str("symbol")
        } else if self.is_literal() {
            String::from_str("literal")
        } else if self.is_expression() {
            String::from_str("expression")
        } else if self.is_declaration() {
            String::from_str("declaration")
        } else if self.is_comment() {
            String::from_str("comment")
        } else if self.is_identifier() {
            String::from_str("identifier")
        } else {
            match self {
                SyntaxKind::Indent => String::from_str("indent"),
                SyntaxKind::Dedent => String::from_str("dedent"),
                SyntaxKind::Newline => String::from_str("new line"),
                SyntaxKind::Whitespace => String::from_str("whitespace"),
                SyntaxKind::Placeholder => String::from_str("placeholder"),
                SyntaxKind::UnknownChar => String::from_str("unknown character"),
                _ => String::from_str("error"),
            }
        }
    }

}


impl SyntaxKind {
    /// Returns the human-readable representation of the kind, which lists
    /// its article, qualifier, description, category, how it is written and
    /// an example of it.
    ///
    /// The root node has no category, so it may not be asked for one.
    pub fn human_readable_repr(self) -> (r: HumanReadableRepr)
        requires
            self != SyntaxKind::Root,
        ensures
            r@.article == self.article_spec(),
            r@.qualifier == self.qualifier_spec(),
            r@.description == self.description_spec(),
            r@.kind == self.kind_spec(),
            r@.code_repr == self.code_repr_spec(),
            r@.example == self.example_spec(),
    {
        HumanReadableRepr {
            article: self.article(),
            qualifier: self.qualifier(),
            description: self.description(),
            kind: self.kind(),
            code_repr: self.code_repr(),
            example: self.example(),
        }
    }

    /// The abstract value of the human-readable representation of the kind.
    pub open spec fn repr_view(self) -> ReprView {
        ReprView {
            article: self.article_spec(),
            qualifier: self.qualifier_spec(),
            description: self.description_spec(),
            kind: self.kind_spec(),
            code_repr: self.code_repr_spec(),
            example: self.example_spec(),
        }
    }

    /// Returns the kind described for a user, such as
    /// "an opening parenthesis symbol (`(`)", with code in colour if
    /// `colorize` holds.
    pub fn to_display_string(self, colorize: bool) -> (s: String)
        requires
            self != SyntaxKind::Root,
        ensures
            !colorize ==> s@ == self.repr_view().sentence(),
            colorize ==> rendered_segments(
                self.repr_view().segments(),
                self.repr_view().segments().len() as int,
                s@,
            ),
    {
        let repr = self.human_readable_repr();
        let f = repr.to_formatted_string();
        proof {
            assert(repr@ == self.repr_view());
            lemma_repr_plain_text(repr@);
        }
        f.render(colorize)
    }
}

/// The symbol kind that a single character stands for, if any.
pub open spec fn symbol_for_char(c: char) -> Option<SyntaxKind> {
    if c == '&' { Some(SyntaxKind::Sym_Ampersand) }
    else if c == '*' { Some(SyntaxKind::Sym_Asterisk) }
    else if c == '@' { Some(SyntaxKind::Sym_At) }
    else if c == '\\' { Some(SyntaxKind::Sym_BackSlash) }
    else if c == '!' { Some(SyntaxKind::Sym_Bang) }
    else if c == '^' { Some(SyntaxKind::Sym_Caret) }
    else if c == ':' { Some(SyntaxKind::Sym_Colon) }
    else if c == ',' { Some(SyntaxKind::Sym_Comma) }
    else if c == '$' { Some(SyntaxKind::Sym_Dollar) }
    else if c == '.' { Some(SyntaxKind::Sym_Dot) }
    else if c == '—' { Some(SyntaxKind::Sym_EmDash) }
    else if c == '–' { Some(SyntaxKind::Sym_EnDash) }
    else if c == '=' { Some(SyntaxKind::Sym_Eq) }
    else if c == '/' { Some(SyntaxKind::Sym_ForwardSlash) }
    else if c == '-' { Some(SyntaxKind::Sym_Minus) }
    else if c == '%' { Some(SyntaxKind::Sym_Percent) }
    else if c == '|' { Some(SyntaxKind::Sym_Pipe) }
    else if c == '+' { Some(SyntaxKind::Sym_Plus) }
    else if c == '?' { Some(SyntaxKind::Sym_Question) }
    else if c == ';' { Some(SyntaxKind::Sym_Semicolon) }
    else if c == '£' { Some(SyntaxKind::Sym_Sterling) }
    else if c == '~' { Some(SyntaxKind::Sym_Tilde) }
    else if c == '<' { Some(SyntaxKind::Sym_Lt) }
    else if c == '>' { Some(SyntaxKind::Sym_Gt) }
    else if c == '{' { Some(SyntaxKind::Sym_LBrace) }
    else if c == '}' { Some(SyntaxKind::Sym_RBrace) }
    else if c == '[' { Some(SyntaxKind::Sym_LBracket) }
    else if c == ']' { Some(SyntaxKind::Sym_RBracket) }
    else if c == '(' { Some(SyntaxKind::Sym_LParen) }
    else if c == ')' { Some(SyntaxKind::Sym_RParen) }
    else { None }
}

/// A single character stands for a symbol exactly when that symbol is
/// written as that one character.
pub proof fn lemma_symbol_char_roundtrip(c: char, k: SyntaxKind)
    ensures
        symbol_for_char(c) == Some(k) <==> k.code_repr_spec() == Some(seq![c]),
{
    assert(seq![c].len() == 1 && seq![c][0] == c);
    reveal_strlit("&");
    reveal_strlit("*");
    reveal_strlit("@");
    reveal_strlit("\\");
    reveal_strlit("!");
    reveal_strlit("!=");
    reveal_strlit("^");
    reveal_strlit(":");
    reveal_strlit(",");
    reveal_strlit("$");
    reveal_strlit(".");
    reveal_strlit("—");
    reveal_strlit("–");
    reveal_strlit("=");
    reveal_strlit("/");
    reveal_strlit("-");
    reveal_strlit("%");
    reveal_strlit("|");
    reveal_strlit("+");
    reveal_strlit("?");
    reveal_strlit(";");
    reveal_strlit("£");
    reveal_strlit("~");
    reveal_strlit("<");
    reveal_strlit("<=");
    reveal_strlit(">");
    reveal_strlit(">=");
    reveal_strlit("<-");
    reveal_strlit("->");
    reveal_strlit("=>");
    reveal_strlit(":=");
    reveal_strlit("{");
    reveal_strlit("}");
    reveal_strlit("[");
    reveal_strlit("]");
    reveal_strlit("(");
    reveal_strlit(")");
    match k {
        SyntaxKind::Sym_Ampersand => {
            assert("&"@ =~= seq!['&']);
        },
        SyntaxKind::Sym_Asterisk => {
            assert("*"@ =~= seq!['*']);
        },
        SyntaxKind::Sym_At => {
            assert("@"@ =~= seq!['@']);
        },
        SyntaxKind::Sym_BackSlash => {
            assert("\\"@ =~= seq!['\\']);
        },
        SyntaxKind::Sym_Bang => {
            assert("!"@ =~= seq!['!']);
        },
        SyntaxKind::Sym_Caret => {
            assert("^"@ =~= seq!['^']);
        },
        SyntaxKind::Sym_Colon => {
            assert(":"@ =~= seq![':']);
        },
        SyntaxKind::Sym_Comma => {
            assert(","@ =~= seq![',']);
        },
        SyntaxKind::Sym_Dollar => {
            assert("$"@ =~= seq!['$']);
        },
        SyntaxKind::Sym_Dot => {
            assert("."@ =~= seq!['.']);
        },
        SyntaxKind::Sym_EmDash => {
            assert("—"@ =~= seq!['—']);
        },
        SyntaxKind::Sym_EnDash => {
            assert("–"@ =~= seq!['–']);
        },
        SyntaxKind::Sym_Eq => {
            assert("="@ =~= seq!['=']);
        },
        SyntaxKind::Sym_ForwardSlash => {
            assert("/"@ =~= seq!['/']);
        },
        SyntaxKind::Sym_Minus => {
            assert("-"@ =~= seq!['-']);
        },
        SyntaxKind::Sym_Percent => {
            assert("%"@ =~= seq!['%']);
        },
        SyntaxKind::Sym_Pipe => {
            assert("|"@ =~= seq!['|']);
        },
        SyntaxKind::Sym_Plus => {
            assert("+"@ =~= seq!['+']);
        },
        SyntaxKind::Sym_Question => {
            assert("?"@ =~= seq!['?']);
        },
        SyntaxKind::Sym_Semicolon => {
            assert(";"@ =~= seq![';']);
        },
        SyntaxKind::Sym_Sterling => {
            assert("£"@ =~= seq!['£']);
        },
        SyntaxKind::Sym_Tilde => {
            assert("~"@ =~= seq!['~']);
        },
        SyntaxKind::Sym_Lt => {
            assert("<"@ =~= seq!['<']);
        },
        SyntaxKind::Sym_Gt => {
            assert(">"@ =~= seq!['>']);
        },
        SyntaxKind::Sym_LBrace => {
            assert("{"@ =~= seq!['{']);
        },
        SyntaxKind::Sym_RBrace => {
            assert("}"@ =~= seq!['}']);
        },
        SyntaxKind::Sym_LBracket => {
            assert("["@ =~= seq!['[']);
        },
        SyntaxKind::Sym_RBracket => {
            assert("]"@ =~= seq![']']);
        },
        SyntaxKind::Sym_LParen => {
            assert("("@ =~= seq!['(']);
        },
        SyntaxKind::Sym_RParen => {
            assert(")"@ =~= seq![')']);
        },
        SyntaxKind::Sym_BangEq => {
            assert("!="@ =~= seq!['!', '=']);
        },
        SyntaxKind::Sym_LtEq => {
            assert("<="@ =~= seq!['<', '=']);
        },
        SyntaxKind::Sym_GtEq => {
            assert(">="@ =~= seq!['>', '=']);
        },
        SyntaxKind::Sym_LThinArrow => {
            assert("<-"@ =~= seq!['<', '-']);
        },
        SyntaxKind::Sym_RThinArrow => {
            assert("->"@ =~= seq!['-', '>']);
        },
        SyntaxKind::Sym_ThickArrow => {
            assert("=>"@ =~= seq!['=', '>']);
        },
        SyntaxKind::Sym_Walrus => {
            assert(":="@ =~= seq![':', '=']);
        },
        _ => {},
    }
}

/// A pair of characters stands for a symbol exactly when that symbol is
/// written as those two characters.
pub proof fn lemma_symbol_pair_roundtrip(a: char, b: char, k: SyntaxKind)
    ensures
        symbol_for_chars(seq![a, b]) == Some(k) <==> k.code_repr_spec() == Some(seq![a, b]),
{
    assert(seq![a, b].len() == 2 && seq![a, b][0] == a && seq![a, b][1] == b);
    reveal_strlit("&");
    reveal_strlit("*");
    reveal_strlit("@");
    reveal_strlit("\\");
    reveal_strlit("!");
    reveal_strlit("!=");
    reveal_strlit("^");
    reveal_strlit(":");
    reveal_strlit(",");
    reveal_strlit("$");
    reveal_strlit(".");
    reveal_strlit("—");
    reveal_strlit("–");
    reveal_strlit("=");
    reveal_strlit("/");
    reveal_strlit("-");
    reveal_strlit("%");
    reveal_strlit("|");
    reveal_strlit("+");
    reveal_strlit("?");
    reveal_strlit(";");
    reveal_strlit("£");
    reveal_strlit("~");
    reveal_strlit("<");
    reveal_strlit("<=");
    reveal_strlit(">");
    reveal_strlit(">=");
    reveal_strlit("<-");
    reveal_strlit("->");
    reveal_strlit("=>");
    reveal_strlit(":=");
    reveal_strlit("{");
    reveal_strlit("}");
    reveal_strlit("[");
    reveal_strlit("]");
    reveal_strlit("(");
    reveal_strlit(")");
    match k {
        SyntaxKind::Sym_Ampersand => {
            assert("&"@ =~= seq!['&']);
        },
        SyntaxKind::Sym_Asterisk => {
            assert("*"@ =~= seq!['*']);
        },
        SyntaxKind::Sym_At => {
            assert("@"@ =~= seq!['@']);
        },
        SyntaxKind::Sym_BackSlash => {
            assert("\\"@ =~= seq!['\\']);
        },
        SyntaxKind::Sym_Bang => {
            assert("!"@ =~= seq!['!']);
        },
        SyntaxKind::Sym_Caret => {
            assert("^"@ =~= seq!['^']);
        },
        SyntaxKind::Sym_Colon => {
            assert(":"@ =~= seq![':']);
        },
        SyntaxKind::Sym_Comma => {
            assert(","@ =~= seq![',']);
        },
        SyntaxKind::Sym_Dollar => {
            assert("$"@ =~= seq!['$']);
        },
        SyntaxKind::Sym_Dot => {
            assert("."@ =~= seq!['.']);
        },
        SyntaxKind::Sym_EmDash => {
            assert("—"@ =~= seq!['—']);
        },
        SyntaxKind::Sym_EnDash => {
            assert("–"@ =~= seq!['–']);
        },
        SyntaxKind::Sym_Eq => {
            assert("="@ =~= seq!['=']);
        },
        SyntaxKind::Sym_ForwardSlash => {
            assert("/"@ =~= seq!['/']);
        },
        SyntaxKind::Sym_Minus => {
            assert("-"@ =~= seq!['-']);
        },
        SyntaxKind::Sym_Percent => {
            assert("%"@ =~= seq!['%']);
        },
        SyntaxKind::Sym_Pipe => {
            assert("|"@ =~= seq!['|']);
        },
        SyntaxKind::Sym_Plus => {
            assert("+"@ =~= seq!['+']);
        },
        SyntaxKind::Sym_Question => {
            assert("?"@ =~= seq!['?']);
        },
        SyntaxKind::Sym_Semicolon => {
            assert(";"@ =~= seq![';']);
        },
        SyntaxKind::Sym_Sterling => {
            assert("£"@ =~= seq!['£']);
        },
        SyntaxKind::Sym_Tilde => {
            assert("~"@ =~= seq!['~']);
        },
        SyntaxKind::Sym_Lt => {
            assert("<"@ =~= seq!['<']);
        },
        SyntaxKind::Sym_Gt => {
            assert(">"@ =~= seq!['>']);
        },
        SyntaxKind::Sym_LBrace => {
            assert("{"@ =~= seq!['{']);
        },
        SyntaxKind::Sym_RBrace => {
            assert("}"@ =~= seq!['}']);
        },
        SyntaxKind::Sym_LBracket => {
            assert("["@ =~= seq!['[']);
        },
        SyntaxKind::Sym_RBracket => {
            assert("]"@ =~= seq![']']);
        },
        SyntaxKind::Sym_LParen => {
            assert("("@ =~= seq!['(']);
        },
        SyntaxKind::Sym_RParen => {
            assert(")"@ =~= seq![')']);
        },
        SyntaxKind::Sym_BangEq => {
            assert("!="@ =~= seq!['!', '=']);
        },
        SyntaxKind::Sym_LtEq => {
            assert("<="@ =~= seq!['<', '=']);
        },
        SyntaxKind::Sym_GtEq => {
            assert(">="@ =~= seq!['>', '=']);
        },
        SyntaxKind::Sym_LThinArrow => {
            assert("<-"@ =~= seq!['<', '-']);
        },
        SyntaxKind::Sym_RThinArrow => {
            assert("->"@ =~= seq!['-', '>']);
        },
        SyntaxKind::Sym_ThickArrow => {
            assert("=>"@ =~= seq!['=', '>']);
        },
        SyntaxKind::Sym_Walrus => {
            assert(":="@ =~= seq![':', '=']);
        },
        _ => {},
    }
}

/// Creates the symbol kind that corresponds to the given character.
///
/// Only the characters that stand for a symbol may be given.
pub fn symbol_from_char(c: char) -> (kind: SyntaxKind)
    requires
        symbol_for_char(c) is Some,
    ensures
        symbol_for_char(c) == Some(kind),
        kind.is_symbol_spec(),
{
    match c {
        '&' => SyntaxKind::Sym_Ampersand,
        '*' => SyntaxKind::Sym_Asterisk,
        '@' => SyntaxKind::Sym_At,
        '\\' => SyntaxKind::Sym_BackSlash,
        '!' => SyntaxKind::Sym_Bang,
        '^' => SyntaxKind::Sym_Caret,
        ':' => SyntaxKind::Sym_Colon,
        ',' => SyntaxKind::Sym_Comma,
        '$' => SyntaxKind::Sym_Dollar,
        '.' => SyntaxKind::Sym_Dot,
        '—' => SyntaxKind::Sym_EmDash,
        '–' => SyntaxKind::Sym_EnDash,
        '=' => SyntaxKind::Sym_Eq,
        '/' => SyntaxKind::Sym_ForwardSlash,
        '-' => SyntaxKind::Sym_Minus,
        '%' => SyntaxKind::Sym_Percent,
        '|' => SyntaxKind::Sym_Pipe,
        '+' => SyntaxKind::Sym_Plus,
        '?' => SyntaxKind::Sym_Question,
        ';' => SyntaxKind::Sym_Semicolon,
        '£' => SyntaxKind::Sym_Sterling,
        '~' => SyntaxKind::Sym_Tilde,
        '<' => SyntaxKind::Sym_Lt,
        '>' => SyntaxKind::Sym_Gt,
        '{' => SyntaxKind::Sym_LBrace,
        '}' => SyntaxKind::Sym_RBrace,
        '[' => SyntaxKind::Sym_LBracket,
        ']' => SyntaxKind::Sym_RBracket,
        '(' => SyntaxKind::Sym_LParen,
        ')' => SyntaxKind::Sym_RParen,
        _ => SyntaxKind::Sym_RParen,
    }
}

/// The symbol kind that a pair of characters stands for, if any.
pub open spec fn symbol_for_pair(a: char, b: char) -> Option<SyntaxKind> {
    if a == '!' && b == '=' { Some(SyntaxKind::Sym_BangEq) }
    else if a == '<' && b == '=' { Some(SyntaxKind::Sym_LtEq) }
    else if a == '>' && b == '=' { Some(SyntaxKind::Sym_GtEq) }
    else if a == '<' && b == '-' { Some(SyntaxKind::Sym_LThinArrow) }
    else if a == '-' && b == '>' { Some(SyntaxKind::Sym_RThinArrow) }
    else if a == '=' && b == '>' { Some(SyntaxKind::Sym_ThickArrow) }
    else if a == ':' && b == '=' { Some(SyntaxKind::Sym_Walrus) }
    else { None }
}

/// The symbol kind that a sequence of characters stands for: only pairs of
/// characters form multi-character symbols.
pub open spec fn symbol_for_chars(chars: Seq<char>) -> Option<SyntaxKind> {
    if chars.len() == 2 {
        symbol_for_pair(chars[0], chars[1])
    } else {
        None
    }
}

/// Creates the symbol kind that corresponds to the given sequence of
/// characters, or returns `None` if the sequence forms no symbol.
pub fn symbol_from_chars(chars: &[char]) -> (kind: Option<SyntaxKind>)
    ensures
        kind == symbol_for_chars(chars@),
{
    if chars.len() != 2 {
        return None;
    }
    let a = chars[0];
    let b = chars[1];
    if a == '!' && b == '=' {
        return Some(SyntaxKind::Sym_BangEq);
    }
    if a == '<' && b == '=' {
        return Some(SyntaxKind::Sym_LtEq);
    }
    if a == '>' && b == '=' {
        return Some(SyntaxKind::Sym_GtEq);
    }
    if a == '<' && b == '-' {
        return Some(SyntaxKind::Sym_LThinArrow);
    }
    if a == '-' && b == '>' {
        return Some(SyntaxKind::Sym_RThinArrow);
    }
    if a == '=' && b == '>' {
        return Some(SyntaxKind::Sym_ThickArrow);
    }
    if a == ':' && b == '=' {
        return Some(SyntaxKind::Sym_Walrus);
    }
    None
}

/// The raw number of a kind identifies it: converting a kind to its raw
/// number and back gives the same kind.
pub proof fn lemma_raw_roundtrip(kind: SyntaxKind)
    ensures
        SyntaxKind::from_raw_spec(kind.raw_spec()) == Some(kind),
{
}

/// Every kind falls into at most one of the keyword, symbol, literal and
/// expression ranges, and trivia are none of these.
pub proof fn lemma_categories_disjoint(kind: SyntaxKind)
    ensures
        kind.is_keyword_spec() ==> !kind.is_symbol_spec() && !kind.is_literal_spec() && !kind.is_expression_spec(),
        kind.is_symbol_spec() ==> !kind.is_literal_spec() && !kind.is_expression_spec(),
        kind.is_literal_spec() ==> !kind.is_expression_spec(),
        kind.is_trivia_spec() ==> !kind.is_keyword_spec() && !kind.is_symbol_spec()
            && !kind.is_literal_spec() && !kind.is_expression_spec(),
{
}

} // verus!
