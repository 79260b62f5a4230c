use helios::syntax_kind::{symbol_from_char, symbol_from_chars, SyntaxKind};

#[test]
fn test_symbol_from_char() {
    assert_eq!(symbol_from_char('&'), SyntaxKind::Sym_Ampersand);
    assert_eq!(symbol_from_char('*'), SyntaxKind::Sym_Asterisk);
    assert_eq!(symbol_from_char('@'), SyntaxKind::Sym_At);
    assert_eq!(symbol_from_char('\\'), SyntaxKind::Sym_BackSlash);
    assert_eq!(symbol_from_char('!'), SyntaxKind::Sym_Bang);
    assert_eq!(symbol_from_char('^'), SyntaxKind::Sym_Caret);
    assert_eq!(symbol_from_char(':'), SyntaxKind::Sym_Colon);
    assert_eq!(symbol_from_char(','), SyntaxKind::Sym_Comma);
    assert_eq!(symbol_from_char('$'), SyntaxKind::Sym_Dollar);
    assert_eq!(symbol_from_char('.'), SyntaxKind::Sym_Dot);
    assert_eq!(symbol_from_char('—'), SyntaxKind::Sym_EmDash);
    assert_eq!(symbol_from_char('–'), SyntaxKind::Sym_EnDash);
    assert_eq!(symbol_from_char('='), SyntaxKind::Sym_Eq);
    assert_eq!(symbol_from_char('/'), SyntaxKind::Sym_ForwardSlash);
    assert_eq!(symbol_from_char('-'), SyntaxKind::Sym_Minus);
    assert_eq!(symbol_from_char('%'), SyntaxKind::Sym_Percent);
    assert_eq!(symbol_from_char('|'), SyntaxKind::Sym_Pipe);
    assert_eq!(symbol_from_char('+'), SyntaxKind::Sym_Plus);
    assert_eq!(symbol_from_char('?'), SyntaxKind::Sym_Question);
    assert_eq!(symbol_from_char(';'), SyntaxKind::Sym_Semicolon);
    assert_eq!(symbol_from_char('£'), SyntaxKind::Sym_Sterling);
    assert_eq!(symbol_from_char('~'), SyntaxKind::Sym_Tilde);
    assert_eq!(symbol_from_char('<'), SyntaxKind::Sym_Lt);
    assert_eq!(symbol_from_char('>'), SyntaxKind::Sym_Gt);
    assert_eq!(symbol_from_char('{'), SyntaxKind::Sym_LBrace);
    assert_eq!(symbol_from_char('}'), SyntaxKind::Sym_RBrace);
    assert_eq!(symbol_from_char('['), SyntaxKind::Sym_LBracket);
    assert_eq!(symbol_from_char(']'), SyntaxKind::Sym_RBracket);
    assert_eq!(symbol_from_char('('), SyntaxKind::Sym_LParen);
    assert_eq!(symbol_from_char(')'), SyntaxKind::Sym_RParen);
}

#[test]
fn test_symbol_from_two_chars() {
    assert_eq!(symbol_from_chars(&['!', '=']), Some(SyntaxKind::Sym_BangEq));
    assert_eq!(symbol_from_chars(&['<', '=']), Some(SyntaxKind::Sym_LtEq));
    assert_eq!(symbol_from_chars(&['>', '=']), Some(SyntaxKind::Sym_GtEq));
    assert_eq!(symbol_from_chars(&['<', '-']), Some(SyntaxKind::Sym_LThinArrow));
    assert_eq!(symbol_from_chars(&['-', '>']), Some(SyntaxKind::Sym_RThinArrow));
    assert_eq!(symbol_from_chars(&['=', '>']), Some(SyntaxKind::Sym_ThickArrow));
    assert_eq!(symbol_from_chars(&[':', '=']), Some(SyntaxKind::Sym_Walrus));
}

#[test]
fn test_is_trivia() {
    assert!(SyntaxKind::Comment.is_trivia());
    assert!(SyntaxKind::DocComment.is_trivia());
    assert!(SyntaxKind::Whitespace.is_trivia());

    assert!(!SyntaxKind::Kwd_And.is_trivia());
    assert!(!SyntaxKind::Sym_Ampersand.is_trivia());
    assert!(!SyntaxKind::Lit_Character.is_trivia());
    assert!(!SyntaxKind::Root.is_trivia());
}

#[test]
fn test_is_symbol() {
    assert!(SyntaxKind::Sym_Ampersand.is_symbol());
    assert!(SyntaxKind::Sym_Asterisk.is_symbol());
    assert!(SyntaxKind::Sym_Tilde.is_symbol());
    assert!(SyntaxKind::Sym_LParen.is_symbol());
    assert!(SyntaxKind::Sym_RParen.is_symbol());

    assert!(!SyntaxKind::Kwd_And.is_symbol());
    assert!(!SyntaxKind::Lit_Character.is_symbol());
    assert!(!SyntaxKind::Root.is_symbol());
}

#[test]
fn test_syntax_kind_human_readable_repr() {
    fn check(kind: SyntaxKind, input: &str) {
        assert_eq!(kind.human_readable_repr().to_display_string(), input.to_string());
    }

    check(SyntaxKind::Kwd_And, "the and keyword");
    check(SyntaxKind::Kwd_Enum, "the enum keyword");
    check(SyntaxKind::Kwd_Impl, "the impl keyword");
    check(SyntaxKind::Kwd_Module, "the module keyword");
    check(SyntaxKind::Kwd_Record, "the record keyword");
    check(SyntaxKind::Kwd_Yield, "the yield keyword");
    check(SyntaxKind::Sym_Ampersand, "an ampersand symbol (`&`)");
    check(SyntaxKind::Sym_ForwardSlash, "a forward slash symbol (`/`)");
    check(SyntaxKind::Sym_Lt, "a less than symbol (`<`)");
    check(SyntaxKind::Sym_LtEq, "a less than equal symbol (`<=`)");
    check(SyntaxKind::Sym_Walrus, "a walrus symbol (`:=`)");
    check(SyntaxKind::Sym_LBrace, "an opening curly brace symbol (`{`)");
    check(SyntaxKind::Sym_LBracket, "an opening square bracket symbol (`[`)");
    check(SyntaxKind::Sym_LParen, "an opening parenthesis symbol (`(`)");
    check(SyntaxKind::Sym_RBrace, "a closing curly brace symbol (`}`)");
    check(SyntaxKind::Sym_RBracket, "a closing square bracket symbol (`]`)");
    check(SyntaxKind::Sym_RParen, "a closing parenthesis symbol (`)`)");
    check(SyntaxKind::Lit_Character, "a character literal (such as `'a'`)");
    check(SyntaxKind::Lit_Float, "a float literal (such as `123.456`)");
    check(SyntaxKind::Lit_Integer, "an integer literal (such as `123`)");
    check(SyntaxKind::Lit_String, "a string literal (such as `\"hello, world!\"`)");
    check(SyntaxKind::Exp_Binary, "a binary expression");
    check(SyntaxKind::Exp_Indented, "an indented expression");
    check(SyntaxKind::Exp_Literal, "a literal expression");
    check(SyntaxKind::Exp_Paren, "a parenthesized expression");
    check(SyntaxKind::Exp_UnaryPrefix, "a prefixed unary expression");
    check(SyntaxKind::Exp_UnaryPostfix, "a postfixed unary expression");
    check(SyntaxKind::Exp_VariableRef, "a variable reference expression");
    check(SyntaxKind::Exp_Unnamed, "an expression");
    check(SyntaxKind::Dec_GlobalBinding, "a global binding declaration");
    check(SyntaxKind::Comment, "a comment");
    check(SyntaxKind::DocComment, "a documentation comment");
    check(SyntaxKind::Whitespace, "a whitespace");
    check(SyntaxKind::Indent, "an indent");
    check(SyntaxKind::Dedent, "a dedent");
    check(SyntaxKind::Newline, "a new line");
    check(SyntaxKind::Identifier, "an identifier (such as `foo`)");
    check(SyntaxKind::ReservedIdentifier, "a reserved identifier");
    check(SyntaxKind::Placeholder, "a placeholder");
    check(SyntaxKind::Error, "an error");
}

#[test]
fn test_symbol_from_chars_rejects_others() {
    assert_eq!(symbol_from_chars(&['?', '?']), None);
    assert_eq!(symbol_from_chars(&['<']), None);
    assert_eq!(symbol_from_chars(&['<', '=', '=']), None);
}

#[test]
fn test_syntax_kind_display_plain() {
    // Written plainly, the formatted description is the sentence itself.
    for kind in [SyntaxKind::Sym_LParen, SyntaxKind::Lit_Integer, SyntaxKind::Kwd_Let, SyntaxKind::Exp_Binary] {
        assert_eq!(kind.to_display_string(false), kind.human_readable_repr().to_display_string());
    }
}

#[test]
fn test_raw_roundtrip() {
    for raw in 0..SyntaxKind::Root.to_raw() + 1 {
        let kind = SyntaxKind::from_raw(raw).unwrap();
        assert_eq!(kind.to_raw(), raw);
    }
    assert_eq!(SyntaxKind::from_raw(SyntaxKind::Root.to_raw() + 1), None);
}

#[test]
fn test_human_readable_repr_omitting() {
    let repr = SyntaxKind::Sym_LParen.human_readable_repr();
    assert_eq!(repr.omitting().article().to_display_string(), "opening parenthesis symbol (`(`)");
    assert_eq!(repr.omitting().code_repr().to_display_string(), "an opening parenthesis symbol");
    let lit = SyntaxKind::Lit_Integer.human_readable_repr();
    assert_eq!(lit.omitting().to_display_string(), "an integer literal (such as `123`)");
    assert_eq!(lit.omitting().to_display_string(), lit.to_display_string());
}


#[test]
fn test_symbol_chars_round_trip() {
    for c in ['+', '-', '*', '/', '=', '<', '>', '(', ')', ';', '!'] {
        let kind = symbol_from_char(c);
        assert!(kind.is_symbol());
        assert_eq!(kind.code_repr(), Some(c.to_string()));
    }
    for s in ["<=", ">=", "!=", "<-"] {
        let chars: Vec<char> = s.chars().collect();
        let kind = symbol_from_chars(&chars).unwrap();
        assert_eq!(kind.code_repr(), Some(s.to_string()));
    }
}
