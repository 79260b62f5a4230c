use helios::lexer::{tokenize, Lexer};
use helios::message::{LexerMessage, MessageKind};
use helios::syntax_kind::SyntaxKind;

fn check(input: &str, kind: SyntaxKind) {
    let mut lexer = Lexer::new(0u8, input);
    let (token, _) = lexer.next().unwrap();
    assert_eq!(token.kind, kind);
    assert_eq!(token.text, input);
}

#[test]
fn test_lex_line_comment() {
    // Normal line comments
    check("#", SyntaxKind::Comment);
    check("#abc", SyntaxKind::Comment);
    check("# abc 123", SyntaxKind::Comment);
    check("# This is a random line comment", SyntaxKind::Comment);

    // Documentation comments
    check("##", SyntaxKind::DocComment);
    check("##abc", SyntaxKind::DocComment);
    check("## abc 123", SyntaxKind::DocComment);
    check("## This is a random line comment", SyntaxKind::DocComment);

    // Module comments
    check("#!", SyntaxKind::DocComment);
    check("#!abc", SyntaxKind::DocComment);
    check("#! abc 123", SyntaxKind::DocComment);
    check("#! This is a random line comment", SyntaxKind::DocComment);
}

#[test]
fn test_lex_keywords() {
    check("and", SyntaxKind::Kwd_And);
    check("as", SyntaxKind::Kwd_As);
    check("case", SyntaxKind::Kwd_Case);
    check("else", SyntaxKind::Kwd_Else);
    check("enum", SyntaxKind::Kwd_Enum);
    check("for", SyntaxKind::Kwd_For);
    check("forall", SyntaxKind::Kwd_Forall);
    check("func", SyntaxKind::Kwd_Func);
    check("if", SyntaxKind::Kwd_If);
    check("impl", SyntaxKind::Kwd_Impl);
    check("import", SyntaxKind::Kwd_Import);
    check("in", SyntaxKind::Kwd_In);
    check("iter", SyntaxKind::Kwd_Iter);
    check("let", SyntaxKind::Kwd_Let);
    check("module", SyntaxKind::Kwd_Module);
    check("not", SyntaxKind::Kwd_Not);
    check("of", SyntaxKind::Kwd_Of);
    check("or", SyntaxKind::Kwd_Or);
    check("range", SyntaxKind::Kwd_Range);
    check("record", SyntaxKind::Kwd_Record);
    check("type", SyntaxKind::Kwd_Type);
    check("var", SyntaxKind::Kwd_Var);
    check("while", SyntaxKind::Kwd_While);
    check("with", SyntaxKind::Kwd_With);
    check("yield", SyntaxKind::Kwd_Yield);
}

#[test]
fn test_lex_symbols() {
    check("&", SyntaxKind::Sym_Ampersand);
    check("*", SyntaxKind::Sym_Asterisk);
    check("@", SyntaxKind::Sym_At);
    check("\\", SyntaxKind::Sym_BackSlash);
    check("!", SyntaxKind::Sym_Bang);
    check("^", SyntaxKind::Sym_Caret);
    check(":", SyntaxKind::Sym_Colon);
    check(",", SyntaxKind::Sym_Comma);
    check("$", SyntaxKind::Sym_Dollar);
    check(".", SyntaxKind::Sym_Dot);
    check("—", SyntaxKind::Sym_EmDash);
    check("–", SyntaxKind::Sym_EnDash);
    check("=", SyntaxKind::Sym_Eq);
    check("/", SyntaxKind::Sym_ForwardSlash);
    check("-", SyntaxKind::Sym_Minus);
    check("%", SyntaxKind::Sym_Percent);
    check("|", SyntaxKind::Sym_Pipe);
    check("+", SyntaxKind::Sym_Plus);
    check("?", SyntaxKind::Sym_Question);
    check(";", SyntaxKind::Sym_Semicolon);
    check("£", SyntaxKind::Sym_Sterling);
    check("~", SyntaxKind::Sym_Tilde);

    check("<", SyntaxKind::Sym_Lt);
    check(">", SyntaxKind::Sym_Gt);
    check("<=", SyntaxKind::Sym_LtEq);
    check(">=", SyntaxKind::Sym_GtEq);
    check("<-", SyntaxKind::Sym_LThinArrow);
    check("->", SyntaxKind::Sym_RThinArrow);
    check("=>", SyntaxKind::Sym_ThickArrow);
    check(":=", SyntaxKind::Sym_Walrus);

    check("{", SyntaxKind::Sym_LBrace);
    check("}", SyntaxKind::Sym_RBrace);
    check("[", SyntaxKind::Sym_LBracket);
    check("]", SyntaxKind::Sym_RBracket);
    check("(", SyntaxKind::Sym_LParen);
    check(")", SyntaxKind::Sym_RParen);

    check("???", SyntaxKind::Placeholder);
}

#[test]
fn test_lex_semantically_valid_literal_integers() {
    // Decimal integers
    check("0", SyntaxKind::Lit_Integer);
    check("0_", SyntaxKind::Lit_Integer);
    check("123", SyntaxKind::Lit_Integer);
    check("123_456", SyntaxKind::Lit_Integer);

    // Binary integers
    check("0b000", SyntaxKind::Lit_Integer);
    check("0b111", SyntaxKind::Lit_Integer);
    check("0b101", SyntaxKind::Lit_Integer);
    check("0b000_000", SyntaxKind::Lit_Integer);
    check("0b111_111", SyntaxKind::Lit_Integer);
    check("0b101_101", SyntaxKind::Lit_Integer);

    // Octal integers
    check("0o000", SyntaxKind::Lit_Integer);
    check("0o777", SyntaxKind::Lit_Integer);
    check("0o767", SyntaxKind::Lit_Integer);
    check("0o000_000", SyntaxKind::Lit_Integer);
    check("0o777_777", SyntaxKind::Lit_Integer);
    check("0o767_767", SyntaxKind::Lit_Integer);

    // Hexadecimal integers
    check("0x000", SyntaxKind::Lit_Integer);
    check("0xfff", SyntaxKind::Lit_Integer);
    check("0xfef", SyntaxKind::Lit_Integer);
    check("0x000_000", SyntaxKind::Lit_Integer);
    check("0xfff_fff", SyntaxKind::Lit_Integer);
    check("0xfef_fef", SyntaxKind::Lit_Integer);
}

#[test]
fn test_lex_semantically_invalid_literal_integers() {
    // Decimal integers
    check("0z", SyntaxKind::Lit_Integer);
    check("1z2y3x", SyntaxKind::Lit_Integer);
    check("1z2y3x_4w5v6u", SyntaxKind::Lit_Integer);

    // Binary integers
    check("0b0z0y0x", SyntaxKind::Lit_Integer);
    check("0b1z1y1x", SyntaxKind::Lit_Integer);
    check("0b1z0y1x", SyntaxKind::Lit_Integer);
    check("0b0z0y0x_0w0v0u", SyntaxKind::Lit_Integer);
    check("0b1z1y1x_1w1v1u", SyntaxKind::Lit_Integer);
    check("0b1z0y1x_1w0v1u", SyntaxKind::Lit_Integer);

    // Octal integers
    check("0o0z0y0x", SyntaxKind::Lit_Integer);
    check("0o7z7y7x", SyntaxKind::Lit_Integer);
    check("0o7z6y7x", SyntaxKind::Lit_Integer);
    check("0o0z0y0x_0w0v0u", SyntaxKind::Lit_Integer);
    check("0o7z7y7x_7w7v7u", SyntaxKind::Lit_Integer);
    check("0o7z6y7x_7w6v7u", SyntaxKind::Lit_Integer);

    // Hexadecimal integers
    check("0x0z0y0x", SyntaxKind::Lit_Integer);
    check("0xfzfyfx", SyntaxKind::Lit_Integer);
    check("0xfzeyfx", SyntaxKind::Lit_Integer);
    check("0x0z0y0x_0w0v0u", SyntaxKind::Lit_Integer);
    check("0xfzfyfx_fwfvfu", SyntaxKind::Lit_Integer);
    check("0xfzeyfx_fwevfu", SyntaxKind::Lit_Integer);
}

#[test]
fn test_lex_semantically_valid_literal_floats() {
    check("0.", SyntaxKind::Lit_Float);
    check("0.0", SyntaxKind::Lit_Float);
    check("0_.", SyntaxKind::Lit_Float);
    check("0_.0_", SyntaxKind::Lit_Float);
    check("000.000", SyntaxKind::Lit_Float);
    check("1.23456", SyntaxKind::Lit_Float);
    check("12345.6", SyntaxKind::Lit_Float);
    check("123.456", SyntaxKind::Lit_Float);
}

#[test]
fn test_lex_semantically_invalid_literal_floats() {
    check("0a0b0c.0d0e", SyntaxKind::Lit_Float);
    check("1a.2b3c4d5e6", SyntaxKind::Lit_Float);
    check("1a2b.3c4d5e6", SyntaxKind::Lit_Float);
    check("1a2b3c.4d5e6", SyntaxKind::Lit_Float);
    check("1a2b3c4d.5e6", SyntaxKind::Lit_Float);
    check("1a2b3c4d5e.6", SyntaxKind::Lit_Float);
}

#[test]
fn test_lex_identifiers() {
    check("_", SyntaxKind::ReservedIdentifier);
    check("_a", SyntaxKind::Identifier);

    check("a", SyntaxKind::Identifier);
    check("abc", SyntaxKind::Identifier);
    check("abc123", SyntaxKind::Identifier);
    check("abc123_abc", SyntaxKind::Identifier);
    check("abc123_abc123", SyntaxKind::Identifier);
}

#[test]
fn test_lex_identifiers_unicode() {
    // Latin-extended
    check("åçéîñøœßü", SyntaxKind::Identifier);
    check("njerëzore", SyntaxKind::Identifier);
    check("čovjek", SyntaxKind::Identifier);
    check("člověk", SyntaxKind::Identifier);

    // Other scripts
    check("بشري", SyntaxKind::Identifier); // Arabic
    check("ሰው", SyntaxKind::Identifier); // Amharic
    check("մարդ", SyntaxKind::Identifier); // Armenian
    check("মানব", SyntaxKind::Identifier); // Bengali
    check("人的", SyntaxKind::Identifier); // Chinese
    check("человек", SyntaxKind::Identifier); // Cyrillic
    check("मानव", SyntaxKind::Identifier); // Devanagari
    check("ადამიანური", SyntaxKind::Identifier); // Gregorian
    check("άνθρωπος", SyntaxKind::Identifier); // Greek
    check("માનવ", SyntaxKind::Identifier); // Gujarati
    check("אנוש", SyntaxKind::Identifier); // Hebrew
    check("ヒューマン", SyntaxKind::Identifier); // Japanese (Katakana)
    check("ಮಾನವ", SyntaxKind::Identifier); // Kannada
    check("មនុស្ស", SyntaxKind::Identifier); // Khmer
    check("인간", SyntaxKind::Identifier); // Korean
    check("ມະນຸດ", SyntaxKind::Identifier); // Lao
    check("മനുഷ്യൻ", SyntaxKind::Identifier); // Malayalam
    check("လူ့", SyntaxKind::Identifier); // Myanmar
    check("ମାନବ", SyntaxKind::Identifier); // Odia
    check("มนุษย์", SyntaxKind::Identifier); // Thai
}

#[test]
fn test_tokenize_is_lossless() {
    let source = "let x = 1 + 2 # sum\n  y := x\u{2014}3.5 @ ¤";
    let (tokens, messages) = tokenize(0u8, source);
    let text: String = tokens.iter().map(|t| t.text).collect();
    assert_eq!(text, source);
    // Byte ranges follow one another without gap.
    let mut pos = 0;
    for t in &tokens {
        assert_eq!(t.range.start, pos);
        pos = t.range.end;
    }
    assert_eq!(pos, source.len());
    // The unknown character is reported once.
    assert_eq!(messages.len(), 1);
    assert_eq!(messages[0].kind, MessageKind::Lexer(LexerMessage::UnknownCharacter('¤')));
}

#[test]
fn test_lex_newline_holds_indentation() {
    let (tokens, _) = tokenize(0u8, "a\n   b");
    assert_eq!(tokens[1].kind, SyntaxKind::Newline);
    assert_eq!(tokens[1].text, "\n   ");
    assert_eq!(tokens[2].kind, SyntaxKind::Identifier);
}

#[test]
fn test_lex_end_of_input() {
    let mut lexer = Lexer::new(0u8, "");
    assert!(lexer.next().is_none());
}

#[test]
fn test_tokenize_reports_each_unknown_character() {
    let (tokens, messages) = tokenize(0u8, "a ¤ b § c");
    let unknown = tokens.iter().filter(|t| t.kind == SyntaxKind::UnknownChar).count();
    assert_eq!(unknown, 2);
    assert_eq!(messages.len(), unknown);
    assert_eq!(messages[0].kind, MessageKind::Lexer(LexerMessage::UnknownCharacter('¤')));
    assert_eq!(messages[1].kind, MessageKind::Lexer(LexerMessage::UnknownCharacter('§')));
}

#[test]
fn test_keywords_lex_back_to_their_kind() {
    for kind in [SyntaxKind::Kwd_Let, SyntaxKind::Kwd_Forall, SyntaxKind::Kwd_Yield] {
        let text = kind.description().unwrap();
        let (tokens, _) = tokenize(0u8, &text);
        assert_eq!(tokens.len(), 1);
        assert_eq!(tokens[0].kind, kind);
    }
}
