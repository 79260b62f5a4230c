use helios::diagnostic::{Location, Severity};
use helios::formatting::{FormattedString, FormattedStringSegment};
use helios::message::{LexerMessage, Message, MessageKind, ParserMessage};
use helios::syntax_kind::SyntaxKind;

#[test]
fn test_render_plain() {
    let text = FormattedString::new()
        .text("The 2nd argument for the function ".to_string())
        .code("foo".to_string())
        .text(" expected a value of type:".to_string())
        .code_block("Vector Char".to_string())
        .text("Here's a list:".to_string())
        .list(vec![
            FormattedString::new().code("Foo.T".to_string()).text(" (info)".to_string()),
            FormattedString::new().code("Quux.T".to_string()),
        ]);
    assert_eq!(
        text.render(false),
        "The 2nd argument for the function `foo` expected a value of type:\n\n    Vector Char\n\nHere's a list:\n\n    `Foo.T` (info)\n    `Quux.T`\n\n\n"
    );
    assert_eq!(
        text.finish(false),
        "The 2nd argument for the function `foo` expected a value of type:\n\n    Vector Char\n\nHere's a list:\n\n    `Foo.T` (info)\n    `Quux.T`"
    );
}

#[test]
fn test_segment_constructors() {
    assert_eq!(FormattedStringSegment::text("a".to_string()), FormattedStringSegment::Text("a".to_string()));
    assert_eq!(FormattedStringSegment::code("b".to_string()), FormattedStringSegment::Code("b".to_string()));
    let mut f = FormattedString::new();
    f.push(FormattedStringSegment::LineBreak);
    assert_eq!(f.render(false), "\n\n");
    assert_eq!(FormattedString::new().line_break(), f);
}

#[test]
fn test_unknown_character_diagnostic() {
    let d = LexerMessage::UnknownCharacter('¤').diagnostic(Location::new(0u8, 3..5));
    assert_eq!(d.severity, Severity::Error);
    assert_eq!(d.title, "Unknown character");
    assert_eq!(d.description.unwrap().render(false), "I encountered a token I don't know how to handle:");
    assert_eq!(d.message.render(false), "The character `'¤'` is not a valid token. Did you mean to write it?");
    assert!(d.hint.is_none());
}

#[test]
fn test_missing_kind_diagnostic() {
    let message = ParserMessage::MissingKind { context: Some(SyntaxKind::Exp_Paren), expected: SyntaxKind::Sym_RParen };
    let d = message.diagnostic_with(Location::new(0u8, 1..2), false);
    assert_eq!(d.title, "Missing parenthesis symbol");
    assert_eq!(
        d.description.unwrap().render(false),
        "I was partway through a parenthesized expression when I got stuck here:"
    );
    assert_eq!(d.message.render(false), "I expected a closing parenthesis symbol (`)`) here.");
    assert!(d.hint.is_none());
}

#[test]
fn test_unexpected_keyword_as_identifier_diagnostic() {
    let message = ParserMessage::UnexpectedKind {
        context: Some(SyntaxKind::Dec_GlobalBinding),
        given: Some(SyntaxKind::Kwd_Let),
        expected: vec![SyntaxKind::Identifier],
    };
    let d = message.diagnostic_with(Location::new(0u8, 4..7), false);
    assert_eq!(d.title, "Unexpected keyword");
    assert_eq!(d.message.render(false), "I expected an identifier (such as `foo`) here.");
    assert_eq!(
        d.hint.unwrap().render(false),
        "It looks like you're trying to use the reserved keyword `let` as an identifier! Try using a different name instead."
    );
}

#[test]
fn test_unexpected_end_of_file_with_several_kinds() {
    let message = ParserMessage::UnexpectedKind {
        context: None,
        given: None,
        expected: vec![SyntaxKind::Lit_Integer, SyntaxKind::Sym_LParen],
    };
    let d = message.diagnostic_with(Location::new(0u8, 0..1), false);
    assert_eq!(d.title, "Unexpected end of file");
    assert_eq!(d.description.unwrap().render(false), "I was partway through something when I got stuck here:");
    assert_eq!(
        d.message.render(false),
        "I expected one of the following here:\n\n    an integer literal (such as `123`)\n    an opening parenthesis symbol (`(`)\n\n\n"
    );
    assert!(d.hint.is_none());
}

#[test]
fn test_generate_diagnostic_keeps_location() {
    let m = Message::new(MessageKind::Lexer(LexerMessage::UnknownCharacter('%')), Location::new(7u8, 2..3));
    let d = m.generate_diagnostic();
    assert_eq!(d.location, Location::new(7u8, 2..3));
}

#[test]
fn test_render_in_colour_paints_code_yellow() {
    let f = FormattedString::new()
        .text("use ".to_string())
        .code("let".to_string())
        .text(" here".to_string());
    let r = f.render(true);
    assert!(r == "use let here" || r == "use \u{1b}[33mlet\u{1b}[0m here");
    assert_eq!(f.render(false), "use `let` here");
}

#[test]
fn test_syntax_kind_display_in_colour() {
    let plain = SyntaxKind::Sym_LParen.to_display_string(false);
    let coloured = SyntaxKind::Sym_LParen.to_display_string(true);
    assert_eq!(plain.replace('`', ""), coloured.replace("\u{1b}[33m", "").replace("\u{1b}[0m", ""));
}
