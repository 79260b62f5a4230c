use helios::indent::process_indentations;
use helios::lexer::tokenize;
use helios::syntax_kind::SyntaxKind;

#[test]
fn test_whitespace() {
    let source = "\
let
  a = 1
  b = 2
  c = 3
let
  x = a";
    let (tokens, _) = tokenize(0u8, source);
    for token in process_indentations(tokens) {
        println!("{:?}", token);
    }
}

fn kinds(source: &str) -> Vec<SyntaxKind> {
    let (tokens, _) = tokenize(0u8, source);
    process_indentations(tokens)
        .into_iter()
        .filter(|t| !matches!(t.kind, SyntaxKind::Whitespace))
        .map(|t| t.kind)
        .collect()
}

#[test]
fn test_indent_and_dedent() {
    assert_eq!(
        kinds("let\n  a\n  b\nc"),
        vec![
            SyntaxKind::Kwd_Let,
            SyntaxKind::Indent,
            SyntaxKind::Identifier,
            SyntaxKind::Newline,
            SyntaxKind::Identifier,
            SyntaxKind::Dedent,
            SyntaxKind::Identifier,
        ]
    );
}

#[test]
fn test_dedent_between_blocks_is_an_error() {
    let (tokens, _) = tokenize(0u8, "a\n    b\n  c d\ne");
    let processed = process_indentations(tokens);
    let kinds: Vec<SyntaxKind> = processed.iter().map(|t| t.kind).collect();
    // The line at indentation 2 falls between the blocks at 0 and 4: the rest
    // of that line becomes one error token, and its line feed is dropped.
    assert_eq!(kinds, vec![
            SyntaxKind::Identifier,
            SyntaxKind::Indent,
            SyntaxKind::Identifier,
            SyntaxKind::Error,
            SyntaxKind::Identifier,
        ]);
    let error = &processed[3];
    assert_eq!(error.text, "");
    assert_eq!(error.range, 7..13);
}
