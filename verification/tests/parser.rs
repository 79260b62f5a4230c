use helios::message::{MessageKind, ParserMessage};
use helios::parse::parse;
use helios::syntax_kind::SyntaxKind;

#[derive(Debug, Clone, Copy, PartialEq, Eq, PartialOrd, Ord, Hash)]
enum HeliosLanguage {}

impl rowan::Language for HeliosLanguage {
    type Kind = SyntaxKind;

    fn kind_from_raw(raw: rowan::SyntaxKind) -> SyntaxKind {
        SyntaxKind::from_raw(raw.0).unwrap()
    }

    fn kind_to_raw(kind: SyntaxKind) -> rowan::SyntaxKind {
        rowan::SyntaxKind(kind.to_raw())
    }
}

fn debug_tree(input: &str) -> String {
    let parse = parse(0u8, input);
    let node = rowan::SyntaxNode::<HeliosLanguage>::new_root(parse.green_node().clone());
    format!("{:#?}", node)
}

/// Drops a leading line feed and the indentation common to all lines.
fn trim_indent(text: &str) -> String {
    let text = text.strip_prefix('\n').unwrap_or(text);
    let indent = text
        .lines()
        .filter(|l| !l.trim().is_empty())
        .map(|l| l.len() - l.trim_start().len())
        .min()
        .unwrap_or(0);
    text.lines()
        .map(|l| if l.len() <= indent { l.trim_start() } else { &l[indent..] })
        .collect::<Vec<_>>()
        .join("\n")
}

fn check(input: &str, expected: &str) {
    assert_eq!(debug_tree(input).trim_end(), trim_indent(expected).trim_end());
}

#[test]
fn expr_test_parse_lone_integer() {
    check(
        "123",
        r#"
Root@0..3
  Exp_Literal@0..3
    Lit_Integer@0..3 "123""#,
    );
}

#[test]
fn expr_test_parse_lone_identifier() {
    check(
        "hello_world",
        r#"
Root@0..11
  Exp_VariableRef@0..11
    Identifier@0..11 "hello_world""#,
    );
}

#[test]
fn expr_test_unary_prefix_expression_simple() {
    check(
        "-10",
        r#"
Root@0..3
  Exp_UnaryPrefix@0..3
    Sym_Minus@0..1 "-"
    Exp_Literal@1..3
      Lit_Integer@1..3 "10""#,
    );
}

#[test]
fn expr_test_parse_with_proper_binding_powers() {
    check(
        "-10+20",
        r#"
Root@0..6
  Exp_Binary@0..6
    Exp_UnaryPrefix@0..3
      Sym_Minus@0..1 "-"
      Exp_Literal@1..3
        Lit_Integer@1..3 "10"
    Sym_Plus@3..4 "+"
    Exp_Literal@4..6
      Lit_Integer@4..6 "20""#,
    );
}

#[test]
fn expr_test_binary_expression_simple() {
    check(
        "1+2",
        r#"
Root@0..3
  Exp_Binary@0..3
    Exp_Literal@0..1
      Lit_Integer@0..1 "1"
    Sym_Plus@1..2 "+"
    Exp_Literal@2..3
      Lit_Integer@2..3 "2""#,
    );
}

#[test]
fn expr_test_parse_binary_expression_left_associative() {
    check(
        "1+2+3+4",
        r#"
Root@0..7
  Exp_Binary@0..7
    Exp_Binary@0..5
      Exp_Binary@0..3
        Exp_Literal@0..1
          Lit_Integer@0..1 "1"
        Sym_Plus@1..2 "+"
        Exp_Literal@2..3
          Lit_Integer@2..3 "2"
      Sym_Plus@3..4 "+"
      Exp_Literal@4..5
        Lit_Integer@4..5 "3"
    Sym_Plus@5..6 "+"
    Exp_Literal@6..7
      Lit_Integer@6..7 "4""#,
    );
}

#[test]
fn expr_test_parse_binary_expression_with_mixed_binding_powers() {
    check(
        "1+2*3-4",
        r#"
Root@0..7
  Exp_Binary@0..7
    Exp_Binary@0..5
      Exp_Literal@0..1
        Lit_Integer@0..1 "1"
      Sym_Plus@1..2 "+"
      Exp_Binary@2..5
        Exp_Literal@2..3
          Lit_Integer@2..3 "2"
        Sym_Asterisk@3..4 "*"
        Exp_Literal@4..5
          Lit_Integer@4..5 "3"
    Sym_Minus@5..6 "-"
    Exp_Literal@6..7
      Lit_Integer@6..7 "4""#,
    );
}

#[test]
fn expr_test_parenthesized_expression() {
    check(
        "5*(2+1)",
        r#"
Root@0..7
  Exp_Binary@0..7
    Exp_Literal@0..1
      Lit_Integer@0..1 "5"
    Sym_Asterisk@1..2 "*"
    Exp_Paren@2..7
      Sym_LParen@2..3 "("
      Exp_Binary@3..6
        Exp_Literal@3..4
          Lit_Integer@3..4 "2"
        Sym_Plus@4..5 "+"
        Exp_Literal@5..6
          Lit_Integer@5..6 "1"
      Sym_RParen@6..7 ")""#,
    );
}

#[test]
fn expr_test_parse_complex_expression() {
    check(
        "-(2-((10+10)))*20+-5",
        r#"
Root@0..20
  Exp_Binary@0..20
    Exp_Binary@0..17
      Exp_UnaryPrefix@0..14
        Sym_Minus@0..1 "-"
        Exp_Paren@1..14
          Sym_LParen@1..2 "("
          Exp_Binary@2..13
            Exp_Literal@2..3
              Lit_Integer@2..3 "2"
            Sym_Minus@3..4 "-"
            Exp_Paren@4..13
              Sym_LParen@4..5 "("
              Exp_Paren@5..12
                Sym_LParen@5..6 "("
                Exp_Binary@6..11
                  Exp_Literal@6..8
                    Lit_Integer@6..8 "10"
                  Sym_Plus@8..9 "+"
                  Exp_Literal@9..11
                    Lit_Integer@9..11 "10"
                Sym_RParen@11..12 ")"
              Sym_RParen@12..13 ")"
          Sym_RParen@13..14 ")"
      Sym_Asterisk@14..15 "*"
      Exp_Literal@15..17
        Lit_Integer@15..17 "20"
    Sym_Plus@17..18 "+"
    Exp_UnaryPrefix@18..20
      Sym_Minus@18..19 "-"
      Exp_Literal@19..20
        Lit_Integer@19..20 "5""#,
    )
}

#[test]
fn expr_test_parse_number_preceded_by_whitespace() {
    check(
        "   9876",
        r#"
Root@0..7
  Whitespace@0..3 "   "
  Exp_Literal@3..7
    Lit_Integer@3..7 "9876""#,
    );
}

#[test]
fn expr_test_parse_number_followed_by_whitespace() {
    check(
        "1234   ",
        r#"
Root@0..7
  Exp_Literal@0..7
    Lit_Integer@0..4 "1234"
    Whitespace@4..7 "   ""#,
    );
}

#[test]
fn expr_test_parse_number_surrounded_by_whitespace() {
    check(
        " 123     ",
        r#"
Root@0..9
  Whitespace@0..1 " "
  Exp_Literal@1..9
    Lit_Integer@1..4 "123"
    Whitespace@4..9 "     ""#,
    );
}

#[test]
fn test_parse_global_binding_declaration() {
    check(
        "let foo = bar",
        r#"
                Root@0..13
                  Dec_GlobalBinding@0..13
                    Kwd_Let@0..3 "let"
                    Whitespace@3..4 " "
                    Identifier@4..7 "foo"
                    Whitespace@7..8 " "
                    Sym_Eq@8..9 "="
                    Whitespace@9..10 " "
                    Exp_VariableRef@10..13
                      Identifier@10..13 "bar"
            "#,
    );
}

#[test]
fn test_parse_nothing() {
    check(
        "",
        r#"
                Root@0..0
            "#,
    );
}

#[test]
fn test_parse_whitespace() {
    check(
        "   ",
        r#"
                Root@0..3
                  Whitespace@0..3 "   "
            "#,
    );
}


#[test]
fn test_parse_keeps_the_text() {
    for input in ["let x = (1 + 2) * -y", "   ", "1 +", "let = ¤", "#c\n  let a = 1\n"] {
        let p = parse(0u8, input);
        assert_eq!(p.green_node().to_string(), input);
    }
}

#[test]
fn test_parse_reports_unexpected_kind() {
    let p = parse(0u8, "let = 1");
    // The identifier and the `=` are missing, and so is the expression.
    assert_eq!(p.messages().len(), 3);
    let d = p.messages()[0].generate_diagnostic();
    assert_eq!(d.title, "Unexpected symbol");
    assert_eq!(d.location.range, 4..5);
}

#[test]
fn test_parse_reports_unknown_character_first() {
    let p = parse(0u8, "¤");
    assert!(p.messages().len() >= 1);
    let d = p.messages()[0].generate_diagnostic();
    assert_eq!(d.title, "Unknown character");
}

#[test]
fn test_source_hands_out_tokens_that_are_not_trivia_in_order() {
    let (tokens, _) = helios::lexer::tokenize(0u8, " a  # note\n b\tc ");
    let mut source = helios::source::Source::new(&tokens);
    let mut texts = Vec::new();
    loop {
        let peeked = source.peek_kind();
        match source.next_token() {
            Some(t) => {
                assert_eq!(peeked, Some(t.kind));
                texts.push(t.text);
            }
            None => {
                assert_eq!(peeked, None);
                break;
            }
        }
    }
    assert_eq!(texts, vec!["a", "b", "c"]);
    assert!(source.next_token().is_none());
}

#[test]
fn test_parse_reports_each_error_site_in_order() {
    let p = parse(0u8, "let = 1");
    let sites: Vec<(Option<SyntaxKind>, Option<SyntaxKind>, std::ops::Range<usize>)> = p
        .messages()
        .iter()
        .map(|m| match &m.kind {
            MessageKind::Parser(ParserMessage::UnexpectedKind { context, given, .. }) => {
                (*context, *given, m.location.range.clone())
            }
            _ => panic!("not a parser message"),
        })
        .collect();
    assert_eq!(
        sites,
        vec![
            (Some(SyntaxKind::Dec_GlobalBinding), Some(SyntaxKind::Sym_Eq), 4..5),
            (Some(SyntaxKind::Dec_GlobalBinding), Some(SyntaxKind::Lit_Integer), 6..7),
            (None, None, 6..7),
        ]
    );
    let expected: Vec<Vec<SyntaxKind>> = p
        .messages()
        .iter()
        .map(|m| match &m.kind {
            MessageKind::Parser(ParserMessage::UnexpectedKind { expected, .. }) => expected.clone(),
            _ => panic!("not a parser message"),
        })
        .collect();
    assert_eq!(
        expected,
        vec![
            vec![SyntaxKind::Identifier],
            vec![SyntaxKind::Sym_Eq],
            vec![
                SyntaxKind::Lit_Integer,
                SyntaxKind::Lit_Float,
                SyntaxKind::Identifier,
                SyntaxKind::Sym_LParen,
                SyntaxKind::Sym_Minus,
                SyntaxKind::Sym_Bang,
            ],
        ]
    );
}
