use helios::diagnostic::{Diagnostic, Location};
use helios::files::{ManyFilesId, OneFile};
use helios::formatting::FormattedString;
use helios::report::{emit, report_text};

fn unknown_character(range: std::ops::Range<usize>) -> Diagnostic<ManyFilesId> {
    Diagnostic::error("Unknown character".to_string())
        .location(Location::new(ManyFilesId(0), range))
        .description(FormattedString::new().text("desc".to_string()))
        .message(FormattedString::new().text("msg".to_string()))
}

#[test]
fn test_report_text_plain() {
    let d = unknown_character(4..6);
    let r = report_text("test.hl", 1, 5, 6, "let ¤ = 1\n", &d, 40, false);
    let expected = "-- Error: Unknown character ------------\n\
                    -> test.hl:1:5\n\n\
                    desc\n\n   1 | let ¤ = 1\n           ^\nmsg\n\n";
    assert_eq!(r, expected);
}

#[test]
fn test_report_text_hint_and_wide_span() {
    let d = Diagnostic::warning("Odd".to_string())
        .location(Location::new(ManyFilesId(0), 0..3))
        .message(FormattedString::new().text("aaa bbb ccc".to_string()))
        .hint(FormattedString::new().code("x".to_string()));
    let r = report_text("f", 12345, 1, 4, "abc   ", &d, 8, false);
    let expected = "-- Warning: Odd \n-> f:12345:1\n\n12345 | abc\n        ~~~\naaa bbb\nccc\n\nHint:\n`x`\n\n";
    assert_eq!(r, expected);
}

#[test]
fn test_emit_on_one_file() {
    let file = OneFile::new("test.hl", "let a = 0\nlet ¤ = 1\n");
    let d = unknown_character(14..16);
    let r = emit(&file, "test.hl", &d, 40, false);
    let expected = "-- Error: Unknown character ------------\n\
                    -> test.hl:2:5\n\n\
                    desc\n\n   2 | let ¤ = 1\n           ^\nmsg\n\n";
    assert_eq!(r, expected);
}

#[test]
fn test_emit_span_at_end_of_text() {
    let file = OneFile::new("x", "1 +");
    let d = unknown_character(3..3);
    let r = emit(&file, "x", &d, 30, false);
    assert_eq!(
        r,
        "-- Error: Unknown character --\n-> x:1:4\n\ndesc\n\n   1 | 1 +\n          ^\nmsg\n\n"
    );
}

#[test]
fn test_report_text_in_colour() {
    let d = unknown_character(4..6);
    let plain = report_text("test.hl", 1, 5, 6, "let ¤ = 1\n", &d, 40, false);
    let coloured = report_text("test.hl", 1, 5, 6, "let ¤ = 1\n", &d, 40, true);
    assert!(coloured == plain || coloured.starts_with("\u{1b}[31m-- Error: Unknown character"));
}
