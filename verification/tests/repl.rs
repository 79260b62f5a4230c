use helios::repl::{classify_input, unknown_command_message, ReplInput};
use helios::text::trim;

#[test]
fn test_classify_blank_and_source() {
    assert_eq!(classify_input("\n"), ReplInput::Blank);
    assert_eq!(classify_input("   \t\n"), ReplInput::Blank);
    assert_eq!(classify_input(""), ReplInput::Blank);
    assert_eq!(classify_input("let a = 1\n"), ReplInput::Source);
    assert_eq!(classify_input("  1 + 2"), ReplInput::Source);
}

#[test]
fn test_classify_commands() {
    assert_eq!(classify_input(":exit\n"), ReplInput::Exit);
    assert_eq!(classify_input(":  help  \n"), ReplInput::Help);
    assert_eq!(classify_input(":foo bar\n"), ReplInput::Unknown("foo bar".to_string()));
    assert_eq!(classify_input(":\n"), ReplInput::Unknown("".to_string()));
    // The command is read from the line's second character on.
    assert_eq!(classify_input(" :exit\n"), ReplInput::Unknown(":exit".to_string()));
}

#[test]
fn test_unknown_command_message() {
    assert_eq!(unknown_command_message("foo"), "Unknown command: `foo`");
}

#[test]
fn test_trim() {
    assert_eq!(trim("  a b \n"), "a b");
    assert_eq!(trim("\u{3000}x\u{3000}"), "x");
    assert_eq!(trim(" \n "), "");
}
