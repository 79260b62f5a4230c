//! The read-eval-print loop: what each line typed into it asks for.
//!
//! A line of only white space is skipped. A line whose text starts with a
//! colon is a command (`:exit` ends the session, `:help` asks for help); any
//! other line is Helios source to parse.

use vstd::prelude::*;
use vstd::string::*;

use crate::text::{str_eq, trim, trim_spec};

verus! {

/// What a line typed into the loop asks for.
#[derive(Debug, PartialEq, Eq)]
pub enum ReplInput {
    /// Nothing but white space.
    Blank,
    /// The command that ends the session.
    Exit,
    /// The command that asks for help.
    Help,
    /// A command that is not known, given without its colon.
    Unknown(String),
    /// Source text to parse.
    Source,
}

/// The command that a line starting with a colon gives: the text after the
/// line's first character, without white space at either end.
pub open spec fn command_of(line: Seq<char>) -> Seq<char> {
    trim_spec(line.drop_first())
}

/// A line is a command when its text, without white space at either end,
/// starts with a colon.
pub open spec fn is_command(line: Seq<char>) -> bool {
    trim_spec(line).len() > 0 && trim_spec(line)[0] == ':'
}

/// Returns what the line asks for.
///
/// The command is read from the second character of the line on, so a line
/// that is a command must start with a one-byte (ASCII) character.
pub fn classify_input(line: &str) -> (r: ReplInput)
    requires
        is_command(line@) ==> (line@[0] as u32) < 0x80,
    ensures
        trim_spec(line@).len() == 0 <==> r is Blank,
        !is_command(line@) && trim_spec(line@).len() > 0 <==> r is Source,
        is_command(line@) ==> (command_of(line@) == "exit"@ <==> r is Exit),
        is_command(line@) ==> (command_of(line@) == "help"@ <==> r is Help),
        is_command(line@) && command_of(line@) != "exit"@ && command_of(line@) != "help"@ ==> (
        r matches ReplInput::Unknown(c) && c@ == command_of(line@)),
{
    let trimmed = trim(line);
    if trimmed.as_str().unicode_len() == 0 {
        return ReplInput::Blank;
    }
    if trimmed.as_str().get_char(0) != ':' {
        return ReplInput::Source;
    }
    proof {
        assert(line@.len() > 0) by {
            if line@.len() == 0 {
                assert(crate::text::trim_end_spec(line@) == line@);
                assert(crate::text::trim_start_spec(line@) == line@);
            }
        }
    }
    let n = line.unicode_len();
    let rest = line.substring_char(1, n);
    proof {
        assert(rest@ =~= line@.drop_first());
    }
    let command = trim(rest);
    proof {
        reveal_strlit("exit");
        reveal_strlit("help");
        assert("exit"@[0] != "help"@[0]);
    }
    if str_eq(command.as_str(), "exit") {
        ReplInput::Exit
    } else if str_eq(command.as_str(), "help") {
        ReplInput::Help
    } else {
        ReplInput::Unknown(command)
    }
}

/// The text that tells the user that a command is not known.
pub open spec fn unknown_command_spec(command: Seq<char>) -> Seq<char> {
    "Unknown command: `"@ + command + "`"@
}

/// Returns the text that tells the user that a command is not known.
pub fn unknown_command_message(command: &str) -> (s: String)
    ensures
        s@ == unknown_command_spec(command@),
{
    let mut s = String::from_str("Unknown command: `");
    s.append(command);
    s.append("`");
    s
}

} // verus!
