//! Writing a diagnostic out for a terminal.
//!
//! A report is a header line with the severity and the title, filled with
//! dashes to the width of the terminal; the file, line and column; the
//! description; the line of source with the span underlined; the message;
//! and the hint. Texts are wrapped to the width of the terminal.

use colored::Colorize;
use vstd::prelude::*;
use vstd::string::*;
use vstd::utf8::{decode_utf8, encode_utf8_valid_utf8, is_char_boundary_start_end_of_seq};

use crate::diagnostic::{Diagnostic, Severity};
use crate::files::{
    column_index, column_of, last_start_at_or_before, lemma_line_start_boundary, lemma_line_starts,
    lemma_line_starts_ok, slice_between, text_bytes, OneFile,
};
use crate::formatting::{
    paint_yellow, painted, plain_text, rendered_segments, style_code, FormattedString,
};
use crate::text::{decimal, decimal_spec, trim_end, trim_end_spec};
use crate::utf8::byte_len;

verus! {

/// The text wrapped to lines of at most `width` columns, as
/// `textwrap::fill` wraps it.
pub uninterp spec fn fill_spec(text: Seq<char>, width: usize) -> Seq<char>;

/// The text without the spaces at its end.
pub open spec fn trim_spaces_end(s: Seq<char>) -> Seq<char>
    decreases s.len(),
{
    if s.len() > 0 && s.last() == ' ' {
        trim_spaces_end(s.drop_last())
    } else {
        s
    }
}

/// Returns the text wrapped to lines of at most `width` columns.
///
/// This is `textwrap::fill` with the width as its options. A text shorter
/// than the width (in bytes) and without a line feed comes back without its
/// trailing spaces, as the source of `textwrap` shows.
#[verifier::external_body]
fn fill(text: &str, width: usize) -> (r: String)
    ensures
        r@ == fill_spec(text@, width),
        byte_len(text@) < width && !text@.contains('\n') ==> r@ == trim_spaces_end(text@),
{
    textwrap::fill(text, width)
}

/// A style of terminal text.
#[derive(Clone, Copy, Debug, PartialEq, Eq, Structural)]
pub enum Paint {
    Magenta,
    Red,
    Yellow,
    Blue,
    Dimmed,
    Underline,
}

/// Returns the text painted magenta for a terminal.
///
/// This is `Colorize::magenta` of `colored`, written out with `to_string`.
/// Whether escape codes are written depends on the environment and the
/// terminal; either way, as the source of `colored` shows, the result is
/// the text as it is, or the text between the code of magenta (`ESC [35m`)
/// and the reset code.
#[verifier::external_body]
fn paint_magenta(s: &str) -> (r: String)
    ensures
        painted(s@, style_code(seq!['3', '5']), r@),
{
    s.magenta().to_string()
}

/// Returns the text painted red for a terminal.
///
/// This is `Colorize::red` of `colored`, written out with `to_string`: the
/// text as it is, or the text between the code of red (`ESC [31m`) and the
/// reset code.
#[verifier::external_body]
fn paint_red(s: &str) -> (r: String)
    ensures
        painted(s@, style_code(seq!['3', '1']), r@),
{
    s.red().to_string()
}

/// Returns the text painted blue for a terminal.
///
/// This is `Colorize::blue` of `colored`, written out with `to_string`: the
/// text as it is, or the text between the code of blue (`ESC [34m`) and the
/// reset code.
#[verifier::external_body]
fn paint_blue(s: &str) -> (r: String)
    ensures
        painted(s@, style_code(seq!['3', '4']), r@),
{
    s.blue().to_string()
}

/// Returns the text dimmed for a terminal.
///
/// This is `Colorize::dimmed` of `colored`, written out with `to_string`:
/// the text as it is, or the text between the code of the dimmed style
/// (`ESC [2m`) and the reset code.
#[verifier::external_body]
fn paint_dimmed(s: &str) -> (r: String)
    ensures
        painted(s@, style_code(seq!['2']), r@),
{
    s.dimmed().to_string()
}

/// Returns the text underlined for a terminal.
///
/// This is `Colorize::underline` of `colored`, written out with
/// `to_string`: the text as it is, or the text between the code of the
/// underlined style (`ESC [4m`) and the reset code.
#[verifier::external_body]
fn paint_underline(s: &str) -> (r: String)
    ensures
        painted(s@, style_code(seq!['4']), r@),
{
    s.underline().to_string()
}

/// The number of the terminal style that a paint stands for.
pub open spec fn paint_number(p: Paint) -> Seq<char> {
    match p {
        Paint::Magenta => seq!['3', '5'],
        Paint::Red => seq!['3', '1'],
        Paint::Yellow => seq!['3', '3'],
        Paint::Blue => seq!['3', '4'],
        Paint::Dimmed => seq!['2'],
        Paint::Underline => seq!['4'],
    }
}

/// Returns the text in the given style for a terminal: the text as it is
/// when colours are off, or the text between the style's code and the
/// reset code.
fn paint(s: &str, p: Paint) -> (r: String)
    ensures
        painted(s@, style_code(paint_number(p)), r@),
{
    match p {
        Paint::Magenta => paint_magenta(s),
        Paint::Red => paint_red(s),
        Paint::Yellow => paint_yellow(s),
        Paint::Blue => paint_blue(s),
        Paint::Dimmed => paint_dimmed(s),
        Paint::Underline => paint_underline(s),
    }
}

/// Returns the text in the given style if `colorize` holds, or as it is.
fn styled(s: &str, p: Paint, colorize: bool) -> (r: String)
    ensures
        !colorize ==> r@ == s@,
        colorize ==> painted(s@, style_code(paint_number(p)), r@),
{
    if colorize {
        paint(s, p)
    } else {
        String::from_str(s)
    }
}

/// The word that names a severity in a report.
pub open spec fn severity_label(s: Severity) -> Seq<char> {
    match s {
        Severity::Bug => "Bug"@,
        Severity::Error => "Error"@,
        Severity::Warning => "Warning"@,
        Severity::Note => "Note"@,
    }
}

/// The character that underlines the span of a diagnostic of a severity.
pub open spec fn underline_char(s: Severity) -> Seq<char> {
    match s {
        Severity::Bug => "^"@,
        Severity::Error => "^"@,
        Severity::Warning => "~"@,
        Severity::Note => "-"@,
    }
}

/// The colour of a report of a severity.
pub open spec fn severity_paint(s: Severity) -> Paint {
    match s {
        Severity::Bug => Paint::Magenta,
        Severity::Error => Paint::Red,
        Severity::Warning => Paint::Yellow,
        Severity::Note => Paint::Blue,
    }
}

/// The text repeated `n` times.
pub open spec fn repeat_spec(s: Seq<char>, n: nat) -> Seq<char>
    decreases n,
{
    if n == 0 {
        Seq::empty()
    } else {
        repeat_spec(s, (n - 1) as nat) + s
    }
}

/// The header of a report: the severity and the title, then dashes up to
/// the width (counted in bytes).
pub open spec fn header_spec(severity: Severity, title: Seq<char>, width: usize) -> Seq<char> {
    let msg = "-- "@ + severity_label(severity) + ": "@ + title + " "@;
    msg + repeat_spec("-"@, if byte_len(msg) < width {
        (width - byte_len(msg)) as nat
    } else {
        0
    })
}

/// The gutter before the line of source: its number, right-aligned in four
/// columns, and a bar.
pub open spec fn gutter_spec(line_number: usize) -> Seq<char> {
    let d = decimal_spec(line_number as nat);
    repeat_spec(" "@, if d.len() < 4 {
        (4 - d.len()) as nat
    } else {
        0
    }) + d + " | "@
}

/// The line that locates a report: the file's name, the line and the
/// column.
pub open spec fn location_spec(name: Seq<char>, line_number: usize, column_start: usize) -> Seq<
    char,
> {
    "-> "@ + name + ":"@ + decimal_spec(line_number as nat) + ":"@ + decimal_spec(
        column_start as nat,
    )
}

/// The part of a report that a text takes when it is there: the text
/// wrapped, then an empty line.
pub open spec fn wrapped_part(text: Option<Seq<char>>, width: usize) -> Seq<char> {
    match text {
        Some(t) => fill_spec(t, width) + "

"@,
        None => Seq::empty(),
    }
}

/// The number of marks that underline a span between two columns: their
/// difference, or one, whichever is larger.
pub open spec fn underline_count(column_start: usize, column_end: usize) -> nat {
    if column_end - column_start > 1 {
        (column_end - column_start) as nat
    } else {
        1
    }
}

/// The plain text of the description of a diagnostic, where it has one.
pub open spec fn description_text<FileId>(d: Diagnostic<FileId>) -> Option<Seq<char>> {
    match d.description {
        Some(desc) => Some(plain_text(desc@)),
        None => None,
    }
}

/// The plain text of the hint of a diagnostic, after the word `Hint`,
/// where it has one.
pub open spec fn hint_text<FileId>(d: Diagnostic<FileId>) -> Option<Seq<char>> {
    match d.hint {
        Some(hint) => Some("Hint"@ + ": "@ + plain_text(hint@)),
        None => None,
    }
}

/// The parts of a report in colour: each is a part of the plain report
/// painted, or a formatted text written out in colour.
pub struct ReportPieces {
    pub header: Seq<char>,
    pub location: Seq<char>,
    pub description: Option<Seq<char>>,
    pub gutter: Seq<char>,
    pub marks: Seq<char>,
    pub message: Seq<char>,
    pub hint_word: Seq<char>,
    pub hint: Option<Seq<char>>,
}

/// `x` is the formatted text, if any, written out in colour.
pub open spec fn rendered_opt(f: Option<FormattedString>, x: Option<Seq<char>>) -> bool {
    match (f, x) {
        (Some(f), Some(x)) => rendered_segments(f@, f@.len() as int, x),
        (None, None) => true,
        _ => false,
    }
}

/// The parts of the report in colour of a diagnostic: the header and the
/// location painted in the colour of its severity, its texts written out in
/// colour, the gutter dimmed, the marks under the span in the colour of the
/// severity, and the word `Hint` underlined.
pub open spec fn pieces_ok<FileId>(
    p: ReportPieces,
    name: Seq<char>,
    line_number: usize,
    column_start: usize,
    column_end: usize,
    d: Diagnostic<FileId>,
    width: usize,
) -> bool {
    let code = style_code(paint_number(severity_paint(d.severity)));
    &&& painted(header_spec(d.severity, d.title@, width), code, p.header)
    &&& painted(location_spec(name, line_number, column_start), code, p.location)
    &&& rendered_opt(d.description, p.description)
    &&& painted(gutter_spec(line_number), style_code(paint_number(Paint::Dimmed)), p.gutter)
    &&& painted(
        repeat_spec(underline_char(d.severity), underline_count(column_start, column_end)),
        code,
        p.marks,
    )
    &&& rendered_segments(d.message@, d.message@.len() as int, p.message)
    &&& painted("Hint"@, style_code(paint_number(Paint::Underline)), p.hint_word)
    &&& rendered_opt(d.hint, p.hint)
}

/// The report in colour made of the given parts, laid out as the plain
/// report is.
pub open spec fn report_from(
    p: ReportPieces,
    line_number: usize,
    column_start: usize,
    line: Seq<char>,
    width: usize,
) -> Seq<char> {
    p.header + "\n"@ + p.location + "\n\n"@ + wrapped_part(p.description, width) + p.gutter
        + trim_end_spec(line) + "\n"@ + repeat_spec(
        " "@,
        (gutter_spec(line_number).len() + column_start - 1) as nat,
    ) + p.marks + "\n"@ + trim_end_spec(fill_spec(p.message, width)) + "\n\n"@ + wrapped_part(
        match p.hint {
            Some(h) => Some(p.hint_word + ": "@ + h),
            None => None,
        },
        width,
    )
}

/// The plain report of a diagnostic whose span starts on the line with the
/// given number (its text given) at the given column, and ends at the
/// other given column.
pub open spec fn report_spec<FileId>(
    name: Seq<char>,
    line_number: usize,
    column_start: usize,
    column_end: usize,
    line: Seq<char>,
    d: Diagnostic<FileId>,
    width: usize,
) -> Seq<char> {
    header_spec(d.severity, d.title@, width) + "\n"@ + location_spec(name, line_number, column_start)
        + "\n\n"@ + wrapped_part(description_text(d), width) + gutter_spec(line_number)
        + trim_end_spec(line) + "\n"@ + repeat_spec(
        " "@,
        (gutter_spec(line_number).len() + column_start - 1) as nat,
    ) + repeat_spec(underline_char(d.severity), underline_count(column_start, column_end))
        + "\n"@ + trim_end_spec(fill_spec(plain_text(d.message@), width)) + "\n\n"@
        + wrapped_part(hint_text(d), width)
}

/// The length of a text repeated `n` times.
pub proof fn lemma_repeat_len(s: Seq<char>, n: nat)
    ensures
        repeat_spec(s, n).len() == n * s.len(),
    decreases n,
{
    if n > 0 {
        lemma_repeat_len(s, (n - 1) as nat);
        assert(n * s.len() == (n - 1) * s.len() + s.len()) by (nonlinear_arith);
    } else {
        assert(n * s.len() == 0) by (nonlinear_arith)
            requires
                n == 0,
        ;
    }
}

/// Appends the text `n` times.
fn push_repeat(out: &mut String, s: &str, n: usize)
    ensures
        final(out)@ == old(out)@ + repeat_spec(s@, n as nat),
{
    let mut i: usize = 0;
    while i < n
        invariant
            i <= n,
            out@ == old(out)@ + repeat_spec(s@, i as nat),
        decreases n - i,
    {
        out.append(s);
        i = i + 1;
        proof {
            assert(out@ =~= old(out)@ + repeat_spec(s@, i as nat));
        }
    }
}

/// Returns the word that names the severity, and the character that
/// underlines spans of it.
fn severity_words(s: Severity) -> (r: (&'static str, &'static str))
    ensures
        r.0@ == severity_label(s),
        r.1@ == underline_char(s),
{
    proof {
        reveal_strlit("Bug");
        reveal_strlit("Error");
        reveal_strlit("Warning");
        reveal_strlit("Note");
        reveal_strlit("^");
        reveal_strlit("~");
        reveal_strlit("-");
    }
    match s {
        Severity::Bug => ("Bug", "^"),
        Severity::Error => ("Error", "^"),
        Severity::Warning => ("Warning", "~"),
        Severity::Note => ("Note", "-"),
    }
}

/// Returns the colour of reports of the severity.
fn severity_color(s: Severity) -> (p: Paint)
    ensures
        p == severity_paint(s),
{
    match s {
        Severity::Bug => Paint::Magenta,
        Severity::Error => Paint::Red,
        Severity::Warning => Paint::Yellow,
        Severity::Note => Paint::Blue,
    }
}

/// Returns the header of a report.
fn header(severity: Severity, title: &str, width: usize) -> (h: String)
    ensures
        h@ == header_spec(severity, title@, width),
{
    let (label, _) = severity_words(severity);
    let mut msg = String::from_str("-- ");
    msg.append(label);
    msg.append(": ");
    msg.append(title);
    msg.append(" ");
    let len = msg.as_str().as_bytes().len();
    let dashes = if len < width {
        width - len
    } else {
        0
    };
    push_repeat(&mut msg, "-", dashes);
    msg
}

/// Returns the gutter before the line of source.
fn gutter(line_number: usize) -> (g: String)
    ensures
        g@ == gutter_spec(line_number),
{
    let d = decimal(line_number);
    let n = d.as_str().unicode_len();
    let mut g = String::new();
    push_repeat(&mut g, " ", if n < 4 {
        4 - n
    } else {
        0
    });
    g.append(d.as_str());
    g.append(" | ");
    proof {
        assert(Seq::<char>::empty() + repeat_spec(" "@, if d@.len() < 4 {
            (4 - d@.len()) as nat
        } else {
            0
        }) =~= repeat_spec(" "@, if d@.len() < 4 {
            (4 - d@.len()) as nat
        } else {
            0
        }));
    }
    g
}

/// Returns the wrapped text followed by an empty line, or an empty text
/// where there is none.
fn wrapped(text: Option<String>, width: usize) -> (r: String)
    ensures
        r@ == wrapped_part(
            match text {
                Some(t) => Some(t@),
                None => None,
            },
            width,
        ),
{
    match text {
        Some(t) => {
            let mut w = fill(t.as_str(), width);
            w.append("\n\n");
            w
        },
        None => String::new(),
    }
}

/// Returns the report of a diagnostic, in colour if `colorize` holds: the
/// file's name, the number of the line where the span starts and its text,
/// the columns (counted from one) where the span starts and ends, and the
/// width to wrap the texts to.
pub fn report_text<FileId>(
    name: &str,
    line_number: usize,
    column_start: usize,
    column_end: usize,
    line: &str,
    diagnostic: &Diagnostic<FileId>,
    width: usize,
    colorize: bool,
) -> (r: String)
    requires
        1 <= column_start <= column_end,
        column_start < usize::MAX - 23,
    ensures
        !colorize ==> r@ == report_spec(
            name@,
            line_number,
            column_start,
            column_end,
            line@,
            *diagnostic,
            width,
        ),
        colorize ==> exists|p: ReportPieces|
            #[trigger] pieces_ok(p, name@, line_number, column_start, column_end, *diagnostic, width)
                && r@ == report_from(p, line_number, column_start, line@, width),
{
    let color = severity_color(diagnostic.severity);
    let (_, underline) = severity_words(diagnostic.severity);

    let h = header(diagnostic.severity, diagnostic.title.as_str(), width);
    let mut out = styled(h.as_str(), color, colorize);
    let ghost header_piece = out@;
    out.append("\n");

    let mut location = String::from_str("-> ");
    location.append(name);
    location.append(":");
    let ln = decimal(line_number);
    location.append(ln.as_str());
    location.append(":");
    let cs = decimal(column_start);
    location.append(cs.as_str());
    let location = styled(location.as_str(), color, colorize);
    let ghost location_piece = location@;
    out.append(location.as_str());
    out.append("\n\n");

    let description = match &diagnostic.description {
        Some(description) => Some(description.render(colorize)),
        None => None,
    };
    let ghost description_piece = match &description {
        Some(x) => Some(x@),
        None => None::<Seq<char>>,
    };
    let part = wrapped(description, width);
    out.append(part.as_str());

    let g = gutter(line_number);
    let glen = g.as_str().unicode_len();
    let dimmed = styled(g.as_str(), Paint::Dimmed, colorize);
    let ghost gutter_piece = dimmed@;
    out.append(dimmed.as_str());
    let trimmed = trim_end(line);
    out.append(trimmed.as_str());
    out.append("\n");

    proof {
        crate::text::lemma_decimal_len(line_number as nat);
        reveal_strlit(" ");
        reveal_strlit(" | ");
        let d = decimal_spec(line_number as nat);
        lemma_repeat_len(" "@, if d.len() < 4 {
            (4 - d.len()) as nat
        } else {
            0
        });
    }
    push_repeat(&mut out, " ", glen + column_start - 1);
    let count = if column_end - column_start > 1 {
        column_end - column_start
    } else {
        1
    };
    let mut marks = String::new();
    push_repeat(&mut marks, underline, count);
    let marks = styled(marks.as_str(), color, colorize);
    let ghost marks_piece = marks@;
    proof {
        assert(Seq::<char>::empty() + repeat_spec(underline_char(diagnostic.severity), count as nat)
            =~= repeat_spec(underline_char(diagnostic.severity), count as nat));
    }
    out.append(marks.as_str());
    out.append("\n");

    let message = diagnostic.message.render(colorize);
    let ghost message_piece = message@;
    let filled = fill(message.as_str(), width);
    let trimmed = trim_end(filled.as_str());
    out.append(trimmed.as_str());
    out.append("\n\n");

    let ghost mut hint_word_piece = "Hint"@;
    let ghost mut hint_piece: Option<Seq<char>> = None;
    let hint = match &diagnostic.hint {
        Some(hint) => {
            let mut text = styled("Hint", Paint::Underline, colorize);
            proof {
                hint_word_piece = text@;
            }
            text.append(": ");
            let h = hint.render(colorize);
            proof {
                hint_piece = Some(h@);
            }
            text.append(h.as_str());
            Some(text)
        },
        None => None,
    };
    let part = wrapped(hint, width);
    out.append(part.as_str());
    proof {
        if colorize {
            let p = ReportPieces {
                header: header_piece,
                location: location_piece,
                description: description_piece,
                gutter: gutter_piece,
                marks: marks_piece,
                message: message_piece,
                hint_word: hint_word_piece,
                hint: hint_piece,
            };
            reveal_strlit("Hint");
            assert(painted("Hint"@, style_code(paint_number(Paint::Underline)), hint_word_piece));
            assert(pieces_ok(p, name@, line_number, column_start, column_end, *diagnostic, width));
            assert(out@ =~= report_from(p, line_number, column_start, line@, width));
        }
    }
    out
}

/// The index of the line of the file where the span of the diagnostic
/// starts.
pub open spec fn span_line<'s, Name, FileId>(file: &OneFile<'s, Name>, d: &Diagnostic<FileId>) -> int {
    last_start_at_or_before(file.starts(), d.location.range.start as int)
}

/// The column number, counted from one, of a byte index on the line of the
/// file where the span of the diagnostic starts.
pub open spec fn span_column<'s, Name, FileId>(
    file: &OneFile<'s, Name>,
    d: &Diagnostic<FileId>,
    byte_index: usize,
) -> int {
    let range = file.line_range_spec(span_line(file, d));
    column_of(
        text_bytes(file.source_spec()),
        range.start as int,
        range.end as int,
        byte_index as int,
    ) + 1int
}

/// The text of the line with the given index, line feed included.
pub open spec fn line_text<'s, Name>(file: &OneFile<'s, Name>, line: int) -> Seq<char> {
    let range = file.line_range_spec(line);
    decode_utf8(text_bytes(file.source_spec()).subrange(range.start as int, range.end as int))
}

/// Returns the report of a diagnostic on the given file, whose name is
/// given as it is to be shown, in colour if `colorize` holds, with its
/// texts wrapped to the given width.
///
/// The span must not end at an earlier column than the one it starts at.
pub fn emit<'s, Name, FileId>(
    file: &OneFile<'s, Name>,
    name: &str,
    diagnostic: &Diagnostic<FileId>,
    width: usize,
    colorize: bool,
) -> (r: String)
    requires
        text_bytes(file.source_spec()).len() < usize::MAX - 24,
        span_column(file, diagnostic, diagnostic.location.range.start) <= span_column(
            file,
            diagnostic,
            diagnostic.location.range.end,
        ),
    ensures
        !colorize ==> r@ == report_spec(
            name@,
            (span_line(file, diagnostic) + 1) as usize,
            span_column(file, diagnostic, diagnostic.location.range.start) as usize,
            span_column(file, diagnostic, diagnostic.location.range.end) as usize,
            line_text(file, span_line(file, diagnostic)),
            *diagnostic,
            width,
        ),
        colorize ==> exists|p: ReportPieces|
            #[trigger] pieces_ok(
                p,
                name@,
                (span_line(file, diagnostic) + 1) as usize,
                span_column(file, diagnostic, diagnostic.location.range.start) as usize,
                span_column(file, diagnostic, diagnostic.location.range.end) as usize,
                *diagnostic,
                width,
            ) && r@ == report_from(
                p,
                (span_line(file, diagnostic) + 1) as usize,
                span_column(file, diagnostic, diagnostic.location.range.start) as usize,
                line_text(file, span_line(file, diagnostic)),
                width,
            ),
{
    let source: &str = *file.source();
    let ghost b = text_bytes(source);
    let start = diagnostic.location.range.start;
    let end = diagnostic.location.range.end;
    let line_index = file.index_of_line(start);
    let starts = file.line_indexes();
    proof {
        lemma_line_starts(b, b.len() as int);
        lemma_line_starts_ok(b);
        lemma_line_start_boundary(source, line_index as int);
    }
    let line_start = starts[line_index];
    let line_end = if line_index + 1 < starts.len() {
        proof {
            lemma_line_start_boundary(source, line_index + 1);
        }
        starts[line_index + 1]
    } else {
        proof {
            encode_utf8_valid_utf8(source@);
            is_char_boundary_start_end_of_seq(b);
        }
        source.as_bytes().len()
    };
    let column_start = column_index(source, line_start..line_end, start) + 1;
    let column_end = column_index(source, line_start..line_end, end) + 1;
    let line = slice_between(source, line_start, line_end);
    report_text(name, line_index + 1, column_start, column_end, line, diagnostic, width, colorize)
}

} // verus!
