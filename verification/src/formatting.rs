//! Formatted text for diagnostics: plain text, inline code, code blocks,
//! line breaks and lists.
//!
//! A [`FormattedString`] is a list of segments. It is written out plainly,
//! with inline code between backticks, or with code painted in colour on a
//! terminal that shows colours.

use colored::Colorize;
use vstd::prelude::*;
use vstd::string::*;

use crate::text::{trim_end, trim_end_spec};

verus! {

/// A segment of a formatted text.
#[derive(Debug, PartialEq, Eq)]
pub enum FormattedStringSegment {
    LineBreak,
    Text(String),
    Code(String),
    CodeBlock(String),
    List(Vec<FormattedString>),
}

/// A formatted text: a list of segments.
#[derive(Default, Debug, PartialEq, Eq)]
pub struct FormattedString {
    segments: Vec<FormattedStringSegment>,
}

/// The abstract value of a segment: its texts as character sequences, and a
/// list as the segments of each of its lines.
pub enum SegmentView {
    LineBreak,
    Text(Seq<char>),
    Code(Seq<char>),
    CodeBlock(Seq<char>),
    List(Seq<Seq<SegmentView>>),
}

/// The abstract value of a segment.
pub closed spec fn segment_view(s: FormattedStringSegment) -> SegmentView
    decreases s, 0int,
{
    match s {
        FormattedStringSegment::LineBreak => SegmentView::LineBreak,
        FormattedStringSegment::Text(t) => SegmentView::Text(t@),
        FormattedStringSegment::Code(c) => SegmentView::Code(c@),
        FormattedStringSegment::CodeBlock(b) => SegmentView::CodeBlock(b@),
        FormattedStringSegment::List(lines) => SegmentView::List(
            lines_view(lines@, lines@.len() as int),
        ),
    }
}

/// The abstract values of the first `n` segments.
pub closed spec fn segments_view(segs: Seq<FormattedStringSegment>, n: int) -> Seq<SegmentView>
    decreases segs, n,
{
    if n <= 0 || n > segs.len() {
        Seq::empty()
    } else {
        segments_view(segs, n - 1).push(segment_view(segs[n - 1]))
    }
}

/// The abstract values of the first `n` lines of a list.
pub closed spec fn lines_view(lines: Seq<FormattedString>, n: int) -> Seq<Seq<SegmentView>>
    decreases lines, n,
{
    if n <= 0 || n > lines.len() {
        Seq::empty()
    } else {
        lines_view(lines, n - 1).push(
            segments_view(lines[n - 1].segments@, lines[n - 1].segments@.len() as int),
        )
    }
}

impl View for FormattedString {
    type V = Seq<SegmentView>;

    closed spec fn view(&self) -> Seq<SegmentView> {
        segments_view(self.segments@, self.segments@.len() as int)
    }
}

/// How a segment is written out plainly: a line break as two line feeds,
/// code between backticks, a code block indented by four spaces, and each
/// line of a list indented by four spaces and ended by a line feed.
pub open spec fn plain_segment(s: SegmentView) -> Seq<char>
    decreases s, 0int,
{
    match s {
        SegmentView::LineBreak => "\n\n"@,
        SegmentView::Text(t) => t,
        SegmentView::Code(c) => "`"@ + c + "`"@,
        SegmentView::CodeBlock(b) => "    "@ + b,
        SegmentView::List(lines) => plain_lines(lines, lines.len() as int),
    }
}

/// The first `n` segments written out plainly, one after the other.
pub open spec fn plain_segments(segs: Seq<SegmentView>, n: int) -> Seq<char>
    decreases segs, n,
{
    if n <= 0 || n > segs.len() {
        Seq::empty()
    } else {
        plain_segments(segs, n - 1) + plain_segment(segs[n - 1])
    }
}

/// The first `n` lines of a list written out plainly.
pub open spec fn plain_lines(lines: Seq<Seq<SegmentView>>, n: int) -> Seq<char>
    decreases lines, n,
{
    if n <= 0 || n > lines.len() {
        Seq::empty()
    } else {
        plain_lines(lines, n - 1) + "    "@ + plain_segments(lines[n - 1], lines[n - 1].len() as int)
            + "\n"@
    }
}

/// A formatted text written out plainly.
pub open spec fn plain_text(v: Seq<SegmentView>) -> Seq<char> {
    plain_segments(v, v.len() as int)
}

/// The code that ends styled text on a terminal: `ESC [ 0 m`.
pub open spec fn reset_code() -> Seq<char> {
    seq!['\u{1b}', '[', '0', 'm']
}

/// The code that starts text in the style with the given number:
/// `ESC [`, the number, `m`.
pub open spec fn style_code(n: Seq<char>) -> Seq<char> {
    seq!['\u{1b}', '['] + n + seq!['m']
}

/// Whether the text holds the code that ends styled text.
pub open spec fn holds_reset(s: Seq<char>) -> bool {
    exists|i: int| 0 <= i && i + 4 <= s.len() && #[trigger] s.subrange(i, i + 4) == reset_code()
}

/// Whether `r` is what `colored` writes for the text `s` in the style that
/// `code` starts: the text as it is, when colours are off; otherwise the
/// code, the text and the reset code. (Where the text itself holds reset
/// codes, `colored` writes the style's code again after each of them, so
/// only the first code and the last reset code are stated.)
pub open spec fn painted(s: Seq<char>, code: Seq<char>, r: Seq<char>) -> bool {
    ||| r == s
    ||| !holds_reset(s) && r == code + s + reset_code()
    ||| holds_reset(s) && r.len() >= code.len() + 4 && r.take(code.len() as int) == code && r.skip(
        r.len() - 4,
    ) == reset_code()
}

/// The code that starts yellow text: `ESC [ 33 m`.
pub open spec fn yellow_code() -> Seq<char> {
    style_code(seq!['3', '3'])
}

/// Whether `r` is what a segment is written out as when colours are asked
/// for: text and line breaks as when written plainly, code painted yellow
/// (in place of the backticks), a code block indented by four spaces and
/// painted yellow, and each line of a list indented by four spaces and ended
/// by a line feed.
pub open spec fn rendered_segment(s: SegmentView, r: Seq<char>) -> bool
    decreases s, 0int,
{
    match s {
        SegmentView::LineBreak => r == "\n\n"@,
        SegmentView::Text(t) => r == t,
        SegmentView::Code(c) => painted(c, yellow_code(), r),
        SegmentView::CodeBlock(b) => r.len() >= 4 && r.take(4) == "    "@ && painted(
            b,
            yellow_code(),
            r.skip(4),
        ),
        SegmentView::List(lines) => rendered_lines(lines, lines.len() as int, r),
    }
}

/// Whether `r` is what the first `n` segments are written out as, one after
/// the other, when colours are asked for.
pub open spec fn rendered_segments(segs: Seq<SegmentView>, n: int, r: Seq<char>) -> bool
    decreases segs, n,
{
    if n <= 0 || n > segs.len() {
        r == Seq::<char>::empty()
    } else {
        exists|k: int|
            0 <= k <= r.len() && rendered_segments(segs, n - 1, #[trigger] r.take(k))
                && rendered_segment(segs[n - 1], r.skip(k))
    }
}

/// Whether `r` is what the first `n` lines of a list are written out as when
/// colours are asked for.
pub open spec fn rendered_lines(lines: Seq<Seq<SegmentView>>, n: int, r: Seq<char>) -> bool
    decreases lines, n,
{
    if n <= 0 || n > lines.len() {
        r == Seq::<char>::empty()
    } else {
        exists|k: int|
            0 <= k && k + 5 <= r.len() && rendered_lines(lines, n - 1, #[trigger] r.take(k))
                && r.subrange(k, k + 4) == "    "@ && r.last() == '\n' && rendered_segments(
                lines[n - 1],
                lines[n - 1].len() as int,
                r.subrange(k + 4, r.len() - 1),
            )
    }
}

/// One more segment written out after the first `n` adds its text at the
/// end.
proof fn lemma_rendered_segments_push(segs: Seq<SegmentView>, n: int, r: Seq<char>, x: Seq<char>)
    requires
        0 <= n < segs.len(),
        rendered_segments(segs, n, r),
        rendered_segment(segs[n], x),
    ensures
        rendered_segments(segs, n + 1, r + x),
{
    let t = r + x;
    let k = r.len() as int;
    assert(t.take(k) =~= r);
    assert(t.skip(k) =~= x);
    assert(0 <= k <= t.len() && rendered_segments(segs, n + 1 - 1, t.take(k)) && rendered_segment(
        segs[n + 1 - 1],
        t.skip(k),
    ));
}

/// One more line written out after the first `n` adds it, indented and
/// ended by a line feed, at the end.
proof fn lemma_rendered_lines_push(lines: Seq<Seq<SegmentView>>, n: int, r: Seq<char>, x: Seq<char>)
    requires
        0 <= n < lines.len(),
        rendered_lines(lines, n, r),
        rendered_segments(lines[n], lines[n].len() as int, x),
    ensures
        rendered_lines(lines, n + 1, r + "    "@ + x + "\n"@),
{
    reveal_strlit("    ");
    reveal_strlit("\n");
    let t = r + "    "@ + x + "\n"@;
    let k = r.len() as int;
    assert(t.take(k) =~= r);
    assert(t.subrange(k, k + 4) =~= "    "@);
    assert(t.subrange(k + 4, t.len() - 1) =~= x);
    assert(t.last() == '\n');
    assert(0 <= k && k + 5 <= t.len() && rendered_lines(lines, n + 1 - 1, t.take(k)));
}

/// Returns the text painted yellow for a terminal.
///
/// This is `Colorize::yellow` of `colored`, written out with `to_string`.
/// Whether escape codes are written depends on the environment and the
/// terminal; either way, as the source of `colored` shows, the result is
/// the text as it is, or the text between the code of yellow (`ESC [33m`)
/// and the reset code.
#[verifier::external_body]
pub(crate) fn paint_yellow(s: &str) -> (r: String)
    ensures
        painted(s@, style_code(seq!['3', '3']), r@),
{
    s.yellow().to_string()
}

/// Returns whether colours should be written.
///
/// This is `ShouldColorize::should_colorize` of `colored`, which reads the
/// environment and whether the output is a terminal, so nothing is stated of
/// the result.
#[verifier::external_body]
pub(crate) fn should_colorize() -> bool {
    colored::control::SHOULD_COLORIZE.should_colorize()
}

impl FormattedStringSegment {
    /// A segment of plain text.
    pub fn text(text: String) -> (s: Self)
        ensures
            segment_view(s) == SegmentView::Text(text@),
    {
        FormattedStringSegment::Text(text)
    }

    /// A segment of inline code.
    pub fn code(code: String) -> (s: Self)
        ensures
            segment_view(s) == SegmentView::Code(code@),
    {
        FormattedStringSegment::Code(code)
    }

    /// A segment of a code block.
    pub fn code_block(code_block: String) -> (s: Self)
        ensures
            segment_view(s) == SegmentView::CodeBlock(code_block@),
    {
        FormattedStringSegment::CodeBlock(code_block)
    }

    /// A segment of a list, one formatted text per line.
    pub fn list(list: Vec<FormattedString>) -> (s: Self)
        ensures
            segment_view(s) == SegmentView::List(lines_view(list@, list@.len() as int)),
    {
        FormattedStringSegment::List(list)
    }

    /// Writes the segment out, with code in colour if `colorize` holds.
    pub fn render(&self, colorize: bool) -> (r: String)
        ensures
            !colorize ==> r@ == plain_segment(segment_view(*self)),
            colorize ==> rendered_segment(segment_view(*self), r@),
        decreases self, 0int,
    {
        match self {
            FormattedStringSegment::LineBreak => {
                let r = String::from_str("\n\n");
                proof {
                    reveal_strlit("\n\n");
                    assert(r@ == "\n\n"@);
                }
                r
            },
            FormattedStringSegment::Text(text) => text.clone(),
            FormattedStringSegment::Code(code) => {
                if colorize {
                    paint_yellow(code.as_str())
                } else {
                    let mut r = String::from_str("`");
                    r.append(code.as_str());
                    r.append("`");
                    r
                }
            },
            FormattedStringSegment::CodeBlock(block) => {
                let mut r = String::from_str("    ");
                if colorize {
                    let painted = paint_yellow(block.as_str());
                    r.append(painted.as_str());
                    proof {
                        reveal_strlit("    ");
                        assert(r@.take(4) =~= "    "@);
                        assert(r@.skip(4) =~= painted@);
                    }
                } else {
                    r.append(block.as_str());
                }
                r
            },
            FormattedStringSegment::List(lines) => {
                let mut r = String::new();
                let mut i: usize = 0;
                proof {
                    lemma_lines_view(lines@, lines@.len() as int);
                }
                while i < lines.len()
                    invariant
                        *self == FormattedStringSegment::List(*lines),
                        i <= lines@.len(),
                        !colorize ==> r@ == plain_lines(
                            lines_view(lines@, lines@.len() as int),
                            i as int,
                        ),
                        colorize ==> rendered_lines(lines_view(lines@, lines@.len() as int), i as int, r@),
                    decreases lines@.len() - i,
                {
                    proof {
                        lemma_lines_view(lines@, lines@.len() as int);
                        assert(decreases_to!(*self => (*self)->List_0));
                        assert(decreases_to!((*self)->List_0 => (*self)->List_0@));
                        assert(decreases_to!((*self)->List_0@ => (*self)->List_0@[i as int]));
                    }
                    let line = lines[i].render(colorize);
                    let ghost r0 = r@;
                    r.append("    ");
                    r.append(line.as_str());
                    r.append("\n");
                    proof {
                        if colorize {
                            let lv = lines_view(lines@, lines@.len() as int);
                            let k = r0.len() as int;
                            lemma_lines_view(lines@, lines@.len() as int);
                            assert(lv[i as int] == lines@[i as int]@);
                            lemma_rendered_lines_push(lv, i as int, r0, line@);
                            assert(r@ =~= r0 + "    "@ + line@ + "\n"@);
                        }
                    }
                    i = i + 1;
                }
                r
            },
        }
    }
}

/// The abstract values of the lines of a list, line by line.
pub proof fn lemma_lines_view(lines: Seq<FormattedString>, n: int)
    requires
        0 <= n <= lines.len(),
    ensures
        lines_view(lines, n).len() == n,
        forall|i: int|
            0 <= i < n ==> #[trigger] lines_view(lines, n)[i] == lines[i]@,
    decreases n,
{
    if n > 0 {
        lemma_lines_view(lines, n - 1);
    }
}

/// The abstract values of the segments, one by one.
pub proof fn lemma_segments_view(segs: Seq<FormattedStringSegment>, n: int)
    requires
        0 <= n <= segs.len(),
    ensures
        segments_view(segs, n).len() == n,
        forall|i: int| 0 <= i < n ==> #[trigger] segments_view(segs, n)[i] == segment_view(segs[i]),
    decreases n,
{
    if n > 0 {
        lemma_segments_view(segs, n - 1);
    }
}

/// Written out plainly, the first `k` segments depend only on those
/// segments.
pub proof fn lemma_plain_prefix(a: Seq<SegmentView>, b: Seq<SegmentView>, k: int)
    requires
        0 <= k <= a.len(),
        k <= b.len(),
        forall|i: int| 0 <= i < k ==> a[i] == b[i],
    ensures
        plain_segments(a, k) == plain_segments(b, k),
    decreases k,
{
    if k > 0 {
        lemma_plain_prefix(a, b, k - 1);
    }
}

/// Written out plainly, two lists of segments one after the other give
/// their texts one after the other.
pub proof fn lemma_plain_concat(a: Seq<SegmentView>, b: Seq<SegmentView>)
    ensures
        plain_text(a + b) == plain_text(a) + plain_text(b),
    decreases b.len(),
{
    if b.len() == 0 {
        assert(a + b =~= a);
        assert(plain_text(b) == Seq::<char>::empty());
        assert(plain_text(a) + plain_text(b) =~= plain_text(a));
    } else {
        let c = b.drop_last();
        lemma_plain_concat(a, c);
        assert(a + b =~= (a + c).push(b.last()));
        lemma_plain_prefix(a + b, a + c, (a + c).len() as int);
        lemma_plain_prefix(b, c, c.len() as int);
        assert(plain_text(a + b) =~= plain_text(a) + plain_text(b));
    }
}

/// A single segment written out plainly.
pub proof fn lemma_plain_single(s: SegmentView)
    ensures
        plain_text(seq![s]) == plain_segment(s),
{
    assert(plain_segments(seq![s], 0) == Seq::<char>::empty());
    assert(Seq::<char>::empty() + plain_segment(s) =~= plain_segment(s));
}

impl FormattedString {
    /// Creates an empty formatted text.
    pub fn new() -> (f: Self)
        ensures
            f@ == Seq::<SegmentView>::empty(),
    {
        FormattedString { segments: Vec::new() }
    }

    /// Adds a segment at the end.
    pub fn push(&mut self, segment: FormattedStringSegment)
        ensures
            final(self)@ == old(self)@.push(segment_view(segment)),
    {
        self.segments.push(segment);
        proof {
            lemma_segments_view(self.segments@, self.segments@.len() as int);
            lemma_segments_view(old(self).segments@, old(self).segments@.len() as int);
            assert(final(self)@ =~= old(self)@.push(segment_view(segment)));
        }
    }

    /// Returns the text with a segment added at the end.
    pub fn with(self, segment: FormattedStringSegment) -> (f: Self)
        ensures
            f@ == self@.push(segment_view(segment)),
    {
        let mut f = self;
        f.push(segment);
        f
    }

    /// Returns the text with a line break added at the end.
    pub fn line_break(self) -> (f: Self)
        ensures
            f@ == self@.push(SegmentView::LineBreak),
    {
        self.with(FormattedStringSegment::LineBreak)
    }

    /// Returns the text with plain text added at the end.
    pub fn text(self, text: String) -> (f: Self)
        ensures
            f@ == self@.push(SegmentView::Text(text@)),
    {
        self.with(FormattedStringSegment::text(text))
    }

    /// Returns the text with inline code added at the end.
    pub fn code(self, code: String) -> (f: Self)
        ensures
            f@ == self@.push(SegmentView::Code(code@)),
    {
        self.with(FormattedStringSegment::code(code))
    }

    /// Returns the text with a code block added at the end, between line
    /// breaks.
    pub fn code_block(self, code_block: String) -> (f: Self)
        ensures
            f@ == self@.push(SegmentView::LineBreak).push(SegmentView::CodeBlock(code_block@)).push(
                SegmentView::LineBreak,
            ),
    {
        self.with(FormattedStringSegment::LineBreak).with(
            FormattedStringSegment::code_block(code_block),
        ).with(FormattedStringSegment::LineBreak)
    }

    /// Returns the text with a list added at the end, between line breaks.
    pub fn list(self, list: Vec<FormattedString>) -> (f: Self)
        ensures
            f@ == self@.push(SegmentView::LineBreak).push(
                SegmentView::List(lines_view(list@, list@.len() as int)),
            ).push(SegmentView::LineBreak),
    {
        self.with(FormattedStringSegment::LineBreak).with(FormattedStringSegment::list(list)).with(
            FormattedStringSegment::LineBreak,
        )
    }

    /// Writes the text out, with code in colour if `colorize` holds.
    pub fn render(&self, colorize: bool) -> (r: String)
        ensures
            !colorize ==> r@ == plain_text(self@),
            colorize ==> rendered_segments(self@, self@.len() as int, r@),
        decreases self, 1int,
    {
        let mut r = String::new();
        let mut i: usize = 0;
        proof {
            lemma_segments_view(self.segments@, self.segments@.len() as int);
        }
        while i < self.segments.len()
            invariant
                i <= self.segments@.len(),
                self@.len() == self.segments@.len(),
                forall|k: int| 0 <= k < self.segments@.len() ==> #[trigger] self@[k] == segment_view(self.segments@[k]),
                !colorize ==> r@ == plain_segments(self@, i as int),
                colorize ==> rendered_segments(self@, i as int, r@),
            decreases self.segments@.len() - i,
        {
            let s = self.segments[i].render(colorize);
            let ghost r0 = r@;
            r.append(s.as_str());
            proof {
                if colorize {
                    lemma_rendered_segments_push(self@, i as int, r0, s@);
                    assert(r@ =~= r0 + s@);
                }
            }
            i = i + 1;
        }
        r
    }

    /// Writes the text out, with code in colour if `colorize` holds, without
    /// the white space at its end.
    pub fn finish(self, colorize: bool) -> (r: String)
        ensures
            !colorize ==> r@ == trim_end_spec(plain_text(self@)),
            colorize ==> exists|x: Seq<char>|
                #[trigger] rendered_segments(self@, self@.len() as int, x) && r@ == trim_end_spec(x),
    {
        let s = self.render(colorize);
        trim_end(s.as_str())
    }
}

} // verus!
