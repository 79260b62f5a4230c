//! Messages that the lexer and the parser report about a source text.

use vstd::prelude::*;

use vstd::string::*;

use crate::diagnostic::{Diagnostic, Location, Severity};
use crate::formatting::{
    lemma_lines_view, plain_text, rendered_segments, should_colorize, FormattedString,
    FormattedStringSegment, SegmentView,
};
use crate::human::opt_part;
use crate::syntax_kind::{opt_chars, SyntaxKind};

verus! {

/// A problem found by the lexer.
#[derive(Clone, Debug, PartialEq, Eq)]
pub enum LexerMessage {
    UnknownCharacter(char),
    InvalidIndentation { expected: usize, found: usize },
}

/// A problem found by the parser.
#[allow(inconsistent_fields)]
#[derive(Clone, Debug, PartialEq, Eq)]
pub enum ParserMessage {
    MissingKind { context: Option<SyntaxKind>, expected: SyntaxKind },
    UnexpectedKind {
        context: Option<SyntaxKind>,
        given: Option<SyntaxKind>,
        expected: Vec<SyntaxKind>,
    },
}

/// A problem found by the lexer or by the parser.
#[derive(Clone, Debug, PartialEq, Eq)]
pub enum MessageKind {
    Lexer(LexerMessage),
    Parser(ParserMessage),
}

/// A problem found in a source text, with the place where it was found.
#[derive(Clone, Debug, PartialEq, Eq)]
pub struct Message<FileId> {
    pub kind: MessageKind,
    pub location: Location<FileId>,
}

impl<FileId: Copy + Default> Message<FileId> {
    /// Returns the diagnostic that reports the message at its location.
    pub fn generate_diagnostic(&self) -> (d: Diagnostic<FileId>)
        requires
            self.reportable(),
        ensures
            self.reported_by(d),
    {
        let location = Location::new(
            self.location.file_id,
            self.location.range.start..self.location.range.end,
        );
        match &self.kind {
            MessageKind::Lexer(it) => it.diagnostic(location),
            MessageKind::Parser(it) => it.diagnostic(location),
        }
    }
}

impl<FileId> Message<FileId> {
    /// Whether the diagnostic reports the message: an error at the
    /// message's location, with a description, whose title, texts and hint
    /// are those that the message calls for, with the kinds it names
    /// described plainly or in colour.
    pub open spec fn reported_by(&self, d: Diagnostic<FileId>) -> bool {
        &&& d.severity == Severity::Error
        &&& d.location == self.location
        &&& d.description is Some
        &&& match self.kind {
                MessageKind::Lexer(l) => {
                    &&& d.title@ == "Unknown character"@
                    &&& d.description matches Some(f) && f@ == seq![
                        SegmentView::Text("I encountered a token I don't know how to handle:"@),
                    ]
                    &&& d.message@ == seq![
                        SegmentView::Text("The character "@),
                        SegmentView::Code(char_debug_text(l->UnknownCharacter_0)),
                        SegmentView::Text(" is not a valid token. Did you mean to write it?"@),
                    ]
                    &&& d.hint is None
                },
                MessageKind::Parser(pm) => pm.reports_with(self.location, false, d) || pm.reports_with(
                    self.location,
                    true,
                    d,
                ),
            }
    }

    /// The message can be reported: a lexer message about an unknown
    /// character, or a parser message whose kinds can all be described to a
    /// user.
    pub open spec fn reportable(&self) -> bool {
        match self.kind {
            MessageKind::Lexer(l) => l is UnknownCharacter,
            MessageKind::Parser(p) => p.describable_spec(),
        }
    }

    /// Constructs a message of the given kind at the given location.
    pub fn new(kind: MessageKind, location: Location<FileId>) -> (m: Self)
        ensures
            m.kind == kind,
            m.location == location,
    {
        Message { kind, location }
    }
}

/// The text that `{:?}` writes for a character: the character between single
/// quotes, escaped as Rust escapes it.
pub uninterp spec fn char_debug_text(c: char) -> Seq<char>;

/// Returns the character as `{:?}` writes it.
///
/// This is the `Debug` impl of `char` in std, which writes the character
/// between single quotes with Rust's escapes (such as `'\n'` or
/// `'\u{301}'`).
#[verifier::external_body]
fn char_debug(c: char) -> (s: String)
    ensures
        s@ == char_debug_text(c),
{
    format!("{:?}", c)
}

/// A syntax kind described for a user, written plainly, such as
/// "an opening parenthesis symbol (`(`)".
pub open spec fn kind_text(k: SyntaxKind) -> Seq<char> {
    k.repr_view().sentence()
}

/// What the parser was parsing, written plainly: the kind described for a
/// user, or "something" if it is not known.
pub open spec fn context_text(context: Option<SyntaxKind>) -> Seq<char> {
    match context {
        Some(c) => kind_text(c),
        None => "something"@,
    }
}

/// The text `t` is `prefix`, then some text, then `suffix`.
pub open spec fn framed(t: Seq<char>, prefix: Seq<char>, suffix: Seq<char>) -> bool {
    &&& t.len() >= prefix.len() + suffix.len()
    &&& t.take(prefix.len() as int) == prefix
    &&& t.skip(t.len() - suffix.len()) == suffix
}

/// The text of `t` between `prefix` and `suffix`.
pub open spec fn between(t: Seq<char>, prefix: Seq<char>, suffix: Seq<char>) -> Seq<char> {
    t.subrange(prefix.len() as int, t.len() - suffix.len())
}

/// A text made of a prefix, a middle and a suffix is framed by them, with
/// that middle between.
proof fn lemma_framed(prefix: Seq<char>, x: Seq<char>, suffix: Seq<char>)
    ensures
        framed(prefix + x + suffix, prefix, suffix),
        between(prefix + x + suffix, prefix, suffix) == x,
{
    let t = prefix + x + suffix;
    assert(t.take(prefix.len() as int) =~= prefix);
    assert(t.skip(t.len() - suffix.len()) =~= suffix);
    assert(between(t, prefix, suffix) =~= x);
}

/// The formatted text is one plain text, framed by `prefix` and `suffix`.
pub open spec fn single_text_framed(f: Seq<SegmentView>, prefix: Seq<char>, suffix: Seq<char>) -> bool {
    &&& f.len() == 1
    &&& f[0] is Text
    &&& framed(f[0]->Text_0, prefix, suffix)
}

/// The text of a formatted text made of one plain text, between `prefix`
/// and `suffix`.
pub open spec fn single_text_between(f: Seq<SegmentView>, prefix: Seq<char>, suffix: Seq<char>) -> Seq<
    char,
> {
    between(f[0]->Text_0, prefix, suffix)
}

/// The words around the kind in the description of a parser message.
pub open spec fn stuck_prefix() -> Seq<char> {
    "I was partway through "@
}

pub open spec fn stuck_suffix() -> Seq<char> {
    " when I got stuck here:"@
}

/// The words around the kind in the message that a kind was expected.
pub open spec fn expected_prefix() -> Seq<char> {
    "I expected "@
}

pub open spec fn expected_suffix() -> Seq<char> {
    " here."@
}

/// The words around the keyword in the hint about a keyword used as an
/// identifier.
pub open spec fn hint_prefix() -> Seq<char> {
    "It looks like you're trying to use the reserved keyword "@
}

pub open spec fn hint_suffix() -> Seq<char> {
    " as an identifier! Try using a different name instead."@
}

/// `x` is the kind described for a user, with code in colour.
pub open spec fn kind_rendered(k: SyntaxKind, x: Seq<char>) -> bool {
    rendered_segments(k.repr_view().segments(), k.repr_view().segments().len() as int, x)
}

/// `x` is what the parser was parsing, described for a user with code in
/// colour, or "something" if it is not known.
pub open spec fn context_rendered(context: Option<SyntaxKind>, x: Seq<char>) -> bool {
    match context {
        Some(c) => kind_rendered(c, x),
        None => x == "something"@,
    }
}

/// The description of a parser message: where the parser got stuck.
pub open spec fn stuck_text(context: Option<SyntaxKind>) -> Seq<char> {
    "I was partway through "@ + context_text(context) + " when I got stuck here:"@
}

/// The message that a single kind was expected.
pub open spec fn expected_text(k: SyntaxKind) -> Seq<char> {
    "I expected "@ + kind_text(k) + " here."@
}

/// The title of a message about a missing kind: its description, if it has
/// one, and its category.
pub open spec fn missing_title(expected: SyntaxKind) -> Seq<char> {
    "Missing "@ + opt_part(expected.description_spec(), Seq::empty(), " "@) + expected.kind_spec()
}

/// The title of a message about an unexpected kind: its category, or "end
/// of file" when the input ended.
pub open spec fn unexpected_title(given: Option<SyntaxKind>) -> Seq<char> {
    "Unexpected "@ + match given {
        Some(g) => g.kind_spec(),
        None => "end of file"@,
    }
}

/// Whether an identifier was expected and a keyword came instead.
pub open spec fn keyword_as_identifier(expected: Seq<SyntaxKind>, given: Option<SyntaxKind>) -> bool {
    &&& expected.len() == 1
    &&& expected[0] == SyntaxKind::Identifier
    &&& given matches Some(g) && g.is_keyword_spec()
}

/// The hint given when a keyword stands where an identifier was expected,
/// written plainly.
pub open spec fn keyword_hint_text(keyword: Seq<char>) -> Seq<char> {
    "It looks like you're trying to use the reserved keyword "@ + "`"@ + keyword + "`"@
        + " as an identifier! Try using a different name instead."@
}

/// The kind is not the root node, which cannot be described to a user.
pub open spec fn describable(k: SyntaxKind) -> bool {
    k != SyntaxKind::Root
}

/// Every kind in the optional kind can be described to a user.
pub open spec fn describable_opt(k: Option<SyntaxKind>) -> bool {
    k matches Some(x) ==> describable(x)
}

/// Every keyword has a description.
pub proof fn lemma_keyword_description(k: SyntaxKind)
    requires
        k.is_keyword_spec(),
    ensures
        k.description_spec() is Some,
{
}

/// Returns "something", or the kind described for a user.
fn context_string(context: Option<SyntaxKind>, colorize: bool) -> (s: String)
    requires
        describable_opt(context),
    ensures
        !colorize ==> s@ == context_text(context),
        colorize ==> context_rendered(context, s@),
{
    match context {
        Some(c) => c.to_display_string(colorize),
        None => {
            proof {
                reveal_strlit("something");
            }
            String::from_str("something")
        },
    }
}

/// Returns the description of a parser message.
fn stuck_description(context: Option<SyntaxKind>, colorize: bool) -> (f: FormattedString)
    requires
        describable_opt(context),
    ensures
        !colorize ==> f@ == seq![SegmentView::Text(stuck_text(context))],
        colorize ==> single_text_framed(f@, stuck_prefix(), stuck_suffix()) && context_rendered(
            context,
            single_text_between(f@, stuck_prefix(), stuck_suffix()),
        ),
{
    let mut t = String::from_str("I was partway through ");
    let c = context_string(context, colorize);
    t.append(c.as_str());
    t.append(" when I got stuck here:");
    let f = FormattedString::new().text(t);
    proof {
        assert(f@ =~= seq![SegmentView::Text(t@)]);
        lemma_framed("I was partway through "@, c@, " when I got stuck here:"@);
    }
    f
}

/// Returns the message that a single kind was expected.
fn expected_message(expected: SyntaxKind, colorize: bool) -> (f: FormattedString)
    requires
        describable(expected),
    ensures
        !colorize ==> f@ == seq![SegmentView::Text(expected_text(expected))],
        colorize ==> single_text_framed(f@, expected_prefix(), expected_suffix()) && kind_rendered(
            expected,
            single_text_between(f@, expected_prefix(), expected_suffix()),
        ),
{
    let mut t = String::from_str("I expected ");
    let k = expected.to_display_string(colorize);
    t.append(k.as_str());
    t.append(" here.");
    let f = FormattedString::new().text(t);
    proof {
        assert(f@ =~= seq![SegmentView::Text(t@)]);
        lemma_framed("I expected "@, k@, " here."@);
    }
    f
}

impl LexerMessage {
    /// Returns the diagnostic that reports the message at the given
    /// location.
    ///
    /// Bad indentation is not reported yet, so it may not be asked for.
    pub fn diagnostic<FileId: Default>(&self, location: Location<FileId>) -> (d: Diagnostic<FileId>)
        requires
            self is UnknownCharacter,
        ensures
            d.severity == Severity::Error,
            d.title@ == "Unknown character"@,
            d.location == location,
            d.description matches Some(f) && f@ == seq![
                SegmentView::Text("I encountered a token I don't know how to handle:"@),
            ],
            d.message@ == seq![
                SegmentView::Text("The character "@),
                SegmentView::Code(char_debug_text(self->UnknownCharacter_0)),
                SegmentView::Text(" is not a valid token. Did you mean to write it?"@),
            ],
            d.hint is None,
    {
        match self {
            LexerMessage::UnknownCharacter(character) => {
                let description = FormattedString::new().text(
                    String::from_str("I encountered a token I don't know how to handle:"),
                );
                let message = FormattedString::new().text(String::from_str("The character ")).code(
                    char_debug(*character),
                ).text(String::from_str(" is not a valid token. Did you mean to write it?"));
                let d = Diagnostic::error(String::from_str("Unknown character")).location(
                    location,
                ).description(description).message(message);
                proof {
                    assert(description@ =~= seq![
                        SegmentView::Text("I encountered a token I don't know how to handle:"@),
                    ]);
                    assert(message@ =~= seq![
                        SegmentView::Text("The character "@),
                        SegmentView::Code(char_debug_text(self->UnknownCharacter_0)),
                        SegmentView::Text(" is not a valid token. Did you mean to write it?"@),
                    ]);
                }
                d
            },
            LexerMessage::InvalidIndentation { .. } => {
                proof {
                    assert(false);
                }
                Diagnostic::error(String::new())
            },
        }
    }
}

impl ParserMessage {
    /// What the parser was parsing, if it is known.
    pub open spec fn context_spec(&self) -> Option<SyntaxKind> {
        match self {
            ParserMessage::MissingKind { context, .. } => *context,
            ParserMessage::UnexpectedKind { context, .. } => *context,
        }
    }

    /// The kinds named in the message can all be described to a user.
    pub open spec fn describable_spec(&self) -> bool {
        match self {
            ParserMessage::MissingKind { context, expected } => describable_opt(*context)
                && describable(*expected),
            ParserMessage::UnexpectedKind { context, given, expected } => describable_opt(*context)
                && describable_opt(*given) && forall|i: int|
                0 <= i < expected@.len() ==> describable(#[trigger] expected@[i]),
        }
    }

    /// Whether `d` is the diagnostic that reports the message at the given
    /// location, with the kinds it names described in colour if `colorize`
    /// holds.
    pub open spec fn reports_with<FileId>(
        &self,
        location: Location<FileId>,
        colorize: bool,
        d: Diagnostic<FileId>,
    ) -> bool {
        &&& d.severity == Severity::Error
        &&& d.location == location
        &&& d.description is Some
        &&& !colorize ==> (d.description matches Some(f) && f@ == seq![
            SegmentView::Text(stuck_text(self.context_spec())),
        ])
        &&& colorize ==> (d.description matches Some(f) && single_text_framed(
            f@,
            stuck_prefix(),
            stuck_suffix(),
        ) && context_rendered(
            self.context_spec(),
            single_text_between(f@, stuck_prefix(), stuck_suffix()),
        ))
        &&& match self {
            ParserMessage::MissingKind { expected, .. } => {
                &&& d.title@ == missing_title(*expected)
                &&& !colorize ==> d.message@ == seq![SegmentView::Text(expected_text(*expected))]
                &&& colorize ==> single_text_framed(d.message@, expected_prefix(), expected_suffix())
                    && kind_rendered(
                    *expected,
                    single_text_between(d.message@, expected_prefix(), expected_suffix()),
                )
                &&& d.hint is None
            },
            ParserMessage::UnexpectedKind { given, expected, .. } => {
                &&& d.title@ == unexpected_title(*given)
                &&& expected@.len() == 1 && !colorize ==> d.message@ == seq![
                    SegmentView::Text(expected_text(expected@[0])),
                ]
                &&& expected@.len() == 1 && colorize ==> single_text_framed(
                    d.message@,
                    expected_prefix(),
                    expected_suffix(),
                ) && kind_rendered(
                    expected@[0],
                    single_text_between(d.message@, expected_prefix(), expected_suffix()),
                )
                &&& expected@.len() != 1 ==> d.message@ == seq![
                    SegmentView::Text("I expected one of the following here:"@),
                    SegmentView::LineBreak,
                    SegmentView::List(
                        Seq::new(expected@.len(), |i: int| expected@[i].repr_view().segments()),
                    ),
                    SegmentView::LineBreak,
                ]
                &&& keyword_as_identifier(expected@, *given) <==> d.hint is Some
                &&& keyword_as_identifier(expected@, *given) && !colorize ==> (d.hint matches Some(
                    h,
                ) && h@ == seq![
                    SegmentView::Text(
                        keyword_hint_text(given->Some_0.description_spec()->Some_0),
                    ),
                ])
                &&& keyword_as_identifier(expected@, *given) && colorize ==> (d.hint matches Some(h)
                    && single_text_framed(h@, hint_prefix(), hint_suffix()) && rendered_segments(
                    seq![SegmentView::Code(given->Some_0.description_spec()->Some_0)],
                    1,
                    single_text_between(h@, hint_prefix(), hint_suffix()),
                ))
            },
        }
    }

    /// Returns the diagnostic that reports the message at the given
    /// location, with the kinds it names described in colour if `colorize`
    /// holds.
    pub fn diagnostic_with<FileId: Default>(&self, location: Location<FileId>, colorize: bool) -> (d:
        Diagnostic<FileId>)
        requires
            self.describable_spec(),
        ensures
            self.reports_with(location, colorize, d),
    {
        match self {
            ParserMessage::MissingKind { context, expected } => {
                let mut title = String::from_str("Missing ");
                match expected.description() {
                    Some(desc) => {
                        title.append(desc.as_str());
                        title.append(" ");
                    },
                    None => {},
                }
                let k = expected.kind();
                title.append(k.as_str());
                proof {
                    reveal_strlit("");
                    assert(""@ =~= Seq::<char>::empty());
                    assert(title@ =~= missing_title(*expected));
                }
                let description = stuck_description(*context, colorize);
                let message = expected_message(*expected, colorize);
                Diagnostic::error(title).location(location).description(description).message(
                    message,
                )
            },
            ParserMessage::UnexpectedKind { context, given, expected } => {
                let mut title = String::from_str("Unexpected ");
                match given {
                    Some(g) => {
                        let k = g.kind();
                        title.append(k.as_str());
                    },
                    None => {
                        title.append("end of file");
                    },
                }
                let description = stuck_description(*context, colorize);
                if expected.len() == 1 {
                    let e = expected[0];
                    let message = expected_message(e, colorize);
                    let d = Diagnostic::error(title).location(location).description(
                        description,
                    ).message(message);
                    let mut keyword: Option<SyntaxKind> = None;
                    if e == SyntaxKind::Identifier {
                        match given {
                            Some(g) => {
                                if g.is_keyword() {
                                    keyword = Some(*g);
                                }
                            },
                            None => {},
                        }
                    }
                    match keyword {
                        Some(g) => {
                            proof {
                                lemma_keyword_description(g);
                            }
                            match g.description() {
                                Some(desc) => {
                                    let ghost dv = desc@;
                                    let cf = FormattedString::new().code(desc);
                                    proof {
                                        assert(cf@ =~= seq![SegmentView::Code(dv)]);
                                    }
                                    let code = cf.render(colorize);
                                    let mut h = String::from_str(
                                        "It looks like you're trying to use the reserved keyword ",
                                    );
                                    h.append(code.as_str());
                                    h.append(" as an identifier! Try using a different name instead.");
                                    let hint = FormattedString::new().text(h);
                                    proof {
                                        if !colorize {
                                            lemma_plain_single_code(dv);
                                            assert(code@ == "`"@ + dv + "`"@);
                                            assert(h@ =~= keyword_hint_text(dv));
                                        } else {
                                            lemma_framed(hint_prefix(), code@, hint_suffix());
                                        }
                                        assert(hint@ =~= seq![SegmentView::Text(h@)]);
                                    }
                                    d.hint(hint)
                                },
                                None => {
                                    proof {
                                        assert(false);
                                    }
                                    d
                                },
                            }
                        },
                        None => d,
                    }
                } else {
                    let mut list: Vec<FormattedString> = Vec::new();
                    let mut i: usize = 0;
                    while i < expected.len()
                        invariant
                            i <= expected@.len(),
                            list@.len() == i,
                            forall|j: int| 0 <= j < expected@.len() ==> describable(#[trigger] expected@[j]),
                            forall|j: int| 0 <= j < i ==> #[trigger] list@[j]@ == expected@[j].repr_view().segments(),
                        decreases expected@.len() - i,
                    {
                        let k = expected[i];
                        let repr = k.human_readable_repr();
                        let f = repr.to_formatted_string();
                        proof {
                            assert(repr@ == k.repr_view());
                        }
                        list.push(f);
                        i = i + 1;
                    }
                    let ghost lv = list@;
                    let message = FormattedString::new().text(
                        String::from_str("I expected one of the following here:"),
                    ).list(list);
                    proof {
                        lemma_lines_view(lv, lv.len() as int);
                        assert(message@[2] == SegmentView::List(
                            Seq::new(expected@.len(), |i: int| expected@[i].repr_view().segments()),
                        )) by {
                            assert(message@[2] == SegmentView::List(
                                crate::formatting::lines_view(lv, lv.len() as int),
                            ));
                            assert(crate::formatting::lines_view(lv, lv.len() as int) =~= Seq::new(
                                expected@.len(),
                                |i: int| expected@[i].repr_view().segments(),
                            ));
                        }
                        assert(message@ =~= seq![
                            SegmentView::Text("I expected one of the following here:"@),
                            SegmentView::LineBreak,
                            SegmentView::List(
                                Seq::new(expected@.len(), |i: int| expected@[i].repr_view().segments()),
                            ),
                            SegmentView::LineBreak,
                        ]);
                    }
                    Diagnostic::error(title).location(location).description(description).message(
                        message,
                    )
                }
            },
        }
    }

    /// Returns the diagnostic that reports the message at the given
    /// location, with the kinds it names described in colour if the
    /// environment and the terminal call for it.
    pub fn diagnostic<FileId: Default>(&self, location: Location<FileId>) -> (d: Diagnostic<FileId>)
        requires
            self.describable_spec(),
        ensures
            self.reports_with(location, false, d) || self.reports_with(location, true, d),
            d.severity == Severity::Error,
            d.location == location,
            d.description is Some,
            match self {
                ParserMessage::MissingKind { expected, .. } => {
                    &&& d.title@ == missing_title(*expected)
                    &&& d.hint is None
                },
                ParserMessage::UnexpectedKind { given, expected, .. } => {
                    &&& d.title@ == unexpected_title(*given)
                    &&& expected@.len() != 1 ==> d.message@ == seq![
                        SegmentView::Text("I expected one of the following here:"@),
                        SegmentView::LineBreak,
                        SegmentView::List(
                            Seq::new(expected@.len(), |i: int| expected@[i].repr_view().segments()),
                        ),
                        SegmentView::LineBreak,
                    ]
                    &&& keyword_as_identifier(expected@, *given) <==> d.hint is Some
                },
            },
    {
        let colorize = should_colorize();
        self.diagnostic_with(location, colorize)
    }
}

/// A single segment of code, written plainly, is the code between backticks.
proof fn lemma_plain_single_code(c: Seq<char>)
    ensures
        plain_text(seq![SegmentView::Code(c)]) == "`"@ + c + "`"@,
{
    crate::formatting::lemma_plain_single(SegmentView::Code(c));
}

} // verus!
