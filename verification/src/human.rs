//! Human-readable descriptions of syntax kinds, as used in diagnostics.

use vstd::prelude::*;
use vstd::string::*;

use crate::formatting::{
    lemma_plain_concat, lemma_plain_single, plain_segment, plain_text, FormattedString,
    FormattedStringSegment, SegmentView,
};
use crate::syntax_kind::opt_chars;

verus! {

/// The article that precedes a noun phrase.
#[derive(Clone, Copy, Debug, PartialEq, Eq, Structural)]
pub enum Article {
    A,
    An,
    The,
}

impl Article {
    /// The article as it is written.
    pub open spec fn text_spec(self) -> Seq<char> {
        match self {
            Article::A => "a"@,
            Article::An => "an"@,
            Article::The => "the"@,
        }
    }

    /// Returns the article as it is written (`a`, `an` or `the`).
    pub fn to_display_string(&self) -> (s: String)
        ensures
            s@ == self.text_spec(),
    {
        match self {
            Article::A => String::from_str("a"),
            Article::An => String::from_str("an"),
            Article::The => String::from_str("the"),
        }
    }
}


/// Appends `prefix` and the text of `part` (if any) followed by `suffix`.
pub open spec fn opt_part(part: Option<Seq<char>>, prefix: Seq<char>, suffix: Seq<char>) -> Seq<char> {
    match part {
        Some(p) => prefix + p + suffix,
        None => Seq::empty(),
    }
}

/// The parts that make up a human-readable description of a syntax kind,
/// such as `an opening parenthesis symbol` followed by how it is written.
#[derive(Clone, Debug, PartialEq, Eq)]
pub struct HumanReadableRepr {
    pub article: Article,
    pub qualifier: Option<String>,
    pub description: Option<String>,
    pub kind: String,
    pub code_repr: Option<String>,
    pub example: Option<String>,
}

/// The abstract value of a [`HumanReadableRepr`]: its parts as character
/// sequences.
pub struct ReprView {
    pub article: Article,
    pub qualifier: Option<Seq<char>>,
    pub description: Option<Seq<char>>,
    pub kind: Seq<char>,
    pub code_repr: Option<Seq<char>>,
    pub example: Option<Seq<char>>,
}

impl View for HumanReadableRepr {
    type V = ReprView;

    open spec fn view(&self) -> ReprView {
        ReprView {
            article: self.article,
            qualifier: opt_chars(self.qualifier),
            description: opt_chars(self.description),
            kind: self.kind@,
            code_repr: opt_chars(self.code_repr),
            example: opt_chars(self.example),
        }
    }
}

/// Clones an optional string, keeping its characters.
pub fn clone_opt_string(o: &Option<String>) -> (r: Option<String>)
    ensures
        opt_chars(r) == opt_chars(*o),
{
    match o {
        Some(s) => Some(s.clone()),
        None => None,
    }
}

/// Appends `prefix`, the text of `part` and `suffix` to `out` when `part` is present.
fn push_opt_part(out: &mut String, part: &Option<String>, prefix: &str, suffix: &str)
    ensures
        final(out)@ == old(out)@ + opt_part(opt_chars(*part), prefix@, suffix@),
{
    match part {
        Some(p) => {
            out.append(prefix);
            out.append(p.as_str());
            out.append(suffix);
        },
        None => {
            assert(old(out)@ + Seq::<char>::empty() =~= old(out)@);
        },
    }
}

impl ReprView {
    /// The sentence that describes the kind, such as
    /// "an opening parenthesis symbol (`(`)" or
    /// "an integer literal (such as `123`)".
    pub open spec fn sentence(self) -> Seq<char> {
        self.article.text_spec() + " "@
            + opt_part(self.qualifier, Seq::empty(), " "@)
            + opt_part(self.description, Seq::empty(), " "@)
            + self.kind
            + opt_part(self.code_repr, " (`"@, "`)"@)
            + opt_part(self.example, " (such as `"@, "`)"@)
    }
}

/// A plain-text segment of `part` followed by `suffix`, if `part` is present.
pub open spec fn opt_text_segment(part: Option<Seq<char>>, suffix: Seq<char>) -> Seq<SegmentView> {
    match part {
        Some(p) => seq![SegmentView::Text(p + suffix)],
        None => Seq::empty(),
    }
}

/// The segments `prefix`, `part` as code, and `)`, if `part` is present.
pub open spec fn opt_code_segments(part: Option<Seq<char>>, prefix: Seq<char>) -> Seq<SegmentView> {
    match part {
        Some(p) => seq![SegmentView::Text(prefix), SegmentView::Code(p), SegmentView::Text(")"@)],
        None => Seq::empty(),
    }
}

impl ReprView {
    /// The description as a formatted text: the parts as plain text, and
    /// how the kind is written and the example as code.
    pub open spec fn segments(self) -> Seq<SegmentView> {
        seq![SegmentView::Text(self.article.text_spec() + " "@)]
            + opt_text_segment(self.qualifier, " "@)
            + opt_text_segment(self.description, " "@)
            + seq![SegmentView::Text(self.kind)]
            + opt_code_segments(self.code_repr, " ("@)
            + opt_code_segments(self.example, " (such as "@)
    }
}

/// Written out plainly, an optional text segment gives its part.
proof fn lemma_plain_opt_text(part: Option<Seq<char>>, suffix: Seq<char>)
    ensures
        plain_text(opt_text_segment(part, suffix)) == opt_part(part, Seq::empty(), suffix),
{
    match part {
        Some(p) => {
            lemma_plain_single(SegmentView::Text(p + suffix));
            assert(Seq::<char>::empty() + p + suffix =~= p + suffix);
        },
        None => {
            assert(plain_text(Seq::<SegmentView>::empty()) == Seq::<char>::empty());
        },
    }
}

/// Written out plainly, optional code segments give the code between
/// backticks after the prefix.
proof fn lemma_plain_opt_code(part: Option<Seq<char>>, prefix: Seq<char>)
    ensures
        plain_text(opt_code_segments(part, prefix)) == opt_part(part, prefix + "`"@, "`"@ + ")"@),
{
    match part {
        Some(p) => {
            let a = SegmentView::Text(prefix);
            let b = SegmentView::Code(p);
            let c = SegmentView::Text(")"@);
            assert(seq![a, b, c] =~= seq![a] + seq![b] + seq![c]);
            lemma_plain_concat(seq![a] + seq![b], seq![c]);
            lemma_plain_concat(seq![a], seq![b]);
            lemma_plain_single(a);
            lemma_plain_single(b);
            lemma_plain_single(c);
            assert(prefix + ("`"@ + p + "`"@) + ")"@ =~= prefix + "`"@ + p + ("`"@ + ")"@));
        },
        None => {
            assert(plain_text(Seq::<SegmentView>::empty()) == Seq::<char>::empty());
        },
    }
}

/// Written out plainly, the description as a formatted text is the
/// sentence that describes the kind.
pub proof fn lemma_repr_plain_text(v: ReprView)
    ensures
        plain_text(v.segments()) == v.sentence(),
{
    let s0 = seq![SegmentView::Text(v.article.text_spec() + " "@)];
    let s1 = opt_text_segment(v.qualifier, " "@);
    let s2 = opt_text_segment(v.description, " "@);
    let s3 = seq![SegmentView::Text(v.kind)];
    let s4 = opt_code_segments(v.code_repr, " ("@);
    let s5 = opt_code_segments(v.example, " (such as "@);
    lemma_plain_concat(s0 + s1 + s2 + s3 + s4, s5);
    lemma_plain_concat(s0 + s1 + s2 + s3, s4);
    lemma_plain_concat(s0 + s1 + s2, s3);
    lemma_plain_concat(s0 + s1, s2);
    lemma_plain_concat(s0, s1);
    lemma_plain_single(SegmentView::Text(v.article.text_spec() + " "@));
    lemma_plain_single(SegmentView::Text(v.kind));
    lemma_plain_opt_text(v.qualifier, " "@);
    lemma_plain_opt_text(v.description, " "@);
    lemma_plain_opt_code(v.code_repr, " ("@);
    lemma_plain_opt_code(v.example, " (such as "@);
    assert(" ("@ + "`"@ =~= " (`"@) by {
        reveal_strlit(" (");
        reveal_strlit("`");
        reveal_strlit(" (`");
    }
    assert("`"@ + ")"@ =~= "`)"@) by {
        reveal_strlit(")");
        reveal_strlit("`");
        reveal_strlit("`)");
    }
    assert(" (such as "@ + "`"@ =~= " (such as `"@) by {
        reveal_strlit(" (such as ");
        reveal_strlit("`");
        reveal_strlit(" (such as `");
    }
}

/// Appends the text of `part` followed by `suffix` as a plain-text segment,
/// if `part` is present.
fn push_opt_text(f: &mut FormattedString, part: &Option<String>, suffix: &str)
    ensures
        final(f)@ == old(f)@ + opt_text_segment(opt_chars(*part), suffix@),
{
    match part {
        Some(p) => {
            let mut t = p.clone();
            t.append(suffix);
            f.push(FormattedStringSegment::text(t));
            assert(f@ =~= old(f)@ + opt_text_segment(opt_chars(*part), suffix@));
        },
        None => {
            assert(old(f)@ + Seq::<SegmentView>::empty() =~= old(f)@);
        },
    }
}

/// Appends `prefix`, `part` as code, and `)`, if `part` is present.
fn push_opt_code(f: &mut FormattedString, part: &Option<String>, prefix: &str)
    ensures
        final(f)@ == old(f)@ + opt_code_segments(opt_chars(*part), prefix@),
{
    match part {
        Some(p) => {
            f.push(FormattedStringSegment::text(String::from_str(prefix)));
            f.push(FormattedStringSegment::code(p.clone()));
            f.push(FormattedStringSegment::text(String::from_str(")")));
            assert(f@ =~= old(f)@ + opt_code_segments(opt_chars(*part), prefix@));
        },
        None => {
            assert(old(f)@ + Seq::<SegmentView>::empty() =~= old(f)@);
        },
    }
}

impl HumanReadableRepr {
    /// Returns the description as a formatted text: the parts as plain text,
    /// and how the kind is written and the example as code.
    pub fn to_formatted_string(&self) -> (f: FormattedString)
        ensures
            f@ == self@.segments(),
    {
        let mut f = FormattedString::new();
        let mut a = self.article.to_display_string();
        a.append(" ");
        f.push(FormattedStringSegment::text(a));
        push_opt_text(&mut f, &self.qualifier, " ");
        push_opt_text(&mut f, &self.description, " ");
        f.push(FormattedStringSegment::text(self.kind.clone()));
        push_opt_code(&mut f, &self.code_repr, " (");
        push_opt_code(&mut f, &self.example, " (such as ");
        proof {
            assert(f@ =~= self@.segments());
        }
        f
    }

    /// Returns the sentence that describes the kind: the article, the
    /// qualifier, the description and the category, followed by how the kind
    /// is written and an example of it, where these are known.
    pub fn to_display_string(&self) -> (s: String)
        ensures
            s@ == self@.sentence(),
    {
        let mut out = self.article.to_display_string();
        out.append(" ");
        push_opt_part(&mut out, &self.qualifier, "", " ");
        push_opt_part(&mut out, &self.description, "", " ");
        out.append(self.kind.as_str());
        push_opt_part(&mut out, &self.code_repr, " (`", "`)");
        push_opt_part(&mut out, &self.example, " (such as `", "`)");
        proof {
            reveal_strlit("");
            assert(""@ =~= Seq::<char>::empty());
        }
        out
    }

    /// Returns a builder of the same sentence from which parts can be left out.
    pub fn omitting(&self) -> (b: HumanReadableReprStringBuilder)
        ensures
            b.article == Some(self.article),
            opt_chars(b.qualifier) == opt_chars(self.qualifier),
            opt_chars(b.description) == opt_chars(self.description),
            b.kind@ == self.kind@,
            opt_chars(b.code_repr) == opt_chars(self.code_repr),
            opt_chars(b.example) == opt_chars(self.example),
            b.sentence() == self@.sentence(),
    {
        HumanReadableReprStringBuilder {
            kind: self.kind.clone(),
            article: Some(self.article),
            qualifier: clone_opt_string(&self.qualifier),
            description: clone_opt_string(&self.description),
            code_repr: clone_opt_string(&self.code_repr),
            example: clone_opt_string(&self.example),
        }
    }
}

/// A human-readable description of a syntax kind from which parts can be
/// left out, one method call per part.
#[derive(Clone, Debug, PartialEq, Eq)]
pub struct HumanReadableReprStringBuilder {
    pub kind: String,
    pub article: Option<Article>,
    pub qualifier: Option<String>,
    pub description: Option<String>,
    pub code_repr: Option<String>,
    pub example: Option<String>,
}

impl HumanReadableReprStringBuilder {
    /// Leaves out the article.
    pub fn article(self) -> (b: Self)
        ensures
            b == (Self { article: None, ..self }),
    {
        Self { article: None, ..self }
    }

    /// Leaves out the qualifier.
    pub fn qualifier(self) -> (b: Self)
        ensures
            b == (Self { qualifier: None, ..self }),
    {
        Self { qualifier: None, ..self }
    }

    /// Leaves out the description.
    pub fn description(self) -> (b: Self)
        ensures
            b == (Self { description: None, ..self }),
    {
        Self { description: None, ..self }
    }

    /// Leaves out how the kind is written.
    pub fn code_repr(self) -> (b: Self)
        ensures
            b == (Self { code_repr: None, ..self }),
    {
        Self { code_repr: None, ..self }
    }

    /// Leaves out the example.
    pub fn example(self) -> (b: Self)
        ensures
            b == (Self { example: None, ..self }),
    {
        Self { example: None, ..self }
    }

    /// The sentence made of the parts that were not left out.
    pub open spec fn sentence(self) -> Seq<char> {
        let article = match self.article {
            Some(a) => a.text_spec() + " "@,
            None => Seq::empty(),
        };
        article
            + opt_part(opt_chars(self.qualifier), Seq::empty(), " "@)
            + opt_part(opt_chars(self.description), Seq::empty(), " "@)
            + self.kind@
            + opt_part(opt_chars(self.code_repr), " (`"@, "`)"@)
            + opt_part(opt_chars(self.example), " (such as `"@, "`)"@)
    }

    /// Returns the sentence made of the parts that were not left out.
    pub fn to_display_string(&self) -> (s: String)
        ensures
            s@ == self.sentence(),
    {
        let mut out = String::new();
        match self.article {
            Some(a) => {
                out.append(a.to_display_string().as_str());
                out.append(" ");
            },
            None => {},
        }
        push_opt_part(&mut out, &self.qualifier, "", " ");
        push_opt_part(&mut out, &self.description, "", " ");
        out.append(self.kind.as_str());
        push_opt_part(&mut out, &self.code_repr, " (`", "`)");
        push_opt_part(&mut out, &self.example, " (such as `", "`)");
        proof {
            reveal_strlit("");
            assert(""@ =~= Seq::<char>::empty());
        }
        out
    }
}

} // verus!
