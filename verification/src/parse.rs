//! Parsing a Helios source text into a lossless syntax tree.
//!
//! [`parse`] runs the lexer, the parser and the sink in turn. The tree that
//! comes out holds every token of the text, trivia included, so its text is
//! the source text itself.

use vstd::prelude::*;

use crate::event::Event;
use crate::green::{green_text, green_walk, TreeStep};
use crate::lexer::{
    concat_texts, lemma_lex_lossless, lemma_lex_not_root, lemma_messages_from_unknown, lex,
    messages_from, token_matches, tokenize, Token,
};
use crate::message::Message;
use crate::parser::{
    messages_ok, reported, root_events, root_sites, site_reported, ErrorSite, Parser,
};
use crate::parser::{count_adds, lemma_count_adds_mono, lemma_root_adds};
use crate::sink::{
    cursor_after, events_walk, lemma_handed_out_in_order, pos_after, token_steps, token_texts, Sink,
};
use crate::source::{kinds_of, lemma_skip_trivia, skip_trivia, Source};
use crate::syntax_kind::SyntaxKind;
use crate::utf8::byte_len;
use rowan::GreenNode;

verus! {

/// The result of parsing a source text: the root of its syntax tree and the
/// messages reported about it.
#[derive(Debug)]
pub struct Parse<FileId> {
    green_node: GreenNode,
    messages: Vec<Message<FileId>>,
}

impl<FileId> Parse<FileId> {
    pub closed spec fn green_node_spec(&self) -> GreenNode {
        self.green_node
    }

    pub closed spec fn messages_spec(&self) -> Seq<Message<FileId>> {
        self.messages@
    }

    /// Constructs a parse result from the given tree and messages.
    pub fn new(green_node: GreenNode, messages: Vec<Message<FileId>>) -> (p: Self)
        ensures
            p.green_node_spec() == green_node,
            p.messages_spec() == messages@,
    {
        Parse { green_node, messages }
    }

    /// Returns the root node of the syntax tree.
    pub fn green_node(&self) -> (n: &GreenNode)
        ensures
            *n == self.green_node_spec(),
    {
        &self.green_node
    }

    /// Returns the messages reported about the source text.
    pub fn messages(&self) -> (m: &[Message<FileId>])
        ensures
            m@ == self.messages_spec(),
    {
        self.messages.as_slice()
    }
}

/// Concatenating the texts of one more token adds its text at the end.
proof fn lemma_concat_texts_push(s: Seq<char>, toks: Seq<(SyntaxKind, int, int)>, x: (
    SyntaxKind,
    int,
    int,
))
    ensures
        concat_texts(s, toks.push(x)) == concat_texts(s, toks) + s.subrange(x.1, x.2),
    decreases toks.len(),
{
    if toks.len() == 0 {
        let t = toks.push(x);
        assert(t.drop_first() =~= Seq::<(SyntaxKind, int, int)>::empty());
        assert(concat_texts(s, t.drop_first()) == Seq::<char>::empty());
        assert(concat_texts(s, t) == s.subrange(x.1, x.2) + Seq::<char>::empty());
        assert(concat_texts(s, toks) == Seq::<char>::empty());
        assert(concat_texts(s, t) =~= concat_texts(s, toks) + s.subrange(x.1, x.2));
    } else {
        assert(toks.push(x).drop_first() =~= toks.drop_first().push(x));
        lemma_concat_texts_push(s, toks.drop_first(), x);
        assert(concat_texts(s, toks.push(x)) =~= concat_texts(s, toks) + s.subrange(x.1, x.2));
    }
}

/// The texts of the first `c` tokens of a text are the texts of the first
/// `c` triples that [`lex`] gives for it.
proof fn lemma_token_texts_lex(s: Seq<char>, tokens: Seq<Token>, c: int)
    requires
        tokens.len() == lex(s).len(),
        forall|k: int| 0 <= k < tokens.len() ==> token_matches(#[trigger] tokens[k], s, lex(s)[k]),
        0 <= c <= tokens.len(),
    ensures
        token_texts(tokens, c) == concat_texts(s, lex(s).take(c)),
    decreases c,
{
    if c == 0 {
        assert(lex(s).take(0) =~= Seq::<(SyntaxKind, int, int)>::empty());
    } else {
        lemma_token_texts_lex(s, tokens, c - 1);
        assert(lex(s).take(c) =~= lex(s).take(c - 1).push(lex(s)[c - 1]));
        lemma_concat_texts_push(s, lex(s).take(c - 1), lex(s)[c - 1]);
        assert(token_matches(tokens[c - 1], s, lex(s)[c - 1]));
    }
}

/// The kinds of the tokens of a text, in order.
pub open spec fn lex_kinds(s: Seq<char>) -> Seq<SyntaxKind> {
    lex(s).map_values(|t: (SyntaxKind, int, int)| t.0)
}

/// The tokens are those that the lexer gives for the text `s`.
pub open spec fn lexed_as(tokens: Seq<Token>, s: Seq<char>) -> bool {
    &&& tokens.len() == lex(s).len()
    &&& forall|k: int| 0 <= k < tokens.len() ==> token_matches(#[trigger] tokens[k], s, lex(s)[k])
}

/// The walk through the syntax tree of the given tokens: the tree that the
/// grammar describes for their kinds, with every token, trivia included.
pub open spec fn parse_walk(tokens: Seq<Token>) -> Seq<TreeStep> {
    let e = root_events(kinds_of(tokens));
    events_walk(e, tokens, e.len() as int)
}

/// The walk through the tree of the given tokens only reads tokens that
/// are there: after each event the sink stands within the tokens.
pub open spec fn walk_in_bounds(tokens: Seq<Token>) -> bool {
    let e = root_events(kinds_of(tokens));
    forall|j: int| 0 <= j <= e.len() ==> #[trigger] cursor_after(e, kinds_of(tokens), j) <= tokens.len()
}

/// The walk through the tree of any tokens stays within them: the grammar
/// adds each token that is not trivia once, so the sink never passes the
/// end.
pub proof fn lemma_walk_in_bounds(tokens: Seq<Token>)
    ensures
        walk_in_bounds(tokens),
{
    let ks = kinds_of(tokens);
    let e = root_events(ks);
    lemma_root_adds(ks);
    assert forall|j: int| 0 <= j <= e.len() implies #[trigger] cursor_after(e, ks, j) <= tokens.len() by {
        if j > 0 {
            lemma_count_adds_mono(e, j, e.len() as int);
            lemma_handed_out_in_order(ks, count_adds(e, j));
        }
    }
}

/// The sink never stands before the first token.
proof fn lemma_pos_after_nonneg(ks: Seq<SyntaxKind>, a: nat)
    ensures
        pos_after(ks, a) >= 0,
        skip_trivia(ks, pos_after(ks, a)) >= 0,
    decreases a,
{
    if a > 0 {
        lemma_pos_after_nonneg(ks, (a - 1) as nat);
    }
    let x = pos_after(ks, a);
    if x <= ks.len() {
        lemma_skip_trivia(ks, x);
    }
}

/// The walk through a tree depends on the tokens only through their kinds
/// and texts.
proof fn lemma_walk_same_tokens(e: Seq<Event>, t1: Seq<Token>, t2: Seq<Token>, i: int)
    requires
        t1.len() == t2.len(),
        forall|k: int| 0 <= k < t1.len() ==> #[trigger] t1[k].kind == t2[k].kind && t1[k].text@ == t2[k].text@,
        forall|j: int| 0 <= j <= i ==> #[trigger] cursor_after(e, kinds_of(t1), j) <= t1.len(),
    ensures
        events_walk(e, t1, i) == events_walk(e, t2, i),
    decreases i,
{
    assert(kinds_of(t1) =~= kinds_of(t2));
    if i > 0 {
        lemma_walk_same_tokens(e, t1, t2, i - 1);
        let ks = kinds_of(t1);
        assert(cursor_after(e, ks, i) <= t1.len());
        lemma_pos_after_nonneg(ks, count_adds(e, i - 1));
        lemma_token_steps_same(t1, t2, cursor_after(e, ks, i - 1), cursor_after(e, ks, i));
    }
}

proof fn lemma_token_steps_same(t1: Seq<Token>, t2: Seq<Token>, a: int, b: int)
    requires
        t1.len() == t2.len(),
        forall|k: int| 0 <= k < t1.len() ==> #[trigger] t1[k].kind == t2[k].kind && t1[k].text@ == t2[k].text@,
        0 <= a,
        b <= t1.len(),
    ensures
        token_steps(t1, a, b) == token_steps(t2, a, b),
    decreases b - a,
{
    if a < b {
        lemma_token_steps_same(t1, t2, a, b - 1);
        assert(t1[b - 1].kind == t2[b - 1].kind && t1[b - 1].text@ == t2[b - 1].text@);
    }
}

/// The tree of a text is determined by the text: two sequences of tokens
/// that the lexer gives for it have the same walk.
pub proof fn lemma_parse_walk_determined(t1: Seq<Token>, t2: Seq<Token>, s: Seq<char>)
    requires
        lexed_as(t1, s),
        lexed_as(t2, s),
    ensures
        parse_walk(t1) == parse_walk(t2),
{
    lemma_walk_in_bounds(t1);
    assert forall|k: int| 0 <= k < t1.len() implies #[trigger] t1[k].kind == t2[k].kind && t1[k].text@
        == t2[k].text@ by {
        assert(token_matches(t1[k], s, lex(s)[k]));
        assert(token_matches(t2[k], s, lex(s)[k]));
    }
    assert(kinds_of(t1) =~= kinds_of(t2));
    let e = root_events(kinds_of(t1));
    lemma_walk_same_tokens(e, t1, t2, e.len() as int);
}

/// Whether messages report the error sites depends on the tokens only
/// through their kinds and ranges.
proof fn lemma_reported_same_tokens<FileId>(
    a: Seq<Message<FileId>>,
    b: Seq<Message<FileId>>,
    sites: Seq<ErrorSite>,
    t1: Seq<Token>,
    t2: Seq<Token>,
    file_id: FileId,
)
    requires
        reported(a, b, sites, t1, file_id),
        t1.len() == t2.len(),
        t1.len() > 0 || sites.len() == 0,
        forall|k: int| 0 <= k < t1.len() ==> #[trigger] t1[k].kind == t2[k].kind && t1[k].range == t2[k].range,
    ensures
        reported(a, b, sites, t2, file_id),
{
    assert forall|i: int| 0 <= i < sites.len() implies site_reported(
        #[trigger] b[a.len() + i],
        sites[i],
        t2,
        file_id,
    ) by {
        assert(site_reported(b[a.len() + i], sites[i], t1, file_id));
        let n = sites[i].1;
        if 0 <= n < t1.len() {
            assert(t1[n].kind == t2[n].kind && t1[n].range == t2[n].range);
        } else {
            let l = t1.len() - 1;
            assert(t1[l].kind == t2[l].kind && t1[l].range == t2[l].range);
        }
    }
}

/// What parsing the text `source` of the file `file_id` gives: a tree
/// whose text is the source text and whose walk is the one the grammar
/// ([`root_events`]) describes for the kinds of its tokens; the messages of
/// the lexer, in the order of the text; then one message of the parser for
/// each error site of the grammar ([`root_sites`]), in order.
pub open spec fn parsed_from<FileId>(p: Parse<FileId>, file_id: FileId, source: Seq<char>) -> bool {
    &&& green_text(p.green_node_spec()) == source
    &&& p.messages_spec().len() >= messages_from(source, 0, file_id).len()
    &&& p.messages_spec().take(messages_from(source, 0, file_id).len() as int) == messages_from(
        source,
        0,
        file_id,
    )
    &&& messages_ok(
        p.messages_spec().skip(messages_from(source, 0, file_id).len() as int),
        file_id,
        lex_kinds(source),
    )
    &&& forall|i: int| 0 <= i < p.messages_spec().len() ==> (#[trigger] p.messages_spec()[i]).reportable()
    &&& forall|tokens: Seq<Token>|
        #[trigger] lexed_as(tokens, source) ==> green_walk(p.green_node_spec()) == parse_walk(tokens)
            && reported(
            Seq::empty(),
            p.messages_spec().skip(messages_from(source, 0, file_id).len() as int),
            root_sites(lex_kinds(source)),
            tokens,
            file_id,
        )
}

/// Parses the given source text.
///
/// The tree is the one that the grammar ([`root_events`]) describes for the
/// kinds of the tokens of the text, with every token in it, trivia
/// included, so that its text is the source text. The messages are those
/// of the lexer, in the order of the text, followed by those of the parser,
/// one for each error site of the grammar ([`root_sites`]).
/// (The length of a text in a tree is kept as a `u32`, so the text may not
/// be longer than `u32::MAX` bytes.)
pub fn parse<FileId: Copy>(file_id: FileId, source: &str) -> (p: Parse<FileId>)
    requires
        byte_len(source@) <= u32::MAX,
    ensures
        parsed_from(p, file_id, source@),
{
    let (tokens, mut messages) = tokenize(file_id, source);
    let ghost lexer_messages = messages@;
    let src = Source::new(tokens.as_slice());
    let parser = Parser::new(file_id, src);
    let (events, mut parser_messages) = parser.parse();
    let ghost pm = parser_messages@;
    proof {
        lemma_token_texts_lex(source@, tokens@, tokens@.len() as int);
        assert(lex(source@).take(tokens@.len() as int) =~= lex(source@));
        lemma_lex_lossless(source@);
    }
    let sink = Sink::new(tokens.as_slice(), events);
    let green_node = sink.finish();
    messages.append(&mut parser_messages);
    proof {
        assert(messages@.take(lexer_messages.len() as int) =~= lexer_messages);
        assert(messages@.skip(lexer_messages.len() as int) =~= pm);
        assert(kinds_of(tokens@) =~= lex_kinds(source@));
        lemma_messages_from_unknown(source@, 0, file_id);
        lemma_lex_not_root(source@);
        assert forall|i: int| 0 <= i < messages@.len() implies (#[trigger] messages@[i]).reportable() by {
            if i >= lexer_messages.len() {
                let j = i - lexer_messages.len();
                assert(messages@[i] == pm[j]);
                let m = pm[j];
                if m.kind->Parser_0->UnexpectedKind_given is Some {
                    let g = m.kind->Parser_0->UnexpectedKind_given->Some_0;
                    let k = choose|k: int| 0 <= k < lex_kinds(source@).len() && lex_kinds(source@)[k] == g;
                    assert(lex(source@)[k].0 != SyntaxKind::Root);
                }
            } else {
                assert(messages@[i] == lexer_messages[i]);
            }
        }
    }
    proof {
        assert(lexed_as(tokens@, source@));
        assert(kinds_of(tokens@) =~= lex_kinds(source@));
        if tokens@.len() == 0 {
            assert(root_sites(lex_kinds(source@)) =~= Seq::<ErrorSite>::empty());
        }
        assert forall|t: Seq<Token>| #[trigger] lexed_as(t, source@) implies green_walk(green_node)
            == parse_walk(t) && reported(
            Seq::empty(),
            messages@.skip(lexer_messages.len() as int),
            root_sites(lex_kinds(source@)),
            t,
            file_id,
        ) by {
            lemma_parse_walk_determined(tokens@, t, source@);
            assert forall|k: int| 0 <= k < tokens@.len() implies #[trigger] tokens@[k].kind == t[k].kind
                && tokens@[k].range == t[k].range by {
                assert(token_matches(tokens@[k], source@, lex(source@)[k]));
                assert(token_matches(t[k], source@, lex(source@)[k]));
            }
            lemma_reported_same_tokens(
                Seq::empty(),
                messages@.skip(lexer_messages.len() as int),
                root_sites(lex_kinds(source@)),
                tokens@,
                t,
                file_id,
            );
        }
    }
    Parse::new(green_node, messages)
}

} // verus!
