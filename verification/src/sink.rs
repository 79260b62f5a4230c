//! Building the syntax tree from the events of the parser.
//!
//! The [`Sink`] replays the events on a green-tree builder. Trivia, which the
//! parser never saw, are glued back in: after each event, the trivia that
//! follow are added to the node that is open at that point. A chain of
//! forward parents is opened all at once, outermost first, at the place of
//! its first node.

use vstd::prelude::*;

use crate::event::{
    chain_len, claimed, effect, events_ok, is_finish, is_marker, is_start, lemma_org_reaches,
    lemma_reaches_claimed, lemma_reaches_extend, lemma_reaches_le, lemma_reaches_org, lemma_reaches_pred,
    lemma_reaches_to_end, org_ok, reaches, sink_depth, target_of, targets_ok, Event,
};
use crate::parser::lemma_count_adds_mono;
use crate::green::{
    builder_children, builder_finish, builder_finish_node, builder_new, builder_parents,
    builder_start_node, builder_text, builder_token, builder_walk, green_text, green_walk, TreeStep,
};
use crate::lexer::Token;
use crate::parser::count_adds;
use crate::source::{
    count_nontrivia, kinds_of, lemma_count_nontrivia_bound, lemma_skip_trivia, skip_trivia,
};
use crate::syntax_kind::SyntaxKind;
use crate::utf8::{byte_len, lemma_encode_concat};
use rowan::{GreenNode, GreenNodeBuilder};

verus! {

/// The texts of the first `c` tokens, one after the other.
pub open spec fn token_texts(tokens: Seq<Token>, c: int) -> Seq<char>
    decreases c,
{
    if c <= 0 {
        Seq::empty()
    } else {
        token_texts(tokens, c - 1) + tokens[c - 1].text@
    }
}

/// The texts of more tokens take at least as many bytes.
pub proof fn lemma_token_texts_mono(tokens: Seq<Token>, c: int, d: int)
    requires
        0 <= c <= d,
    ensures
        byte_len(token_texts(tokens, c)) <= byte_len(token_texts(tokens, d)),
    decreases d - c,
{
    if c < d {
        lemma_token_texts_mono(tokens, c, d - 1);
        lemma_encode_concat(token_texts(tokens, d - 1), tokens[d - 1].text@);
    }
}

/// The state of the builder that the sink keeps: the first-child indexes of
/// the open nodes do not decrease and lie within the pending children, and
/// the root node starts at the first pending child.
pub open spec fn builder_ok(parents: Seq<nat>, children: Seq<bool>) -> bool {
    &&& forall|j: int| 0 <= j < parents.len() ==> #[trigger] parents[j] <= children.len()
    &&& forall|j: int, k: int| 0 <= j <= k < parents.len() ==> #[trigger] parents[j] <= #[trigger] parents[k]
    &&& parents.len() >= 1 ==> parents[0] == 0
}

/// Whether the sink has replaced the event at `k` by the time it handles
/// event `i`: a node that is the forward parent of another, whose chain
/// starts before `i`, is opened with the first node of its chain.
pub open spec fn replaced(e: Seq<Event>, org: Seq<int>, i: int, k: int) -> bool {
    is_start(e, k) && claimed(e, k) && org[k] < i
}

/// A cursor that stands at a token that is not trivia (or at the end), with
/// all the tokens that are not trivia before it, stands at the end.
pub proof fn lemma_cursor_end(kinds: Seq<SyntaxKind>, c: int)
    requires
        0 <= c <= kinds.len(),
        skip_trivia(kinds, c) == c,
        count_nontrivia(kinds, c) == count_nontrivia(kinds, kinds.len() as int),
    ensures
        c == kinds.len(),
{
    if c < kinds.len() {
        lemma_skip_trivia(kinds, c);
        lemma_count_nontrivia_bound(kinds, c + 1, kinds.len() as int);
    }
}

/// Skipping trivia twice is skipping them once.
pub proof fn lemma_skip_trivia_idem(kinds: Seq<SyntaxKind>, c: int)
    requires
        0 <= c <= kinds.len(),
    ensures
        skip_trivia(kinds, skip_trivia(kinds, c)) == skip_trivia(kinds, c),
{
    lemma_skip_trivia(kinds, c);
}

/// The position just after the first `a` tokens that are not trivia, each
/// reached by passing the trivia before it.
pub open spec fn pos_after(ks: Seq<SyntaxKind>, a: nat) -> int
    decreases a,
{
    if a == 0 {
        0
    } else {
        skip_trivia(ks, pos_after(ks, (a - 1) as nat)) + 1
    }
}

/// The tokens that are not trivia are handed out in order, each once, by a
/// source that starts at the first token and moves, at each
/// [`Source::next_token`](crate::source::Source::next_token), past the next
/// token that is not trivia (so that after `a` calls its cursor is
/// `pos_after(ks, a)`): once `a` of them are out, the next one handed out
/// is the one with exactly `a` tokens that are not trivia before it, and
/// once all are out, only trivia remain and none is handed out.
pub proof fn lemma_handed_out_in_order(ks: Seq<SyntaxKind>, a: nat)
    requires
        a <= count_nontrivia(ks, ks.len() as int),
    ensures
        0 <= pos_after(ks, a) <= ks.len(),
        count_nontrivia(ks, pos_after(ks, a)) == a,
        a < count_nontrivia(ks, ks.len() as int) ==> {
            let i = skip_trivia(ks, pos_after(ks, a));
            &&& i < ks.len()
            &&& !ks[i].is_trivia_spec()
            &&& count_nontrivia(ks, i) == a
        },
        a == count_nontrivia(ks, ks.len() as int) ==> skip_trivia(ks, pos_after(ks, a)) == ks.len(),
    decreases a,
{
    if a > 0 {
        lemma_handed_out_in_order(ks, (a - 1) as nat);
        let q = pos_after(ks, (a - 1) as nat);
        let j = skip_trivia(ks, q);
        lemma_skip_trivia(ks, q);
        assert(count_nontrivia(ks, j + 1) == a);
    }
    let p = pos_after(ks, a);
    lemma_skip_trivia(ks, p);
    let i = skip_trivia(ks, p);
    if i < ks.len() {
        lemma_count_nontrivia_bound(ks, i + 1, ks.len() as int);
    }
}

/// Where the sink stands in the tokens once it has handled the first `i`
/// events: past the tokens they add and the trivia that follow.
pub open spec fn cursor_after(e: Seq<Event>, ks: Seq<SyntaxKind>, i: int) -> int {
    if i <= 0 {
        0
    } else {
        skip_trivia(ks, pos_after(ks, count_adds(e, i)))
    }
}

/// The tokens from index `a` up to index `b`, as steps of a walk.
pub open spec fn token_steps(tokens: Seq<Token>, a: int, b: int) -> Seq<TreeStep>
    decreases b - a,
{
    if b <= a {
        Seq::empty()
    } else {
        token_steps(tokens, a, b - 1).push(
            TreeStep::Token(tokens[b - 1].kind.raw_spec(), tokens[b - 1].text@),
        )
    }
}

/// The kinds of the nodes of the chain of forward parents from index `k`
/// on, innermost first.
pub open spec fn chain_kinds(e: Seq<Event>, k: int) -> Seq<SyntaxKind>
    decreases e.len() - k,
{
    if !is_start(e, k) {
        Seq::empty()
    } else {
        let kind = match e[k] {
            Event::StartNode { kind, .. } => kind,
            _ => SyntaxKind::Root,
        };
        match target_of(e, k) {
            Some(t) => if k < t < e.len() {
                seq![kind] + chain_kinds(e, t)
            } else {
                seq![kind]
            },
            None => seq![kind],
        }
    }
}

/// Entering the nodes of a chain given innermost first: the outermost
/// node first.
pub open spec fn enters(ks: Seq<SyntaxKind>) -> Seq<TreeStep>
    decreases ks.len(),
{
    if ks.len() == 0 {
        Seq::empty()
    } else {
        enters(ks.drop_first()) + seq![TreeStep::Enter(ks[0].raw_spec())]
    }
}

/// The steps that event `j` adds apart from tokens: a start enters its
/// chain of forward parents, outermost first (unless it belongs to the
/// chain of an earlier start), and a finish leaves the innermost node.
pub open spec fn event_steps(e: Seq<Event>, j: int) -> Seq<TreeStep> {
    match e[j] {
        Event::StartNode { .. } => if claimed(e, j) {
            Seq::empty()
        } else {
            enters(chain_kinds(e, j))
        },
        Event::FinishNode => seq![TreeStep::Leave],
        _ => Seq::empty(),
    }
}

/// The walk through the tree that the first `i` events describe over the
/// tokens: each event's steps, then the tokens up to where the sink stands
/// after it (the token it adds, if any, and the trivia that follow).
pub open spec fn events_walk(e: Seq<Event>, tokens: Seq<Token>, i: int) -> Seq<TreeStep>
    decreases i,
{
    if i <= 0 {
        Seq::empty()
    } else {
        events_walk(e, tokens, i - 1) + event_steps(e, i - 1) + token_steps(
            tokens,
            cursor_after(e, kinds_of(tokens), i - 1),
            cursor_after(e, kinds_of(tokens), i),
        )
    }
}

/// The tokens of two ranges that meet are the tokens of both.
proof fn lemma_token_steps_concat(tokens: Seq<Token>, a: int, b: int, c: int)
    requires
        a <= b <= c,
    ensures
        token_steps(tokens, a, b) + token_steps(tokens, b, c) == token_steps(tokens, a, c),
    decreases c - b,
{
    if b == c {
        assert(token_steps(tokens, a, b) + token_steps(tokens, b, c) =~= token_steps(tokens, a, b));
    } else {
        lemma_token_steps_concat(tokens, a, b, c - 1);
        assert(token_steps(tokens, a, b) + token_steps(tokens, b, c) =~= (token_steps(tokens, a, b)
            + token_steps(tokens, b, c - 1)).push(
            TreeStep::Token(tokens[c - 1].kind.raw_spec(), tokens[c - 1].text@),
        ));
    }
}

/// The sink: it replays the events of the parser over the tokens.
pub struct Sink<'source, 'tokens> {
    tokens: &'tokens [Token<'source>],
    events: Vec<Event>,
    builder: GreenNodeBuilder<'static>,
    cursor: usize,
}

impl<'source, 'tokens> Sink<'source, 'tokens> {
    pub closed spec fn tokens_spec(&self) -> Seq<Token<'source>> {
        self.tokens@
    }

    pub closed spec fn events_spec(&self) -> Seq<Event> {
        self.events@
    }

    /// The sink is fresh: no event handled and no token added yet.
    pub closed spec fn fresh(&self) -> bool {
        &&& self.cursor == 0
        &&& builder_parents(self.builder) == Seq::<nat>::empty()
        &&& builder_children(self.builder) == Seq::<bool>::empty()
        &&& builder_text(self.builder) == Seq::<char>::empty()
        &&& builder_walk(self.builder) == Seq::<TreeStep>::empty()
    }

    /// Constructs a sink over the given tokens and events.
    pub fn new(tokens: &'tokens [Token<'source>], events: Vec<Event>) -> (s: Self)
        ensures
            s.fresh(),
            s.tokens_spec() == tokens@,
            s.events_spec() == events@,
    {
        Sink { tokens, events, builder: builder_new(), cursor: 0 }
    }

    /// Adds the token at the cursor to the tree.
    fn token(&mut self)
        requires
            old(self).cursor < old(self).tokens@.len(),
            byte_len(token_texts(old(self).tokens@, old(self).tokens@.len() as int)) <= u32::MAX,
            builder_text(old(self).builder) == token_texts(old(self).tokens@, old(self).cursor as int),
        ensures
            final(self).cursor == old(self).cursor + 1,
            final(self).tokens == old(self).tokens,
            final(self).events == old(self).events,
            builder_parents(final(self).builder) == builder_parents(old(self).builder),
            builder_children(final(self).builder) == builder_children(old(self).builder).push(false),
            builder_text(final(self).builder) == token_texts(final(self).tokens@, final(self).cursor as int),
            builder_walk(final(self).builder) == builder_walk(old(self).builder) + token_steps(
                old(self).tokens@,
                old(self).cursor as int,
                final(self).cursor as int,
            ),
    {
        proof {
            assert(token_steps(self.tokens@, self.cursor as int, self.cursor as int) =~= Seq::<
                TreeStep,
            >::empty());
            assert(token_steps(self.tokens@, self.cursor as int, self.cursor + 1) =~= seq![
                TreeStep::Token(
                    self.tokens@[self.cursor as int].kind.raw_spec(),
                    self.tokens@[self.cursor as int].text@,
                ),
            ]);
            lemma_token_texts_mono(self.tokens@, self.cursor + 1, self.tokens@.len() as int);
            lemma_encode_concat(token_texts(self.tokens@, self.cursor as int), self.tokens@[self.cursor as int].text@);
        }
        let t = &self.tokens[self.cursor];
        builder_token(&mut self.builder, t.kind.to_raw(), t.text);
        self.cursor = self.cursor + 1;
    }

    /// Adds the trivia at the cursor to the tree.
    fn eat_trivia(&mut self)
        requires
            old(self).cursor <= old(self).tokens@.len(),
            byte_len(token_texts(old(self).tokens@, old(self).tokens@.len() as int)) <= u32::MAX,
            builder_text(old(self).builder) == token_texts(old(self).tokens@, old(self).cursor as int),
            builder_ok(builder_parents(old(self).builder), builder_children(old(self).builder)),
        ensures
            final(self).cursor == skip_trivia(kinds_of(old(self).tokens@), old(self).cursor as int),
            final(self).tokens == old(self).tokens,
            final(self).events == old(self).events,
            builder_parents(final(self).builder) == builder_parents(old(self).builder),
            builder_children(final(self).builder).len() == builder_children(old(self).builder).len()
                + (final(self).cursor - old(self).cursor),
            builder_children(final(self).builder).take(builder_children(old(self).builder).len() as int)
                == builder_children(old(self).builder),
            builder_ok(builder_parents(final(self).builder), builder_children(final(self).builder)),
            builder_text(final(self).builder) == token_texts(final(self).tokens@, final(self).cursor as int),
            builder_walk(final(self).builder) == builder_walk(old(self).builder) + token_steps(
                old(self).tokens@,
                old(self).cursor as int,
                final(self).cursor as int,
            ),
    {
        let ghost ks = kinds_of(self.tokens@);
        let ghost w0 = builder_walk(self.builder);
        let ghost c0 = self.cursor as int;
        let ghost ch0 = builder_children(self.builder);
        proof {
            lemma_skip_trivia(ks, c0);
            assert(w0 + token_steps(self.tokens@, c0, c0) =~= w0);
        }
        while self.cursor < self.tokens.len() && self.tokens[self.cursor].kind.is_trivia()
            invariant
                self.tokens == old(self).tokens,
                self.events == old(self).events,
                ks == kinds_of(self.tokens@),
                c0 <= self.cursor <= self.tokens@.len(),
                skip_trivia(ks, self.cursor as int) == skip_trivia(ks, c0),
                byte_len(token_texts(self.tokens@, self.tokens@.len() as int)) <= u32::MAX,
                builder_text(self.builder) == token_texts(self.tokens@, self.cursor as int),
                builder_parents(self.builder) == builder_parents(old(self).builder),
                builder_children(self.builder).len() == ch0.len() + (self.cursor - c0),
                builder_children(self.builder).take(ch0.len() as int) == ch0,
                builder_ok(builder_parents(self.builder), builder_children(self.builder)),
                builder_walk(self.builder) == w0 + token_steps(self.tokens@, c0, self.cursor as int),
            decreases self.tokens@.len() - self.cursor,
        {
            let ghost ch = builder_children(self.builder);
            let ghost cprev = self.cursor as int;
            self.token();
            proof {
                lemma_token_steps_concat(self.tokens@, c0, cprev, self.cursor as int);
            }
            proof {
                assert(builder_children(self.builder).take(ch0.len() as int) =~= ch0) by {
                    assert(ch.take(ch0.len() as int) == ch0);
                }
            }
        }
    }

    /// Opens the chain of forward parents that starts with the node of event
    /// `i`, outermost first, and replaces the later nodes of the chain by
    /// placeholders.
    fn open_chain(
        &mut self,
        i: usize,
        kind: SyntaxKind,
        forward_parent: Option<usize>,
        Ghost(e): Ghost<Seq<Event>>,
        Ghost(org): Ghost<Seq<int>>,
    )
        requires
            events_ok(e),
            org_ok(e, org),
            i < e.len(),
            e[i as int] == (Event::StartNode { kind, forward_parent }),
            !claimed(e, i as int),
            old(self).events@.len() == e.len(),
            forall|k: int|
                0 <= k < e.len() ==> #[trigger] old(self).events@[k] == (if k <= i || replaced(
                    e,
                    org,
                    i as int,
                    k,
                ) {
                    Event::Placeholder
                } else {
                    e[k]
                }),
            builder_ok(builder_parents(old(self).builder), builder_children(old(self).builder)),
            builder_parents(old(self).builder).len() == 0 ==> builder_children(
                old(self).builder,
            ).len() == 0,
        ensures
            final(self).tokens == old(self).tokens,
            final(self).cursor == old(self).cursor,
            final(self).events@.len() == e.len(),
            forall|k: int|
                0 <= k < e.len() ==> #[trigger] final(self).events@[k] == (if k < i + 1 || replaced(
                    e,
                    org,
                    i + 1,
                    k,
                ) {
                    Event::Placeholder
                } else {
                    e[k]
                }),
            builder_parents(final(self).builder).len() == builder_parents(old(self).builder).len()
                + chain_len(e, i as int),
            builder_walk(final(self).builder) == builder_walk(old(self).builder) + enters(
                chain_kinds(e, i as int),
            ),
            builder_children(final(self).builder) == builder_children(old(self).builder),
            builder_text(final(self).builder) == builder_text(old(self).builder),
            builder_ok(builder_parents(final(self).builder), builder_children(final(self).builder)),
    {
        let ghost ii = i as int;
        let ghost b0 = self.builder;
        let ghost toks = self.tokens;
        let ghost cur0 = self.cursor;
        let mut kinds: Vec<SyntaxKind> = Vec::new();
        kinds.push(kind);
        let mut idx: usize = i;
        let mut fp = forward_parent;
        proof {
            assert(is_marker(e, ii));
            assert(org[ii] == ii);
            assert(reaches(e, ii, ii));
            assert(kinds@ + chain_kinds(e, ii).drop_first() =~= chain_kinds(e, ii));
            assert forall|k: int| 0 <= k < e.len() implies #[trigger] self.events@[k] == (if k <= i
                || replaced(e, org, ii, k) || (reaches(e, ii, k) && reaches(e, k, ii)) {
                Event::Placeholder
            } else {
                e[k]
            }) by {
                if reaches(e, ii, k) && reaches(e, k, ii) {
                    lemma_reaches_le(e, ii, k);
                    lemma_reaches_le(e, k, ii);
                }
            }
        }
        let n = self.events.len();
        while fp.is_some()
            invariant
                n == e.len(),
                events_ok(e),
                org_ok(e, org),
                ii == i,
                i <= idx < e.len(),
                !claimed(e, ii),
                org[ii] == ii,
                reaches(e, ii, idx as int),
                is_start(e, idx as int),
                target_of(e, idx as int) == (match fp {
                    Some(d) => Some(idx + d),
                    None => None::<int>,
                }),
                kinds@.len() + chain_len(e, idx as int) == chain_len(e, ii) + 1,
                kinds@ + chain_kinds(e, idx as int).drop_first() == chain_kinds(e, ii),
                self.events@.len() == e.len(),
                forall|k: int|
                    0 <= k < e.len() ==> #[trigger] self.events@[k] == (if k <= i || replaced(
                        e,
                        org,
                        ii,
                        k,
                    ) || (reaches(e, ii, k) && reaches(e, k, idx as int)) {
                        Event::Placeholder
                    } else {
                        e[k]
                    }),
                self.tokens == toks,
                self.cursor == cur0,
                self.builder == b0,
            decreases e.len() - idx,
        {
            let d = fp.unwrap();
            let ghost p = idx as int;
            let ghost t = idx + d;
            proof {
                assert(target_of(e, p) is Some);
                assert(p < t && is_marker(e, t));
                assert(!(e[t] is Placeholder));
                lemma_reaches_extend(e, ii, p, t);
                lemma_reaches_org(e, org, ii, p);
                assert(org[t] == org[p]);
                assert(!replaced(e, org, ii, t));
                if reaches(e, t, p) {
                    lemma_reaches_le(e, t, p);
                }
                assert(self.events@[t] == e[t]);
            }
            idx = idx + d;
            let ev = self.events[idx];
            self.events.set(idx, Event::Placeholder);
            match ev {
                Event::StartNode { kind, forward_parent } => {
                    kinds.push(kind);
                    fp = forward_parent;
                },
                _ => {
                    proof {
                        assert(false);
                    }
                },
            }
            proof {
                assert(e[t] is StartNode);
                assert(chain_kinds(e, p) =~= seq![chain_kinds(e, p)[0]] + chain_kinds(e, t));
                assert(kinds@ + chain_kinds(e, t).drop_first() =~= kinds@.drop_last() + chain_kinds(
                    e,
                    t,
                ));
                assert(chain_len(e, p) == 1 + chain_len(e, t));
                assert forall|k: int| 0 <= k < e.len() implies #[trigger] self.events@[k] == (
                if k <= i || replaced(e, org, ii, k) || (reaches(e, ii, k) && reaches(
                    e,
                    k,
                    t,
                )) {
                    Event::Placeholder
                } else {
                    e[k]
                }) by {
                    if k != t && reaches(e, ii, k) {
                        if reaches(e, k, p) {
                            lemma_reaches_extend(e, k, p, t);
                        }
                        if reaches(e, k, t) {
                            lemma_reaches_pred(e, k, t, p);
                        }
                    }
                    if k == t {
                        assert(reaches(e, t, t));
                    }
                }
            }
        }
        proof {
            assert forall|k: int| 0 <= k < e.len() implies #[trigger] self.events@[k] == (if k < i
                + 1 || replaced(e, org, ii + 1, k) {
                Event::Placeholder
            } else {
                e[k]
            }) by {
                if k > ii {
                    if reaches(e, ii, k) && reaches(e, k, idx as int) {
                        lemma_reaches_claimed(e, ii, k);
                        lemma_reaches_org(e, org, ii, k);
                        assert(!(e[k] is Placeholder));
                    }
                    if replaced(e, org, ii + 1, k) && !replaced(e, org, ii, k) {
                        assert(is_marker(e, k));
                        assert(org[k] == ii);
                        lemma_org_reaches(e, org, k);
                        lemma_reaches_to_end(e, ii, k, idx as int);
                    }
                }
            }
        }
        proof {
            assert(target_of(e, idx as int) is None);
            assert(chain_kinds(e, idx as int).drop_first() =~= Seq::<SyntaxKind>::empty());
            assert(kinds@ =~= chain_kinds(e, ii));
            assert(kinds@.skip(kinds@.len() as int) =~= Seq::<SyntaxKind>::empty());
            assert(builder_walk(self.builder) + enters(Seq::<SyntaxKind>::empty()) =~= builder_walk(
                self.builder,
            ));
        }
        let mut j: usize = kinds.len();
        while j > 0
            invariant
                j <= kinds@.len(),
                kinds@.len() == chain_len(e, ii),
                builder_parents(self.builder).len() == builder_parents(b0).len() + (kinds@.len()
                    - j),
                builder_children(self.builder) == builder_children(b0),
                builder_text(self.builder) == builder_text(b0),
                builder_ok(builder_parents(self.builder), builder_children(self.builder)),
                builder_parents(self.builder).len() == 0 ==> builder_children(self.builder).len()
                    == 0,
                builder_walk(self.builder) == builder_walk(b0) + enters(kinds@.skip(j as int)),
                kinds@ == chain_kinds(e, ii),
                self.events@.len() == e.len(),
                forall|k: int|
                    0 <= k < e.len() ==> #[trigger] self.events@[k] == (if k < i + 1 || replaced(
                        e,
                        org,
                        ii + 1,
                        k,
                    ) {
                        Event::Placeholder
                    } else {
                        e[k]
                    }),
                self.tokens == toks,
                self.cursor == cur0,
            decreases j,
        {
            j = j - 1;
            let raw = kinds[j].to_raw();
            builder_start_node(&mut self.builder, raw);
            proof {
                assert(kinds@.skip(j as int).drop_first() =~= kinds@.skip(j + 1));
            }
        }
        proof {
            assert(kinds@.skip(0) =~= kinds@);
        }
    }

    /// Replays the events on the builder and returns the root node of the
    /// tree.
    ///
    /// Each event is handled in turn: a start opens its chain of forward
    /// parents (or nothing, for a node already opened with its chain), a
    /// token adds the next token that is not trivia, and a finish closes the
    /// innermost open node; after each event the trivia that follow are
    /// added. The text of the tree is then the text of all the tokens.
    pub fn finish(self) -> (n: GreenNode)
        requires
            self.fresh(),
            events_ok(self.events_spec()),
            count_adds(self.events_spec(), self.events_spec().len() as int) == count_nontrivia(
                kinds_of(self.tokens_spec()),
                self.tokens_spec().len() as int,
            ),
            byte_len(token_texts(self.tokens_spec(), self.tokens_spec().len() as int)) <= u32::MAX,
        ensures
            green_text(n) == token_texts(self.tokens_spec(), self.tokens_spec().len() as int),
            green_walk(n) == events_walk(
                self.events_spec(),
                self.tokens_spec(),
                self.events_spec().len() as int,
            ),
            forall|j: int|
                0 <= j <= self.events_spec().len() ==> #[trigger] cursor_after(
                    self.events_spec(),
                    kinds_of(self.tokens_spec()),
                    j,
                ) <= self.tokens_spec().len(),
    {
        let mut s = self;
        let ghost e = s.events@;
        let ghost toks = s.tokens@;
        let ghost ks = kinds_of(toks);
        let ghost org = choose|org: Seq<int>| org_ok(e, org);
        let len = s.events.len();
        let mut i: usize = 0;
        proof {
            lemma_count_adds_mono(e, 0, e.len() as int);
        }
        while i < len
            invariant
                len == e.len(),
                i <= len,
                events_ok(e),
                org_ok(e, org),
                s.tokens@ == toks,
                ks == kinds_of(toks),
                count_adds(e, e.len() as int) == count_nontrivia(ks, toks.len() as int),
                byte_len(token_texts(toks, toks.len() as int)) <= u32::MAX,
                s.events@.len() == e.len(),
                forall|k: int|
                    0 <= k < e.len() ==> #[trigger] s.events@[k] == (if k < i || replaced(
                        e,
                        org,
                        i as int,
                        k,
                    ) {
                        Event::Placeholder
                    } else {
                        e[k]
                    }),
                s.cursor <= toks.len(),
                builder_text(s.builder) == token_texts(toks, s.cursor as int),
                builder_ok(builder_parents(s.builder), builder_children(s.builder)),
                builder_parents(s.builder).len() == sink_depth(e, i as int),
                i == 0 ==> s.cursor == 0 && builder_children(s.builder).len() == 0,
                i > 0 ==> skip_trivia(ks, s.cursor as int) == s.cursor && count_nontrivia(
                    ks,
                    s.cursor as int,
                ) == count_adds(e, i as int),
                i > 0 && sink_depth(e, i as int) == 0 ==> builder_children(s.builder) == seq![true],
                builder_walk(s.builder) == events_walk(e, toks, i as int),
                s.cursor == cursor_after(e, ks, i as int),
                forall|j: int| 0 <= j <= i ==> #[trigger] cursor_after(e, ks, j) <= toks.len(),
            decreases len - i,
        {
            let ghost ii = i as int;
            let ghost c0 = s.cursor as int;
            let ghost w0 = builder_walk(s.builder);
            let ev = s.events[i];
            s.events.set(i, Event::Placeholder);
            proof {
                assert(!(e[ii] is Placeholder));
                if is_start(e, ii) && claimed(e, ii) {
                    assert(is_marker(e, ii));
                    assert(org[ii] != ii);
                }
                assert(sink_depth(e, ii + 1) == sink_depth(e, ii) + effect(e, ii));
                if ii > 0 {
                    assert(sink_depth(e, ii) >= 1);
                }
            }
            match ev {
                Event::StartNode { kind, forward_parent } => {
                    proof {
                        assert(e[ii] == ev);
                        assert(!claimed(e, ii));
                    }
                    s.open_chain(i, kind, forward_parent, Ghost(e), Ghost(org));
                    proof {
                        assert(event_steps(e, ii) == enters(chain_kinds(e, ii)));
                        assert(builder_walk(s.builder) =~= w0 + event_steps(e, ii) + token_steps(
                            toks,
                            c0,
                            s.cursor as int,
                        ));
                    }
                },
                Event::AddToken => {
                    proof {
                        assert(e[ii] == ev);
                        lemma_count_adds_mono(e, ii + 1, e.len() as int);
                        if c0 == toks.len() {
                            assert(false);
                        }
                        lemma_skip_trivia(ks, c0);
                        assert(!ks[c0].is_trivia_spec());
                    }
                    s.token();
                    proof {
                        assert(count_nontrivia(ks, c0 + 1) == count_nontrivia(ks, c0) + 1);
                        assert(event_steps(e, ii) =~= Seq::<TreeStep>::empty());
                        assert(builder_walk(s.builder) =~= w0 + event_steps(e, ii) + token_steps(
                            toks,
                            c0,
                            s.cursor as int,
                        ));
                        if ii == 0 {
                            assert(skip_trivia(ks, 0) == 0);
                        }
                        assert(s.cursor == pos_after(ks, count_adds(e, ii + 1)));
                    }
                },
                Event::FinishNode => {
                    proof {
                        assert(e[ii] == ev);
                        lemma_token_texts_mono(toks, c0, toks.len() as int);
                    }
                    builder_finish_node(&mut s.builder);
                    proof {
                        assert(token_steps(toks, c0, c0) =~= Seq::<TreeStep>::empty());
                        assert(builder_walk(s.builder) =~= w0 + event_steps(e, ii) + token_steps(
                            toks,
                            c0,
                            s.cursor as int,
                        ));
                    }
                },
                Event::Placeholder => {
                    proof {
                        assert(is_start(e, ii) && claimed(e, ii));
                        assert(token_steps(toks, c0, c0) =~= Seq::<TreeStep>::empty());
                        assert(builder_walk(s.builder) =~= w0 + event_steps(e, ii) + token_steps(
                            toks,
                            c0,
                            s.cursor as int,
                        ));
                    }
                },
            }
            proof {
                assert forall|k: int| 0 <= k < e.len() implies #[trigger] s.events@[k] == (if k < ii
                    + 1 || replaced(e, org, ii + 1, k) {
                    Event::Placeholder
                } else {
                    e[k]
                }) by {
                    if replaced(e, org, ii + 1, k) && !replaced(e, org, ii, k) && k > ii {
                        assert(is_marker(e, k));
                        assert(org[k] == ii);
                    }
                }
                if sink_depth(e, ii + 1) == 0 {
                    assert(ii + 1 == e.len());
                    lemma_cursor_end(ks, s.cursor as int);
                }
                lemma_skip_trivia_idem(ks, s.cursor as int);
                lemma_skip_trivia(ks, s.cursor as int);
                assert(count_adds(e, ii + 1) == count_adds(e, ii) + (if e[ii] is AddToken {
                    1nat
                } else {
                    0
                }));
                assert(count_nontrivia(ks, s.cursor as int) == count_adds(e, ii + 1));
            }
            let ghost c1 = s.cursor as int;
            let ghost ch1 = builder_children(s.builder);
            s.eat_trivia();
            proof {
                lemma_token_steps_concat(toks, c0, c1, s.cursor as int);
                if !(e[ii] is AddToken) {
                    assert(c1 == c0);
                    assert(count_adds(e, ii + 1) == count_adds(e, ii));
                    if ii > 0 {
                        lemma_skip_trivia_idem(ks, pos_after(ks, count_adds(e, ii)));
                    }
                }
                assert(s.cursor == cursor_after(e, ks, ii + 1));
                assert(builder_walk(s.builder) =~= events_walk(e, toks, ii + 1));
                assert(s.cursor == skip_trivia(ks, c1));
                assert(skip_trivia(ks, s.cursor as int) == s.cursor);
                if sink_depth(e, ii + 1) == 0 {
                    assert(c1 == toks.len());
                    assert(builder_children(s.builder) =~= ch1);
                }
            }
            i = i + 1;
        }
        proof {
            lemma_cursor_end(ks, s.cursor as int);
        }
        builder_finish(s.builder)
    }
}

} // verus!
