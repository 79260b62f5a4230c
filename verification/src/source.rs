//! Traversing the tokens of a source text, skipping trivia.

use std::ops::Range;
use vstd::prelude::*;

use crate::lexer::Token;
use crate::syntax_kind::SyntaxKind;

verus! {

/// The kinds of the given tokens, in order.
pub open spec fn kinds_of(tokens: Seq<Token>) -> Seq<SyntaxKind> {
    tokens.map_values(|t: Token| t.kind)
}

/// The index of the first token at or after `i` that is not trivia, or the
/// number of tokens if there is none.
pub open spec fn skip_trivia(kinds: Seq<SyntaxKind>, i: int) -> int
    decreases kinds.len() - i,
{
    if i < 0 || i >= kinds.len() {
        i
    } else if kinds[i].is_trivia_spec() {
        skip_trivia(kinds, i + 1)
    } else {
        i
    }
}

/// The number of tokens before index `i` that are not trivia.
pub open spec fn count_nontrivia(kinds: Seq<SyntaxKind>, i: int) -> nat
    decreases i,
{
    if i <= 0 {
        0
    } else if kinds[i - 1].is_trivia_spec() {
        count_nontrivia(kinds, i - 1)
    } else {
        count_nontrivia(kinds, i - 1) + 1
    }
}

/// Skipping trivia moves forward within the tokens, stops at a token that is
/// not trivia (or at the end), and passes over no token that is not trivia.
pub proof fn lemma_skip_trivia(kinds: Seq<SyntaxKind>, i: int)
    requires
        0 <= i <= kinds.len(),
    ensures
        i <= skip_trivia(kinds, i) <= kinds.len(),
        skip_trivia(kinds, i) < kinds.len() ==> !kinds[skip_trivia(kinds, i)].is_trivia_spec(),
        count_nontrivia(kinds, skip_trivia(kinds, i)) == count_nontrivia(kinds, i),
        forall|k: int| i <= k < skip_trivia(kinds, i) ==> #[trigger] kinds[k].is_trivia_spec(),
    decreases kinds.len() - i,
{
    if i < kinds.len() && kinds[i].is_trivia_spec() {
        lemma_skip_trivia(kinds, i + 1);
    }
}

/// Tokens that are not trivia are counted up to the end, at most one per token.
pub proof fn lemma_count_nontrivia_bound(kinds: Seq<SyntaxKind>, i: int, j: int)
    requires
        0 <= i <= j,
    ensures
        count_nontrivia(kinds, i) <= count_nontrivia(kinds, j) <= count_nontrivia(kinds, i) + (j - i),
    decreases j - i,
{
    if i < j {
        lemma_count_nontrivia_bound(kinds, i, j - 1);
    }
}

/// A token that is not trivia is the only one with as many such tokens
/// before it: handing them out by that count hands each out once.
pub proof fn lemma_nontrivia_by_count(kinds: Seq<SyntaxKind>, i: int, j: int)
    requires
        0 <= i < kinds.len(),
        0 <= j < kinds.len(),
        !kinds[i].is_trivia_spec(),
        !kinds[j].is_trivia_spec(),
        count_nontrivia(kinds, i) == count_nontrivia(kinds, j),
    ensures
        i == j,
{
    if i < j {
        lemma_count_nontrivia_bound(kinds, i + 1, j);
    } else if j < i {
        lemma_count_nontrivia_bound(kinds, j + 1, i);
    }
}

/// A window over a slice of tokens that hands out the tokens that are not
/// trivia, one at a time.
///
/// Trivia (whitespace, comments and line feeds) are skipped here so that
/// the parser need not handle them; the sink puts them back in the tree.
pub struct Source<'source, 'tokens> {
    tokens: &'tokens [Token<'source>],
    cursor: usize,
}

impl<'source, 'tokens> Source<'source, 'tokens> {
    /// The tokens that the source hands out.
    pub closed spec fn tokens_spec(&self) -> Seq<Token<'source>> {
        self.tokens@
    }

    /// The index of the next token to look at.
    pub closed spec fn cursor_spec(&self) -> int {
        self.cursor as int
    }

    /// The kinds of the tokens, in order.
    pub open spec fn kinds(&self) -> Seq<SyntaxKind> {
        kinds_of(self.tokens_spec())
    }

    /// The index of the next token that is not trivia.
    pub open spec fn next_index(&self) -> int {
        skip_trivia(self.kinds(), self.cursor_spec())
    }

    /// How many tokens that are not trivia the source has handed out (or
    /// passed): those before the cursor.
    pub open spec fn handed_out(&self) -> nat {
        count_nontrivia(self.kinds(), self.cursor_spec())
    }

    /// How many tokens that are not trivia there are.
    pub open spec fn total(&self) -> nat {
        count_nontrivia(self.kinds(), self.kinds().len() as int)
    }

    pub closed spec fn wf(&self) -> bool {
        &&& self.cursor <= self.tokens@.len()
        &&& self.tokens@.len() <= usize::MAX
    }

    /// Constructs a source over the given tokens, starting at the first one.
    pub fn new(tokens: &'tokens [Token<'source>]) -> (s: Self)
        ensures
            s.wf(),
            s.tokens_spec() == tokens@,
            s.cursor_spec() == 0,
            s.handed_out() == 0,
    {
        let _len = tokens.len();
        Source { tokens, cursor: 0 }
    }

    /// What consistency gives a caller: the cursor lies within the tokens.
    pub proof fn lemma_bounds(&self)
        requires
            self.wf(),
        ensures
            0 <= self.cursor_spec() <= self.tokens_spec().len(),
            self.kinds().len() == self.tokens_spec().len(),
    {
    }

    /// How the tokens that are not trivia are handed out: skipping trivia
    /// hands none out, the next one is there exactly when not all are out,
    /// and it is the one with as many such tokens before it as are out.
    proof fn lemma_handed_out(&self)
        requires
            self.wf(),
        ensures
            count_nontrivia(self.kinds(), self.next_index()) == self.handed_out(),
            self.handed_out() <= self.total(),
            self.next_index() < self.kinds().len() <==> self.handed_out() < self.total(),
            self.next_index() < self.kinds().len() ==> !self.kinds()[self.next_index()].is_trivia_spec()
                && count_nontrivia(self.kinds(), self.next_index() + 1) == self.handed_out() + 1,
            self.next_index() <= self.kinds().len(),
    {
        let ks = self.kinds();
        let c = self.cursor_spec();
        lemma_skip_trivia(ks, c);
        let n = self.next_index();
        lemma_count_nontrivia_bound(ks, n, ks.len() as int);
        if n < ks.len() {
            lemma_count_nontrivia_bound(ks, n + 1, ks.len() as int);
        }
    }

    /// Returns the next token that is not trivia and moves past it, or
    /// returns `None` if only trivia remain.
    ///
    /// From [`Source::new`] on, the calls hand out the tokens that are not
    /// trivia in order, each once, then `None` on every later call: the
    /// `k`-th token handed out is the one with `k - 1` such tokens before
    /// it. Peeking hands out none.
    pub fn next_token(&mut self) -> (t: Option<&'tokens Token<'source>>)
        requires
            old(self).wf(),
        ensures
            final(self).wf(),
            final(self).tokens_spec() == old(self).tokens_spec(),
            old(self).next_index() < old(self).tokens_spec().len() ==> {
                &&& t == Some(&old(self).tokens_spec()[old(self).next_index()])
                &&& final(self).cursor_spec() == old(self).next_index() + 1
            },
            old(self).next_index() >= old(self).tokens_spec().len() ==> {
                &&& t is None
                &&& final(self).cursor_spec() == old(self).next_index()
            },
            old(self).handed_out() < old(self).total() ==> {
                let i = old(self).next_index();
                &&& 0 <= i < old(self).tokens_spec().len()
                &&& t == Some(&old(self).tokens_spec()[i])
                &&& !old(self).kinds()[i].is_trivia_spec()
                &&& count_nontrivia(old(self).kinds(), i) == old(self).handed_out()
                &&& final(self).handed_out() == old(self).handed_out() + 1
            },
            old(self).handed_out() >= old(self).total() ==> {
                &&& t is None
                &&& final(self).handed_out() == old(self).handed_out()
            },
            final(self).handed_out() <= final(self).total(),
    {
        proof {
            self.lemma_handed_out();
        }
        self.eat_trivia();
        if self.cursor < self.tokens.len() {
            let token = &self.tokens[self.cursor];
            self.cursor = self.cursor + 1;
            Some(token)
        } else {
            None
        }
    }

    /// The byte range of the last token, if there are tokens.
    pub fn last_token_range(&self) -> (r: Option<Range<usize>>)
        requires
            self.wf(),
        ensures
            self.tokens_spec().len() == 0 ==> r is None,
            self.tokens_spec().len() > 0 ==> r == Some(self.tokens_spec().last().range),
    {
        if self.tokens.len() == 0 {
            None
        } else {
            let t = &self.tokens[self.tokens.len() - 1];
            Some(t.range.start..t.range.end)
        }
    }

    /// Returns the kind of the next token that is not trivia, moving past
    /// the trivia before it, or returns `None` if only trivia remain.
    pub fn peek_kind(&mut self) -> (k: Option<SyntaxKind>)
        requires
            old(self).wf(),
        ensures
            final(self).wf(),
            final(self).tokens_spec() == old(self).tokens_spec(),
            final(self).cursor_spec() == old(self).next_index(),
            old(self).next_index() < old(self).tokens_spec().len() ==> k == Some(
                old(self).kinds()[old(self).next_index()],
            ),
            old(self).next_index() >= old(self).tokens_spec().len() ==> k is None,
            final(self).handed_out() == old(self).handed_out(),
    {
        proof {
            self.lemma_handed_out();
        }
        self.eat_trivia();
        self.peek_kind_raw()
    }

    /// Returns the next token that is not trivia, moving past the trivia
    /// before it, or returns `None` if only trivia remain.
    pub fn peek_token(&mut self) -> (t: Option<&Token<'source>>)
        requires
            old(self).wf(),
        ensures
            final(self).wf(),
            final(self).tokens_spec() == old(self).tokens_spec(),
            final(self).cursor_spec() == old(self).next_index(),
            old(self).next_index() < old(self).tokens_spec().len() ==> t == Some(
                &old(self).tokens_spec()[old(self).next_index()],
            ),
            old(self).next_index() >= old(self).tokens_spec().len() ==> t is None,
            final(self).handed_out() == old(self).handed_out(),
    {
        proof {
            self.lemma_handed_out();
        }
        self.eat_trivia();
        self.peek_token_raw()
    }

    /// Moves past the trivia at the cursor.
    fn eat_trivia(&mut self)
        requires
            old(self).wf(),
        ensures
            final(self).wf(),
            final(self).tokens_spec() == old(self).tokens_spec(),
            final(self).cursor_spec() == old(self).next_index(),
    {
        while self.at_trivia()
            invariant
                self.wf(),
                self.tokens_spec() == old(self).tokens_spec(),
                skip_trivia(self.kinds(), self.cursor_spec()) == old(self).next_index(),
            decreases self.tokens_spec().len() - self.cursor_spec(),
        {
            self.cursor = self.cursor + 1;
        }
    }

    /// Checks whether the token at the cursor is trivia.
    fn at_trivia(&self) -> (b: bool)
        requires
            self.wf(),
        ensures
            b == (self.cursor_spec() < self.tokens_spec().len()
                && self.kinds()[self.cursor_spec()].is_trivia_spec()),
    {
        match self.peek_kind_raw() {
            Some(kind) => kind.is_trivia(),
            None => false,
        }
    }

    /// The kind of the token at the cursor, trivia or not.
    fn peek_kind_raw(&self) -> (k: Option<SyntaxKind>)
        requires
            self.wf(),
        ensures
            self.cursor_spec() < self.tokens_spec().len() ==> k == Some(
                self.kinds()[self.cursor_spec()],
            ),
            self.cursor_spec() >= self.tokens_spec().len() ==> k is None,
    {
        match self.peek_token_raw() {
            Some(t) => Some(t.kind),
            None => None,
        }
    }

    /// The token at the cursor, trivia or not.
    fn peek_token_raw(&self) -> (t: Option<&Token<'source>>)
        requires
            self.wf(),
        ensures
            self.cursor_spec() < self.tokens_spec().len() ==> t == Some(
                &self.tokens_spec()[self.cursor_spec()],
            ),
            self.cursor_spec() >= self.tokens_spec().len() ==> t is None,
    {
        if self.cursor < self.tokens.len() {
            Some(&self.tokens[self.cursor])
        } else {
            None
        }
    }
}

} // verus!
