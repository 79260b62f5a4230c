//! A lossless, error-tolerant parser for the Helios programming language.
//!
//! The [`Parser`] reads the tokens that are not trivia from a [`Source`] and
//! emits [`Event`]s that describe the syntax tree; the grammar functions
//! below drive it. Errors do not stop the parser: it reports an
//! [`ParserMessage::UnexpectedKind`] message and wraps the offending token in
//! an `Error` node, so that every token ends up in the tree.

use vstd::prelude::*;

use crate::diagnostic::Location;
use crate::event::{
    events_inv, events_ok, lemma_inv_add_token, lemma_inv_complete, lemma_inv_precede,
    lemma_inv_start, lemma_ok_complete_root, Event,
};
use crate::lexer::Token;
use crate::message::{describable, describable_opt, Message, MessageKind, ParserMessage};
use crate::source::{count_nontrivia, kinds_of, lemma_skip_trivia, skip_trivia, Source};
use crate::syntax_kind::SyntaxKind;

verus! {

/// The number of `AddToken` events among the first `i` events.
pub open spec fn count_adds(e: Seq<Event>, i: int) -> nat
    decreases i,
{
    if i <= 0 {
        0
    } else if e[i - 1] is AddToken {
        count_adds(e, i - 1) + 1
    } else {
        count_adds(e, i - 1)
    }
}

/// The count of tokens does not decrease along the events.
pub proof fn lemma_count_adds_mono(e: Seq<Event>, i: int, j: int)
    requires
        0 <= i <= j,
    ensures
        count_adds(e, i) <= count_adds(e, j),
    decreases j - i,
{
    if i < j {
        lemma_count_adds_mono(e, i, j - 1);
    }
}

/// Adding an event at the end leaves the count of earlier tokens unchanged.
proof fn lemma_count_adds_push(e: Seq<Event>, ev: Event, i: int)
    requires
        0 <= i <= e.len(),
    ensures
        count_adds(e.push(ev), i) == count_adds(e, i),
    decreases i,
{
    if i > 0 {
        lemma_count_adds_push(e, ev, i - 1);
        assert(e.push(ev)[i - 1] == e[i - 1]);
    }
}

/// Changing an event that is not a token into another that is not a token
/// leaves the count of tokens unchanged.
proof fn lemma_count_adds_update(e: Seq<Event>, k: int, ev: Event, i: int)
    requires
        0 <= k < e.len(),
        !(e[k] is AddToken),
        !(ev is AddToken),
        0 <= i <= e.len(),
    ensures
        count_adds(e.update(k, ev), i) == count_adds(e, i),
    decreases i,
{
    if i > 0 {
        lemma_count_adds_update(e, k, ev, i - 1);
    }
}

/// Every message of the parser reports a token of an unexpected kind, in the
/// file being parsed: the token given is one of the tokens (or the end of
/// the input), and what the parser was parsing and the kinds it expected can
/// be described to a user.
pub open spec fn messages_ok<FileId>(
    msgs: Seq<Message<FileId>>,
    file_id: FileId,
    kinds: Seq<SyntaxKind>,
) -> bool {
    forall|i: int|
        0 <= i < msgs.len() ==> {
            &&& (#[trigger] msgs[i]).location.file_id == file_id
            &&& msgs[i].kind matches MessageKind::Parser(
                ParserMessage::UnexpectedKind { context, given, expected },
            )
            &&& describable_opt(msgs[i].kind->Parser_0->UnexpectedKind_context)
            &&& msgs[i].kind->Parser_0->UnexpectedKind_given matches Some(g) ==> kinds.contains(g)
            &&& forall|j: int|
                0 <= j < msgs[i].kind->Parser_0->UnexpectedKind_expected@.len() ==> describable(
                    #[trigger] msgs[i].kind->Parser_0->UnexpectedKind_expected@[j],
                )
        }
}

/// The kinds that start the left-hand side of an expression.
pub open spec fn is_lhs_kind(k: SyntaxKind) -> bool {
    k == SyntaxKind::Lit_Integer || k == SyntaxKind::Lit_Float || k == SyntaxKind::Identifier
        || k == SyntaxKind::Sym_LParen
}

/// The prefix operators.
pub open spec fn is_prefix_op(k: SyntaxKind) -> bool {
    k == SyntaxKind::Sym_Minus || k == SyntaxKind::Sym_Bang
}

/// The infix operators.
pub open spec fn is_infix_op(k: SyntaxKind) -> bool {
    k == SyntaxKind::Sym_Asterisk || k == SyntaxKind::Sym_BangEq || k == SyntaxKind::Sym_Eq
        || k == SyntaxKind::Sym_ForwardSlash || k == SyntaxKind::Sym_Gt || k == SyntaxKind::Sym_GtEq
        || k == SyntaxKind::Sym_Lt || k == SyntaxKind::Sym_LtEq || k == SyntaxKind::Sym_LThinArrow
        || k == SyntaxKind::Sym_Minus || k == SyntaxKind::Sym_Plus || k == SyntaxKind::Sym_Semicolon
}

/// The binding power of a prefix operator.
pub open spec fn prefix_power(k: SyntaxKind) -> u8 {
    11
}

/// The left and right binding powers of an infix operator. A higher binding
/// power means a higher precedence; a left power above the right one makes
/// the operator right-associative.
pub open spec fn infix_power(k: SyntaxKind) -> (u8, u8) {
    if k == SyntaxKind::Sym_Semicolon {
        (1, 2)
    } else if k == SyntaxKind::Sym_LThinArrow {
        (3, 2)
    } else if k == SyntaxKind::Sym_Eq || k == SyntaxKind::Sym_BangEq {
        (4, 3)
    } else if k == SyntaxKind::Sym_Lt || k == SyntaxKind::Sym_Gt || k == SyntaxKind::Sym_LtEq || k
        == SyntaxKind::Sym_GtEq {
        (5, 6)
    } else if k == SyntaxKind::Sym_Plus || k == SyntaxKind::Sym_Minus {
        (7, 8)
    } else {
        (9, 10)
    }
}

/// The index of the next token that is not trivia after the one at `n`.
pub open spec fn next_after(ks: Seq<SyntaxKind>, n: int) -> int {
    skip_trivia(ks, n + 1)
}

/// The events of a node of the given kind that holds one token.
pub open spec fn leaf_events(kind: SyntaxKind) -> Seq<Event> {
    seq![Event::StartNode { kind, forward_parent: None }, Event::AddToken, Event::FinishNode]
}

/// What an error leaves in the tree at the token at `n`: the token wrapped
/// in an `Error` node, unless it is `let` (where a declaration may start) or
/// the input is over; and where the parser goes on.
pub open spec fn error_events(ks: Seq<SyntaxKind>, n: int) -> (Seq<Event>, int) {
    if 0 <= n < ks.len() && ks[n] != SyntaxKind::Kwd_Let {
        (leaf_events(SyntaxKind::Error), next_after(ks, n))
    } else {
        (Seq::empty(), n)
    }
}

/// The token at `n` if it is of the given kind, or else an error.
pub open spec fn expect_events(ks: Seq<SyntaxKind>, n: int, kind: SyntaxKind) -> (Seq<Event>, int) {
    if 0 <= n < ks.len() && ks[n] == kind {
        (seq![Event::AddToken], next_after(ks, n))
    } else {
        error_events(ks, n)
    }
}

/// The grammar of the left-hand side of an expression at the token `n` of
/// the kinds `ks`: its events, the index where the parser goes on, and
/// whether a left-hand side was found. A literal or an identifier is a node
/// of one token; `(` opens a parenthesised expression closed by `)`; a
/// prefix operator applies to the expression of binding power 11 after it.
pub open spec fn lhs_events(ks: Seq<SyntaxKind>, n: int) -> (Seq<Event>, int, bool)
    decreases ks.len() - n, 2nat,
{
    if 0 <= n < ks.len() && (is_lhs_kind(ks[n]) || is_prefix_op(ks[n])) {
        let k = ks[n];
        let m = next_after(ks, n);
        proof {
            lemma_skip_trivia(ks, n + 1);
        }
        if k == SyntaxKind::Lit_Integer || k == SyntaxKind::Lit_Float {
            (leaf_events(SyntaxKind::Exp_Literal), m, true)
        } else if k == SyntaxKind::Identifier {
            (leaf_events(SyntaxKind::Exp_VariableRef), m, true)
        } else if k == SyntaxKind::Sym_LParen {
            let (inner, a, _) = expr_events(ks, m, 0);
            let (close, b) = expect_events(ks, a, SyntaxKind::Sym_RParen);
            (
                seq![Event::StartNode { kind: SyntaxKind::Exp_Paren, forward_parent: None }, Event::AddToken]
                    + inner + close + seq![Event::FinishNode],
                b,
                true,
            )
        } else {
            let (inner, a, _) = expr_events(ks, m, 11);
            (
                seq![
                    Event::StartNode { kind: SyntaxKind::Exp_UnaryPrefix, forward_parent: None },
                    Event::AddToken,
                ] + inner + seq![Event::FinishNode],
                a,
                true,
            )
        }
    } else {
        let (e, a) = error_events(ks, n);
        (e, a, false)
    }
}

/// The grammar of an expression whose operators bind at least as tightly as
/// `bp`, at the token `n`: a left-hand side, then the binary operators that
/// follow it.
pub open spec fn expr_events(ks: Seq<SyntaxKind>, n: int, bp: u8) -> (Seq<Event>, int, bool)
    decreases ks.len() - n, 3nat,
{
    let (l, a, ok) = lhs_events(ks, n);
    if ok && n < a <= ks.len() {
        binary_events(ks, a, bp, l, 0)
    } else {
        (l, a, ok)
    }
}

/// The binary operators at the token `n` that bind at least as tightly as
/// `bp`, given the events `acc` so far, whose node at `lpos` is the left
/// operand. Each such operator takes the left operand and the expression
/// of the operator's right binding power after it into an `Exp_Binary`
/// node, which becomes the next left operand; the operators end at a token
/// that is no such operator, or after a missing right operand.
pub open spec fn binary_events(ks: Seq<SyntaxKind>, n: int, bp: u8, acc: Seq<Event>, lpos: int) -> (
    Seq<Event>,
    int,
    bool,
)
    decreases ks.len() - n, 4nat,
{
    if 0 <= n < ks.len() && is_infix_op(ks[n]) && infix_power(ks[n]).0 >= bp {
        let m = next_after(ks, n);
        proof {
            lemma_skip_trivia(ks, n + 1);
        }
        let pos = acc.len() + 1int;
        let pre = acc.push(Event::AddToken).update(
            lpos,
            Event::StartNode {
                kind: acc[lpos]->StartNode_kind,
                forward_parent: Some((pos - lpos) as usize),
            },
        ).push(Event::Placeholder);
        let (rhs, k, rok) = expr_events(ks, m, infix_power(ks[n]).1);
        let done = (pre + rhs).update(
            pos,
            Event::StartNode { kind: SyntaxKind::Exp_Binary, forward_parent: None },
        ).push(Event::FinishNode);
        if rok && n < k <= ks.len() {
            binary_events(ks, k, bp, done, pos)
        } else {
            (done, k, true)
        }
    } else {
        (acc, n, true)
    }
}

/// The grammar of a declaration at the token `n`: `let`, an identifier, `=`
/// and an expression make a global binding; anything else is an
/// expression.
pub open spec fn decl_events(ks: Seq<SyntaxKind>, n: int) -> (Seq<Event>, int) {
    if 0 <= n < ks.len() && ks[n] == SyntaxKind::Kwd_Let {
        let (id, a) = expect_events(ks, next_after(ks, n), SyntaxKind::Identifier);
        let (eq, b) = expect_events(ks, a, SyntaxKind::Sym_Eq);
        let (e, c, _) = expr_events(ks, b, 0);
        (
            seq![Event::StartNode { kind: SyntaxKind::Dec_GlobalBinding, forward_parent: None }, Event::AddToken]
                + id + eq + e + seq![Event::FinishNode],
            c,
        )
    } else {
        let (e, a, _) = expr_events(ks, n, 0);
        (e, a)
    }
}

/// The declarations from the token `n` to the end, after the events `acc`.
pub open spec fn decls_events(ks: Seq<SyntaxKind>, n: int, acc: Seq<Event>) -> Seq<Event>
    decreases ks.len() - n,
{
    if 0 <= n < ks.len() {
        let (d, a) = decl_events(ks, n);
        if n < a <= ks.len() {
            decls_events(ks, a, acc + d)
        } else {
            acc + d
        }
    } else {
        acc
    }
}

/// The events of the whole input, of token kinds `ks`: a `Root` node that
/// holds the declarations.
pub open spec fn root_events(ks: Seq<SyntaxKind>) -> Seq<Event> {
    seq![Event::StartNode { kind: SyntaxKind::Root, forward_parent: None }] + decls_events(
        ks,
        skip_trivia(ks, 0),
        Seq::empty(),
    ) + seq![Event::FinishNode]
}

/// A place where the grammar reports an error: what it was parsing, the
/// index of the token it got (the end of the input, past the last one), and
/// the kinds it expected there.
pub type ErrorSite = (Option<SyntaxKind>, int, Seq<SyntaxKind>);

/// The kinds that may start the left-hand side of an expression, in the
/// order the parser looks for them.
pub open spec fn lhs_start_seq() -> Seq<SyntaxKind> {
    seq![
        SyntaxKind::Lit_Integer,
        SyntaxKind::Lit_Float,
        SyntaxKind::Identifier,
        SyntaxKind::Sym_LParen,
        SyntaxKind::Sym_Minus,
        SyntaxKind::Sym_Bang,
    ]
}

/// The infix operators, in the order the parser looks for them.
pub open spec fn infix_ops_seq() -> Seq<SyntaxKind> {
    seq![
        SyntaxKind::Sym_Asterisk,
        SyntaxKind::Sym_BangEq,
        SyntaxKind::Sym_Eq,
        SyntaxKind::Sym_ForwardSlash,
        SyntaxKind::Sym_Gt,
        SyntaxKind::Sym_GtEq,
        SyntaxKind::Sym_Lt,
        SyntaxKind::Sym_LtEq,
        SyntaxKind::Sym_LThinArrow,
        SyntaxKind::Sym_Minus,
        SyntaxKind::Sym_Plus,
        SyntaxKind::Sym_Semicolon,
    ]
}

/// Where expecting a token of the given kind at `n`, having expected the
/// kinds `x` since the last token, reports an error: at `n`, expecting `x`
/// and that kind, unless the token is of that kind.
pub open spec fn expect_sites(
    ks: Seq<SyntaxKind>,
    n: int,
    kind: SyntaxKind,
    context: Option<SyntaxKind>,
    x: Seq<SyntaxKind>,
) -> Seq<ErrorSite> {
    if 0 <= n < ks.len() && ks[n] == kind {
        Seq::empty()
    } else {
        seq![(context, n, x.push(kind))]
    }
}

/// The kinds expected since the last token once the left-hand side at `n`
/// is parsed: none, but after a prefix operator, those its operand left.
pub open spec fn lhs_expected(ks: Seq<SyntaxKind>, n: int) -> Seq<SyntaxKind>
    decreases ks.len() - n, 2nat,
{
    if 0 <= n < ks.len() && is_prefix_op(ks[n]) && !is_lhs_kind(ks[n]) {
        proof {
            lemma_skip_trivia(ks, n + 1);
        }
        expr_expected(ks, next_after(ks, n), 11)
    } else {
        Seq::empty()
    }
}

/// The kinds expected since the last token once the expression at `n` is
/// parsed (whatever was expected before it: its left-hand side ends with a
/// token or an error, after which nothing is expected).
pub open spec fn expr_expected(ks: Seq<SyntaxKind>, n: int, bp: u8) -> Seq<SyntaxKind>
    decreases ks.len() - n, 3nat,
{
    let (l, a, ok) = lhs_events(ks, n);
    if ok && n < a <= ks.len() {
        binary_expected(ks, a, bp, lhs_expected(ks, n))
    } else {
        Seq::empty()
    }
}

/// The kinds expected since the last token once the binary operators at
/// `n` are parsed, having expected `x` before them: the operators are
/// looked for after each operand.
pub open spec fn binary_expected(ks: Seq<SyntaxKind>, n: int, bp: u8, x: Seq<SyntaxKind>) -> Seq<
    SyntaxKind,
>
    decreases ks.len() - n, 4nat,
{
    if 0 <= n < ks.len() && is_infix_op(ks[n]) && infix_power(ks[n]).0 >= bp {
        let m = next_after(ks, n);
        proof {
            lemma_skip_trivia(ks, n + 1);
        }
        let (_, k, rok) = expr_events(ks, m, infix_power(ks[n]).1);
        let after = expr_expected(ks, m, infix_power(ks[n]).1);
        if rok && n < k <= ks.len() {
            binary_expected(ks, k, bp, after)
        } else {
            after
        }
    } else {
        x + infix_ops_seq()
    }
}

/// The kinds expected since the last token once the declaration at `n` is
/// parsed: those its expression left.
pub open spec fn decl_expected(ks: Seq<SyntaxKind>, n: int) -> Seq<SyntaxKind> {
    if 0 <= n < ks.len() && ks[n] == SyntaxKind::Kwd_Let {
        let m = next_after(ks, n);
        let a = expect_events(ks, m, SyntaxKind::Identifier).1;
        let b = expect_events(ks, a, SyntaxKind::Sym_Eq).1;
        expr_expected(ks, b, 0)
    } else {
        expr_expected(ks, n, 0)
    }
}

/// Where the grammar of a left-hand side at `n` reports errors, in order,
/// having expected `x` since the last token: a token that cannot start one
/// is reported there, expecting the kinds that can; inside parentheses, the
/// errors of the expression and then a missing `)`; after a prefix
/// operator, the errors of its operand.
pub open spec fn lhs_sites(ks: Seq<SyntaxKind>, n: int, x: Seq<SyntaxKind>) -> Seq<ErrorSite>
    decreases ks.len() - n, 2nat,
{
    if 0 <= n < ks.len() && (is_lhs_kind(ks[n]) || is_prefix_op(ks[n])) {
        let k = ks[n];
        let m = next_after(ks, n);
        proof {
            lemma_skip_trivia(ks, n + 1);
        }
        if k == SyntaxKind::Lit_Integer || k == SyntaxKind::Lit_Float || k == SyntaxKind::Identifier {
            Seq::empty()
        } else if k == SyntaxKind::Sym_LParen {
            expr_sites(ks, m, 0, Seq::empty()) + expect_sites(
                ks,
                expr_events(ks, m, 0).1,
                SyntaxKind::Sym_RParen,
                None,
                expr_expected(ks, m, 0),
            )
        } else {
            expr_sites(ks, m, 11, Seq::empty())
        }
    } else {
        seq![(None, n, x + lhs_start_seq())]
    }
}

/// Where the grammar of an expression at `n` reports errors, in order,
/// having expected `x` since the last token.
pub open spec fn expr_sites(ks: Seq<SyntaxKind>, n: int, bp: u8, x: Seq<SyntaxKind>) -> Seq<ErrorSite>
    decreases ks.len() - n, 3nat,
{
    let (l, a, ok) = lhs_events(ks, n);
    if ok && n < a <= ks.len() {
        lhs_sites(ks, n, x) + binary_sites(ks, a, bp)
    } else {
        lhs_sites(ks, n, x)
    }
}

/// Where the binary operators at `n` report errors: in their right
/// operands, in order.
pub open spec fn binary_sites(ks: Seq<SyntaxKind>, n: int, bp: u8) -> Seq<ErrorSite>
    decreases ks.len() - n, 4nat,
{
    if 0 <= n < ks.len() && is_infix_op(ks[n]) && infix_power(ks[n]).0 >= bp {
        let m = next_after(ks, n);
        proof {
            lemma_skip_trivia(ks, n + 1);
        }
        let (_, k, rok) = expr_events(ks, m, infix_power(ks[n]).1);
        if rok && n < k <= ks.len() {
            expr_sites(ks, m, infix_power(ks[n]).1, Seq::empty()) + binary_sites(ks, k, bp)
        } else {
            expr_sites(ks, m, infix_power(ks[n]).1, Seq::empty())
        }
    } else {
        Seq::empty()
    }
}

/// Where a declaration at `n` reports errors, having expected `x` since the
/// last token: a global binding reports a missing identifier and a missing
/// `=`, then the errors of its expression.
pub open spec fn decl_sites(ks: Seq<SyntaxKind>, n: int, x: Seq<SyntaxKind>) -> Seq<ErrorSite> {
    if 0 <= n < ks.len() && ks[n] == SyntaxKind::Kwd_Let {
        binding_sites(ks, next_after(ks, n))
    } else {
        expr_sites(ks, n, 0, x.push(SyntaxKind::Kwd_Let))
    }
}

/// Where the declarations from `n` to the end report errors, in order,
/// having expected `x` since the last token.
pub open spec fn decls_sites(ks: Seq<SyntaxKind>, n: int, x: Seq<SyntaxKind>) -> Seq<ErrorSite>
    decreases ks.len() - n,
{
    if 0 <= n < ks.len() {
        let a = decl_events(ks, n).1;
        if n < a <= ks.len() {
            decl_sites(ks, n, x) + decls_sites(ks, a, decl_expected(ks, n))
        } else {
            decl_sites(ks, n, x)
        }
    } else {
        Seq::empty()
    }
}

/// Where the grammar reports errors in the whole input, in order.
pub open spec fn root_sites(ks: Seq<SyntaxKind>) -> Seq<ErrorSite> {
    decls_sites(ks, skip_trivia(ks, 0), Seq::empty())
}

/// The message reports the error at the site: in the file, an unexpected
/// token in the context of the site, the token at the site (or the end of
/// the input), at that token's range (or the last token's).
pub open spec fn site_reported<FileId>(
    m: Message<FileId>,
    site: ErrorSite,
    tokens: Seq<Token>,
    file_id: FileId,
) -> bool {
    let (context, n, expected) = site;
    &&& m.location.file_id == file_id
    &&& m.kind matches MessageKind::Parser(ParserMessage::UnexpectedKind { context: c, given: g, expected: x })
        && c == context && x@ == expected && g == (if 0 <= n < tokens.len() {
        Some(tokens[n].kind)
    } else {
        None::<SyntaxKind>
    })
    &&& m.location.range == (if 0 <= n < tokens.len() {
        tokens[n].range
    } else {
        tokens.last().range
    })
}

/// The messages `after` are those `before`, followed by one for each site,
/// in order.
pub open spec fn reported<FileId>(
    before: Seq<Message<FileId>>,
    after: Seq<Message<FileId>>,
    sites: Seq<ErrorSite>,
    tokens: Seq<Token>,
    file_id: FileId,
) -> bool {
    &&& after.len() == before.len() + sites.len()
    &&& after.take(before.len() as int) == before
    &&& forall|i: int|
        0 <= i < sites.len() ==> site_reported(
            #[trigger] after[before.len() + i],
            sites[i],
            tokens,
            file_id,
        )
}

/// Reports follow one another.
proof fn lemma_reported_trans<FileId>(
    a: Seq<Message<FileId>>,
    b: Seq<Message<FileId>>,
    c: Seq<Message<FileId>>,
    s1: Seq<ErrorSite>,
    s2: Seq<ErrorSite>,
    tokens: Seq<Token>,
    file_id: FileId,
)
    requires
        reported(a, b, s1, tokens, file_id),
        reported(b, c, s2, tokens, file_id),
    ensures
        reported(a, c, s1 + s2, tokens, file_id),
{
    assert(c.take(a.len() as int) =~= a) by {
        assert forall|i: int| 0 <= i < a.len() implies c[i] == a[i] by {
            assert(c[i] == c.take(b.len() as int)[i]);
            assert(b[i] == b.take(a.len() as int)[i]);
        }
    }
    assert forall|i: int| 0 <= i < (s1 + s2).len() implies site_reported(
        #[trigger] c[a.len() + i],
        (s1 + s2)[i],
        tokens,
        file_id,
    ) by {
        if i < s1.len() {
            assert(c[a.len() + i] == c.take(b.len() as int)[a.len() + i]);
            assert(site_reported(b[a.len() + i], s1[i], tokens, file_id));
        } else {
            assert(site_reported(c[b.len() + (i - s1.len())], s2[i - s1.len()], tokens, file_id));
        }
    }
}

/// One more message that reports a site reports that site after the
/// earlier ones.
proof fn lemma_reported_push<FileId>(
    a: Seq<Message<FileId>>,
    m: Message<FileId>,
    site: ErrorSite,
    tokens: Seq<Token>,
    file_id: FileId,
)
    requires
        site_reported(m, site, tokens, file_id),
    ensures
        reported(a, a.push(m), seq![site], tokens, file_id),
{
    assert(a.push(m).take(a.len() as int) =~= a);
    assert(a.push(m)[a.len() + 0int] == m);
}

/// No message is a report of no site.
proof fn lemma_reported_none<FileId>(a: Seq<Message<FileId>>, tokens: Seq<Token>, file_id: FileId)
    ensures
        reported(a, a, Seq::empty(), tokens, file_id),
{
    assert(a.take(a.len() as int) =~= a);
}

/// An error or an expected token never moves the parser back nor past the
/// end, and moves it on from a token that is not `let`.
proof fn lemma_error_bounds(ks: Seq<SyntaxKind>, n: int)
    requires
        0 <= n <= ks.len(),
    ensures
        n <= error_events(ks, n).1 <= ks.len(),
        n < ks.len() && ks[n] != SyntaxKind::Kwd_Let ==> n < error_events(ks, n).1,
        forall|kind: SyntaxKind| n <= #[trigger] expect_events(ks, n, kind).1 <= ks.len(),
{
    if n < ks.len() {
        lemma_skip_trivia(ks, n + 1);
    }
}

/// The grammar never moves the parser back nor past the end, and a
/// left-hand side that is found takes at least one token.
proof fn lemma_lhs_bounds(ks: Seq<SyntaxKind>, n: int)
    requires
        0 <= n <= ks.len(),
    ensures
        n <= lhs_events(ks, n).1 <= ks.len(),
        lhs_events(ks, n).2 ==> n < lhs_events(ks, n).1,
    decreases ks.len() - n, 2nat,
{
    lemma_error_bounds(ks, n);
    if 0 <= n < ks.len() && (is_lhs_kind(ks[n]) || is_prefix_op(ks[n])) {
        let m = next_after(ks, n);
        lemma_skip_trivia(ks, n + 1);
        if ks[n] == SyntaxKind::Sym_LParen {
            lemma_expr_bounds(ks, m, 0);
            lemma_error_bounds(ks, expr_events(ks, m, 0).1);
        } else if !(ks[n] == SyntaxKind::Lit_Integer || ks[n] == SyntaxKind::Lit_Float || ks[n]
            == SyntaxKind::Identifier) {
            lemma_expr_bounds(ks, m, 11);
        }
    }
}

/// See [`lemma_lhs_bounds`].
proof fn lemma_expr_bounds(ks: Seq<SyntaxKind>, n: int, bp: u8)
    requires
        0 <= n <= ks.len(),
    ensures
        n <= expr_events(ks, n, bp).1 <= ks.len(),
        expr_events(ks, n, bp).2 ==> n < expr_events(ks, n, bp).1,
        !expr_events(ks, n, bp).2 ==> expr_events(ks, n, bp).1 == error_events(ks, n).1,
    decreases ks.len() - n, 3nat,
{
    lemma_lhs_bounds(ks, n);
    let (l, a, ok) = lhs_events(ks, n);
    if ok && n < a <= ks.len() {
        lemma_binary_bounds(ks, a, bp, l, 0);
    }
}

/// See [`lemma_lhs_bounds`].
proof fn lemma_binary_bounds(ks: Seq<SyntaxKind>, n: int, bp: u8, acc: Seq<Event>, lpos: int)
    requires
        0 <= n <= ks.len(),
    ensures
        n <= binary_events(ks, n, bp, acc, lpos).1 <= ks.len(),
        binary_events(ks, n, bp, acc, lpos).2,
    decreases ks.len() - n, 4nat,
{
    if 0 <= n < ks.len() && is_infix_op(ks[n]) && infix_power(ks[n]).0 >= bp {
        let m = next_after(ks, n);
        lemma_skip_trivia(ks, n + 1);
        let pos = acc.len() + 1int;
        let pre = acc.push(Event::AddToken).update(
            lpos,
            Event::StartNode {
                kind: acc[lpos]->StartNode_kind,
                forward_parent: Some((pos - lpos) as usize),
            },
        ).push(Event::Placeholder);
        lemma_expr_bounds(ks, m, infix_power(ks[n]).1);
        let (rhs, k, rok) = expr_events(ks, m, infix_power(ks[n]).1);
        let done = (pre + rhs).update(
            pos,
            Event::StartNode { kind: SyntaxKind::Exp_Binary, forward_parent: None },
        ).push(Event::FinishNode);
        if rok && n < k <= ks.len() {
            lemma_binary_bounds(ks, k, bp, done, pos);
        }
    }
}

/// A declaration at a token takes at least that token.
proof fn lemma_decl_bounds(ks: Seq<SyntaxKind>, n: int)
    requires
        0 <= n < ks.len(),
    ensures
        n < decl_events(ks, n).1 <= ks.len(),
{
    if ks[n] == SyntaxKind::Kwd_Let {
        let m = next_after(ks, n);
        lemma_skip_trivia(ks, n + 1);
        lemma_error_bounds(ks, m);
        let a = expect_events(ks, m, SyntaxKind::Identifier).1;
        lemma_error_bounds(ks, a);
        let b = expect_events(ks, a, SyntaxKind::Sym_Eq).1;
        lemma_expr_bounds(ks, b, 0);
    } else {
        lemma_expr_bounds(ks, n, 0);
        lemma_error_bounds(ks, n);
    }
}

/// The number of `AddToken` events among all the events.
pub open spec fn adds(e: Seq<Event>) -> nat {
    count_adds(e, e.len() as int)
}

/// The index is where the parser may stand: within the tokens, at a token
/// that is not trivia or at the end.
pub open spec fn at_token(ks: Seq<SyntaxKind>, n: int) -> bool {
    0 <= n <= ks.len() && skip_trivia(ks, n) == n
}

proof fn lemma_adds_push(e: Seq<Event>, ev: Event)
    ensures
        adds(e.push(ev)) == adds(e) + (if ev is AddToken {
            1nat
        } else {
            0nat
        }),
{
    lemma_count_adds_push(e, ev, e.len() as int);
}

proof fn lemma_adds_concat(a: Seq<Event>, b: Seq<Event>)
    ensures
        adds(a + b) == adds(a) + adds(b),
    decreases b.len(),
{
    if b.len() == 0 {
        assert(a + b =~= a);
    } else {
        let b0 = b.drop_last();
        lemma_adds_concat(a, b0);
        assert(a + b =~= (a + b0).push(b.last()));
        assert(b =~= b0.push(b.last()));
        lemma_adds_push(a + b0, b.last());
        lemma_adds_push(b0, b.last());
    }
}

proof fn lemma_adds_update(e: Seq<Event>, k: int, ev: Event)
    requires
        0 <= k < e.len(),
        !(e[k] is AddToken),
        !(ev is AddToken),
    ensures
        adds(e.update(k, ev)) == adds(e),
{
    lemma_count_adds_update(e, k, ev, e.len() as int);
}

/// Moving past a token that is not trivia counts one more such token, and
/// stands at a token again.
proof fn lemma_step_count(ks: Seq<SyntaxKind>, n: int)
    requires
        at_token(ks, n),
        n < ks.len(),
    ensures
        at_token(ks, next_after(ks, n)),
        n < next_after(ks, n),
        count_nontrivia(ks, next_after(ks, n)) == count_nontrivia(ks, n) + 1,
{
    lemma_skip_trivia(ks, n + 1);
    crate::sink::lemma_skip_trivia_idem(ks, n + 1);
    assert(!ks[n].is_trivia_spec());
}

/// An error or an expected token adds as many tokens as it moves past.
proof fn lemma_error_adds(ks: Seq<SyntaxKind>, n: int)
    requires
        at_token(ks, n),
    ensures
        at_token(ks, error_events(ks, n).1),
        adds(error_events(ks, n).0) + count_nontrivia(ks, n) == count_nontrivia(ks, error_events(ks, n).1),
        forall|kind: SyntaxKind|
            at_token(ks, #[trigger] expect_events(ks, n, kind).1) && adds(expect_events(ks, n, kind).0)
                + count_nontrivia(ks, n) == count_nontrivia(ks, expect_events(ks, n, kind).1),
{
    if n < ks.len() {
        lemma_step_count(ks, n);
        reveal_with_fuel(count_adds, 4);
    }
    assert(count_adds(Seq::<Event>::empty(), 0) == 0);
}

/// The grammar adds every token that is not trivia that it moves past, and
/// no other: the tokens that a left-hand side adds are as many as it moves
/// past.
proof fn lemma_lhs_adds(ks: Seq<SyntaxKind>, n: int)
    requires
        at_token(ks, n),
    ensures
        at_token(ks, lhs_events(ks, n).1),
        adds(lhs_events(ks, n).0) + count_nontrivia(ks, n) == count_nontrivia(ks, lhs_events(ks, n).1),
        lhs_events(ks, n).2 ==> lhs_events(ks, n).0.len() > 0 && lhs_events(ks, n).0[0] is StartNode,
    decreases ks.len() - n, 2nat,
{
    lemma_error_adds(ks, n);
    if 0 <= n < ks.len() && (is_lhs_kind(ks[n]) || is_prefix_op(ks[n])) {
        let m = next_after(ks, n);
        lemma_step_count(ks, n);
        let k = ks[n];
        let sn = |kind: SyntaxKind| Event::StartNode { kind, forward_parent: None };
        if k == SyntaxKind::Lit_Integer || k == SyntaxKind::Lit_Float || k == SyntaxKind::Identifier {
            let kind = if k == SyntaxKind::Identifier {
                SyntaxKind::Exp_VariableRef
            } else {
                SyntaxKind::Exp_Literal
            };
            reveal_with_fuel(count_adds, 4);
            assert(adds(leaf_events(kind)) == 1);
        } else if k == SyntaxKind::Sym_LParen {
            lemma_expr_adds(ks, m, 0);
            let (inner, a, _) = expr_events(ks, m, 0);
            lemma_error_adds(ks, a);
            let (close, b) = expect_events(ks, a, SyntaxKind::Sym_RParen);
            let head = seq![sn(SyntaxKind::Exp_Paren), Event::AddToken];
            reveal_with_fuel(count_adds, 3);
            assert(adds(head) == 1);
            assert(adds(seq![Event::FinishNode]) == 0);
            lemma_adds_concat(head, inner);
            lemma_adds_concat(head + inner, close);
            lemma_adds_concat(head + inner + close, seq![Event::FinishNode]);
        } else {
            lemma_expr_adds(ks, m, 11);
            let (inner, a, _) = expr_events(ks, m, 11);
            let head = seq![sn(SyntaxKind::Exp_UnaryPrefix), Event::AddToken];
            reveal_with_fuel(count_adds, 3);
            assert(adds(head) == 1);
            assert(adds(seq![Event::FinishNode]) == 0);
            lemma_adds_concat(head, inner);
            lemma_adds_concat(head + inner, seq![Event::FinishNode]);
        }
    }
}

/// See [`lemma_lhs_adds`].
proof fn lemma_expr_adds(ks: Seq<SyntaxKind>, n: int, bp: u8)
    requires
        at_token(ks, n),
    ensures
        at_token(ks, expr_events(ks, n, bp).1),
        adds(expr_events(ks, n, bp).0) + count_nontrivia(ks, n) == count_nontrivia(ks, expr_events(ks, n, bp).1),
    decreases ks.len() - n, 3nat,
{
    lemma_lhs_adds(ks, n);
    lemma_lhs_bounds(ks, n);
    let (l, a, ok) = lhs_events(ks, n);
    if ok && n < a <= ks.len() {
        lemma_binary_adds(ks, a, bp, l, 0);
    }
}

/// See [`lemma_lhs_adds`]; the tokens that the operators add come on top of
/// those of the events so far.
proof fn lemma_binary_adds(ks: Seq<SyntaxKind>, n: int, bp: u8, acc: Seq<Event>, lpos: int)
    requires
        at_token(ks, n),
        0 <= lpos < acc.len(),
        acc[lpos] is StartNode,
    ensures
        at_token(ks, binary_events(ks, n, bp, acc, lpos).1),
        adds(binary_events(ks, n, bp, acc, lpos).0) + count_nontrivia(ks, n) == adds(acc)
            + count_nontrivia(ks, binary_events(ks, n, bp, acc, lpos).1),
    decreases ks.len() - n, 4nat,
{
    if 0 <= n < ks.len() && is_infix_op(ks[n]) && infix_power(ks[n]).0 >= bp {
        let m = next_after(ks, n);
        lemma_step_count(ks, n);
        let pos = acc.len() + 1int;
        let fp = Event::StartNode {
            kind: acc[lpos]->StartNode_kind,
            forward_parent: Some((pos - lpos) as usize),
        };
        let pushed = acc.push(Event::AddToken);
        let pre = pushed.update(lpos, fp).push(Event::Placeholder);
        lemma_adds_push(acc, Event::AddToken);
        lemma_adds_update(pushed, lpos, fp);
        lemma_adds_push(pushed.update(lpos, fp), Event::Placeholder);
        lemma_expr_adds(ks, m, infix_power(ks[n]).1);
        lemma_expr_bounds(ks, m, infix_power(ks[n]).1);
        let (rhs, k, rok) = expr_events(ks, m, infix_power(ks[n]).1);
        let bin = Event::StartNode { kind: SyntaxKind::Exp_Binary, forward_parent: None };
        lemma_adds_concat(pre, rhs);
        assert((pre + rhs)[pos] == Event::Placeholder);
        lemma_adds_update(pre + rhs, pos, bin);
        let done = (pre + rhs).update(pos, bin).push(Event::FinishNode);
        lemma_adds_push((pre + rhs).update(pos, bin), Event::FinishNode);
        if rok && n < k <= ks.len() {
            lemma_binary_adds(ks, k, bp, done, pos);
        }
    }
}

/// A declaration adds the tokens it moves past.
proof fn lemma_decl_adds(ks: Seq<SyntaxKind>, n: int)
    requires
        at_token(ks, n),
        n < ks.len(),
    ensures
        at_token(ks, decl_events(ks, n).1),
        adds(decl_events(ks, n).0) + count_nontrivia(ks, n) == count_nontrivia(ks, decl_events(ks, n).1),
{
    if ks[n] == SyntaxKind::Kwd_Let {
        let m = next_after(ks, n);
        lemma_step_count(ks, n);
        lemma_error_adds(ks, m);
        let (id, a) = expect_events(ks, m, SyntaxKind::Identifier);
        lemma_error_adds(ks, a);
        let (eq, b) = expect_events(ks, a, SyntaxKind::Sym_Eq);
        lemma_expr_adds(ks, b, 0);
        let (e, c, _) = expr_events(ks, b, 0);
        let head = seq![
            Event::StartNode { kind: SyntaxKind::Dec_GlobalBinding, forward_parent: None },
            Event::AddToken,
        ];
        reveal_with_fuel(count_adds, 3);
        assert(adds(head) == 1);
        assert(adds(seq![Event::FinishNode]) == 0);
        lemma_adds_concat(head, id);
        lemma_adds_concat(head + id, eq);
        lemma_adds_concat(head + id + eq, e);
        lemma_adds_concat(head + id + eq + e, seq![Event::FinishNode]);
    } else {
        lemma_expr_adds(ks, n, 0);
    }
}

/// The declarations from a token on add the tokens up to the end.
proof fn lemma_decls_adds(ks: Seq<SyntaxKind>, n: int, acc: Seq<Event>)
    requires
        at_token(ks, n),
    ensures
        adds(decls_events(ks, n, acc)) + count_nontrivia(ks, n) == adds(acc) + count_nontrivia(
            ks,
            ks.len() as int,
        ),
    decreases ks.len() - n,
{
    if n < ks.len() {
        lemma_decl_adds(ks, n);
        lemma_decl_bounds(ks, n);
        let (d, a) = decl_events(ks, n);
        lemma_adds_concat(acc, d);
        lemma_decls_adds(ks, a, acc + d);
    }
}

/// The tree of the grammar holds every token that is not trivia, once.
pub proof fn lemma_root_adds(ks: Seq<SyntaxKind>)
    ensures
        adds(root_events(ks)) == count_nontrivia(ks, ks.len() as int),
{
    lemma_skip_trivia(ks, 0);
    crate::sink::lemma_skip_trivia_idem(ks, 0);
    let start = skip_trivia(ks, 0);
    lemma_decls_adds(ks, start, Seq::empty());
    assert(count_nontrivia(ks, 0) == 0);
    assert(count_adds(Seq::<Event>::empty(), 0) == 0);
    let head = seq![Event::StartNode { kind: SyntaxKind::Root, forward_parent: None }];
    reveal_with_fuel(count_adds, 2);
    assert(adds(head) == 0);
    assert(adds(seq![Event::FinishNode]) == 0);
    let body = decls_events(ks, start, Seq::empty());
    lemma_adds_concat(head, body);
    lemma_adds_concat(head + body, seq![Event::FinishNode]);
}

/// Determines the binding power of a prefix operator (`-` or `!`).
pub fn prefix_binding_power(kind: SyntaxKind) -> (r: ((), u8))
    requires
        is_prefix_op(kind),
    ensures
        r.1 == prefix_power(kind),
{
    ((), 11)
}

/// Determines the left and right binding powers of an infix operator.
pub fn infix_binding_power(kind: SyntaxKind) -> (r: (u8, u8))
    requires
        is_infix_op(kind),
    ensures
        r == infix_power(kind),
{
    match kind {
        SyntaxKind::Sym_Semicolon => (1, 2),
        SyntaxKind::Sym_LThinArrow => (3, 2),
        SyntaxKind::Sym_Eq | SyntaxKind::Sym_BangEq => (4, 3),
        SyntaxKind::Sym_Lt | SyntaxKind::Sym_Gt | SyntaxKind::Sym_LtEq | SyntaxKind::Sym_GtEq => (5, 6),
        SyntaxKind::Sym_Plus | SyntaxKind::Sym_Minus => (7, 8),
        _ => (9, 10),
    }
}

/// Checks whether the kind is one of the given kinds.
pub fn slice_contains(kinds: &[SyntaxKind], k: SyntaxKind) -> (b: bool)
    ensures
        b == kinds@.contains(k),
{
    let mut j: usize = 0;
    while j < kinds.len()
        invariant
            j <= kinds@.len(),
            forall|m: int| 0 <= m < j ==> kinds@[m] != k,
        decreases kinds@.len() - j,
    {
        if kinds[j] == k {
            return true;
        }
        j = j + 1;
    }
    false
}

/// The place of a node whose events are not complete yet.
pub struct Marker {
    pub pos: usize,
}

/// A node whose events are complete.
pub struct CompletedMarker {
    pub pos: usize,
}

/// The parser: it reads tokens from a source and emits events and messages.
pub struct Parser<'source, 'tokens, FileId> {
    file_id: FileId,
    source: Source<'source, 'tokens>,
    events: Vec<Event>,
    expected_kinds: Vec<SyntaxKind>,
    messages: Vec<Message<FileId>>,
    open: Ghost<Seq<int>>,
    org: Ghost<Seq<int>>,
}

impl<'source, 'tokens, FileId: Copy> Parser<'source, 'tokens, FileId> {
    /// The kinds of all the tokens of the source.
    pub closed spec fn kinds(&self) -> Seq<SyntaxKind> {
        self.source.kinds()
    }

    /// The index of the next token that is not trivia.
    pub closed spec fn next_index(&self) -> int {
        self.source.next_index()
    }

    /// How many tokens remain after the cursor of the source.
    pub closed spec fn remaining(&self) -> nat {
        (self.source.kinds().len() - self.source.cursor_spec()) as nat
    }

    /// The kind of the next token that is not trivia, if any.
    pub closed spec fn peek_spec(&self) -> Option<SyntaxKind> {
        if self.next_index() < self.kinds().len() {
            Some(self.kinds()[self.next_index()])
        } else {
            None
        }
    }

    pub closed spec fn events_spec(&self) -> Seq<Event> {
        self.events@
    }

    pub closed spec fn messages_spec(&self) -> Seq<Message<FileId>> {
        self.messages@
    }

    pub closed spec fn expected_spec(&self) -> Seq<SyntaxKind> {
        self.expected_kinds@
    }

    pub closed spec fn file_id_spec(&self) -> FileId {
        self.file_id
    }

    pub closed spec fn tokens_spec(&self) -> Seq<Token<'source>> {
        self.source.tokens_spec()
    }

    /// The position of the innermost open marker.
    pub closed spec fn top(&self) -> int {
        self.open@.last()
    }

    /// The parser is consistent before the root node is started: no event
    /// and no marker yet.
    pub closed spec fn fresh(&self) -> bool {
        &&& self.source.wf()
        &&& self.events@.len() == 0
        &&& self.messages@.len() == 0
        &&& self.expected_kinds@.len() == 0
        &&& self.open@.len() == 0
        &&& self.source.cursor_spec() == 0
    }

    /// The parser is consistent inside the root node: the events keep their
    /// invariant, and the tokens added are those that are not trivia before
    /// the cursor of the source.
    pub closed spec fn wf(&self) -> bool {
        &&& self.source.wf()
        &&& messages_ok(self.messages@, self.file_id, self.kinds())
        &&& forall|i: int| 0 <= i < self.expected_kinds@.len() ==> describable(#[trigger] self.expected_kinds@[i])
        &&& events_inv(self.events@, self.open@, self.org@)
        &&& count_adds(self.events@, self.events@.len() as int) == count_nontrivia(
            self.kinds(),
            self.source.cursor_spec(),
        )
    }

    /// The source is consistent and has handed out every token that is not
    /// trivia, all of which were added to the tree.
    pub closed spec fn source_wf(&self) -> bool {
        &&& self.source.wf()
        &&& messages_ok(self.messages@, self.file_id, self.kinds())
        &&& count_adds(self.events@, self.events@.len() as int) == count_nontrivia(
            self.kinds(),
            self.source.cursor_spec(),
        )
    }

    /// The parser is done: the root node is complete and every token that is
    /// not trivia was added.
    pub closed spec fn done(&self) -> bool {
        &&& self.source.wf()
        &&& messages_ok(self.messages@, self.file_id, self.kinds())
        &&& events_ok(self.events@)
        &&& count_adds(self.events@, self.events@.len() as int) == count_nontrivia(
            self.kinds(),
            self.kinds().len() as int,
        )
    }

    /// Constructs a parser that reads from the given source and reports its
    /// messages for the given file.
    pub fn new(file_id: FileId, source: Source<'source, 'tokens>) -> (p: Self)
        requires
            source.wf(),
            source.cursor_spec() == 0,
        ensures
            p.fresh(),
            p.tokens_spec() == source.tokens_spec(),
            p.file_id_spec() == file_id,
            p.messages_spec() == Seq::<Message<FileId>>::empty(),
    {
        Parser {
            file_id,
            source,
            events: Vec::new(),
            expected_kinds: Vec::new(),
            messages: Vec::new(),
            open: Ghost(Seq::empty()),
            org: Ghost(Seq::empty()),
        }
    }

    /// The open markers, from the outermost to the innermost.
    pub closed spec fn open_spec(&self) -> Seq<int> {
        self.open@
    }

    /// Everything but the position in the source and the expected kinds
    /// stays the same from `self` to `other`.
    pub open spec fn same_tree(&self, other: &Self) -> bool {
        &&& other.events_spec() == self.events_spec()
        &&& other.messages_spec() == self.messages_spec()
        &&& other.open_spec() == self.open_spec()
        &&& other.tokens_spec() == self.tokens_spec()
        &&& other.file_id_spec() == self.file_id_spec()
    }

    /// What consistency gives a caller.
    pub proof fn lemma_wf(&self)
        requires
            self.wf(),
        ensures
            self.kinds().len() == self.tokens_spec().len(),
            self.open_spec().len() >= 1,
            self.open_spec()[0] == 0,
            0 <= self.top() < self.events_spec().len(),
            self.events_spec()[self.top()] is Placeholder,
            0 <= self.next_index() <= self.kinds().len(),
            self.peek_spec() is Some <==> self.next_index() < self.kinds().len(),
    {
        self.source.lemma_bounds();
        lemma_skip_trivia(self.source.kinds(), self.source.cursor_spec());
        let o = self.open@;
        assert(0 <= o[o.len() - 1] < self.events@.len());
    }

    /// Peeks the kind of the next token that is not trivia.
    fn peek(&mut self) -> (k: Option<SyntaxKind>)
        requires
            old(self).wf(),
        ensures
            final(self).wf(),
            old(self).same_tree(final(self)),
            final(self).expected_spec() == old(self).expected_spec(),
            k == old(self).peek_spec(),
            final(self).peek_spec() == old(self).peek_spec(),
            final(self).next_index() == old(self).next_index(),
            final(self).remaining() <= old(self).remaining(),
    {
        proof {
            self.source.lemma_bounds();
            lemma_skip_trivia(self.source.kinds(), self.source.cursor_spec());
        }
        let k = self.source.peek_kind();
        proof {
            let ks = self.source.kinds();
            let i = self.source.cursor_spec();
            lemma_skip_trivia(ks, i);
            if i < ks.len() {
                assert(skip_trivia(ks, i) == i);
            }
        }
        k
    }

    /// Checks whether the next token is of the given kind, which joins the
    /// kinds that the parser expects here.
    pub fn is_at(&mut self, kind: SyntaxKind) -> (b: bool)
        requires
            old(self).wf(),
            describable(kind),
        ensures
            final(self).wf(),
            old(self).same_tree(final(self)),
            final(self).expected_spec() == old(self).expected_spec().push(kind),
            b == (old(self).peek_spec() == Some(kind)),
            final(self).peek_spec() == old(self).peek_spec(),
            final(self).next_index() == old(self).next_index(),
            final(self).remaining() <= old(self).remaining(),
    {
        self.expected_kinds.push(kind);
        let k = self.peek();
        match k {
            Some(k) => k == kind,
            None => false,
        }
    }

    /// Returns the kind of the next token if it is one of the given kinds,
    /// which join the kinds that the parser expects here.
    pub fn is_at_either(&mut self, kinds: &[SyntaxKind]) -> (r: Option<SyntaxKind>)
        requires
            old(self).wf(),
            forall|i: int| 0 <= i < kinds@.len() ==> describable(#[trigger] kinds@[i]),
        ensures
            final(self).wf(),
            old(self).same_tree(final(self)),
            final(self).expected_spec() == old(self).expected_spec() + kinds@,
            r is Some <==> (old(self).peek_spec() is Some && kinds@.contains(
                old(self).peek_spec().unwrap(),
            )),
            r is Some ==> r == old(self).peek_spec(),
            final(self).peek_spec() == old(self).peek_spec(),
            final(self).next_index() == old(self).next_index(),
            final(self).remaining() <= old(self).remaining(),
    {
        let mut i: usize = 0;
        while i < kinds.len()
            invariant
                self.expected_kinds@ == old(self).expected_kinds@ + kinds@.take(i as int),
                i <= kinds@.len(),
                forall|j: int| 0 <= j < kinds@.len() ==> describable(#[trigger] kinds@[j]),
                self.wf(),
                old(self).same_tree(self),
                self.source == old(self).source,
            decreases kinds@.len() - i,
        {
            self.expected_kinds.push(kinds[i]);
            i = i + 1;
            proof {
                assert(kinds@.take(i as int) == kinds@.take(i - 1).push(kinds@[i - 1]));
            }
        }
        proof {
            assert(kinds@.take(kinds@.len() as int) == kinds@);
        }
        let k = self.peek();
        match k {
            Some(k) => if slice_contains(kinds, k) {
                Some(k)
            } else {
                None
            },
            None => None,
        }
    }

    /// Checks whether the next token is one of the given kinds, without
    /// adding them to the kinds that the parser expects.
    fn is_at_set(&mut self, set: &[SyntaxKind]) -> (b: bool)
        requires
            old(self).wf(),
        ensures
            final(self).wf(),
            old(self).same_tree(final(self)),
            final(self).expected_spec() == old(self).expected_spec(),
            b == (old(self).peek_spec() is Some && set@.contains(old(self).peek_spec().unwrap())),
            final(self).peek_spec() == old(self).peek_spec(),
            final(self).next_index() == old(self).next_index(),
            final(self).remaining() <= old(self).remaining(),
    {
        let k = self.peek();
        match k {
            Some(k) => slice_contains(set, k),
            None => false,
        }
    }

    /// Checks whether only trivia remain.
    pub fn is_at_end(&mut self) -> (b: bool)
        requires
            old(self).wf(),
        ensures
            final(self).wf(),
            old(self).same_tree(final(self)),
            final(self).expected_spec() == old(self).expected_spec(),
            b == (old(self).peek_spec() is None),
            final(self).peek_spec() == old(self).peek_spec(),
            final(self).next_index() == old(self).next_index(),
            final(self).remaining() <= old(self).remaining(),
    {
        let k = self.peek();
        k.is_none()
    }

    /// Adds the next token that is not trivia to the tree.
    pub fn bump(&mut self)
        requires
            old(self).wf(),
            old(self).peek_spec() is Some,
        ensures
            final(self).wf(),
            final(self).events_spec() == old(self).events_spec().push(Event::AddToken),
            final(self).messages_spec() == old(self).messages_spec(),
            final(self).open_spec() == old(self).open_spec(),
            final(self).tokens_spec() == old(self).tokens_spec(),
            final(self).file_id_spec() == old(self).file_id_spec(),
            final(self).expected_spec() == Seq::<SyntaxKind>::empty(),
            final(self).remaining() < old(self).remaining(),
            final(self).next_index() == next_after(old(self).kinds(), old(self).next_index()),
    {
        proof {
            self.source.lemma_bounds();
            let ks = self.source.kinds();
            lemma_skip_trivia(ks, self.source.cursor_spec());
            lemma_inv_add_token(self.events@, self.open@, self.org@);
            lemma_count_adds_push(self.events@, Event::AddToken, self.events@.len() as int);
        }
        self.expected_kinds.clear();
        let _token = self.source.next_token();
        self.events.push(Event::AddToken);
        proof {
            self.org@ = self.org@.push(0);
        }
    }

    /// Starts a new node, returning its marker.
    pub fn start(&mut self) -> (m: Marker)
        requires
            old(self).wf(),
        ensures
            final(self).wf(),
            final(self).events_spec() == old(self).events_spec().push(Event::Placeholder),
            final(self).open_spec() == old(self).open_spec().push(m.pos as int),
            m.pos == old(self).events_spec().len(),
            final(self).messages_spec() == old(self).messages_spec(),
            final(self).tokens_spec() == old(self).tokens_spec(),
            final(self).file_id_spec() == old(self).file_id_spec(),
            final(self).expected_spec() == old(self).expected_spec(),
            final(self).peek_spec() == old(self).peek_spec(),
            final(self).remaining() == old(self).remaining(),
            final(self).next_index() == old(self).next_index(),
    {
        let pos = self.events.len();
        proof {
            lemma_inv_start(self.events@, self.open@, self.org@);
            lemma_count_adds_push(self.events@, Event::Placeholder, self.events@.len() as int);
        }
        self.events.push(Event::Placeholder);
        proof {
            self.open@ = self.open@.push(pos as int);
            self.org@ = self.org@.push(pos as int);
        }
        Marker { pos }
    }

    /// The number of tokens added to the tree so far.
    pub closed spec fn tokens_added(&self) -> nat {
        count_adds(self.events@, self.events@.len() as int)
    }

    /// The position of the source in the tokens.
    pub closed spec fn cursor(&self) -> int {
        self.source.cursor_spec()
    }

    /// Reports that the next token is not what the parser expected here, in
    /// the given context (the node being parsed), and wraps the token in an
    /// `Error` node unless it may start a declaration (`let`) or there is
    /// none.
    #[verifier::rlimit(40)]
    pub fn error(&mut self, context: Option<SyntaxKind>)
        requires
            old(self).wf(),
            describable_opt(context),
            old(self).tokens_spec().len() > 0,
        ensures
            final(self).wf(),
            final(self).open_spec() == old(self).open_spec(),
            final(self).tokens_spec() == old(self).tokens_spec(),
            final(self).file_id_spec() == old(self).file_id_spec(),
            final(self).remaining() <= old(self).remaining(),
            final(self).expected_spec().len() == 0 || final(self).peek_spec() == old(self).peek_spec(),
            final(self).expected_spec() == Seq::<SyntaxKind>::empty(),
            final(self).messages_spec().len() == old(self).messages_spec().len() + 1,
            final(self).messages_spec().drop_last() == old(self).messages_spec(),
            ({
                let m = final(self).messages_spec().last();
                let toks = old(self).tokens_spec();
                let given = old(self).peek_spec();
                &&& m.location.file_id == old(self).file_id_spec()
                &&& m.location.range == (if given is Some {
                    toks[old(self).next_index()].range
                } else {
                    toks.last().range
                })
                &&& m.kind matches MessageKind::Parser(
                    ParserMessage::UnexpectedKind { context: c, given: g, expected: x },
                ) && c == context && g == given && x@ == old(self).expected_spec()
            }),
            old(self).peek_spec() is Some && old(self).peek_spec() != Some(SyntaxKind::Kwd_Let)
                ==> final(self).remaining() < old(self).remaining(),
            final(self).events_spec() == old(self).events_spec() + error_events(
                old(self).kinds(),
                old(self).next_index(),
            ).0,
            final(self).next_index() == error_events(old(self).kinds(), old(self).next_index()).1,
            reported(
                old(self).messages_spec(),
                final(self).messages_spec(),
                seq![(context, old(self).next_index(), old(self).expected_spec())],
                old(self).tokens_spec(),
                old(self).file_id_spec(),
            ),
    {
        proof {
            self.lemma_wf();
            self.source.lemma_bounds();
            lemma_skip_trivia(self.source.kinds(), self.source.cursor_spec());
        }
        let ghost gnext = self.source.next_index();
        let (given, range) = match self.source.peek_token() {
            Some(token) => (Some(token.kind), token.range.start..token.range.end),
            None => {
                let r = self.source.last_token_range();
                match r {
                    Some(r) => (None, r),
                    None => {
                        proof {
                            assert(false);
                        }
                        (None, 0..0)
                    },
                }
            },
        };
        proof {
            let ks = self.source.kinds();
            lemma_skip_trivia(ks, self.source.cursor_spec());
            if gnext < ks.len() {
                assert(skip_trivia(ks, gnext) == gnext);
            }
        }
        let mut expected: Vec<SyntaxKind> = Vec::new();
        std::mem::swap(&mut expected, &mut self.expected_kinds);
        let message = Message::new(
            MessageKind::Parser(ParserMessage::UnexpectedKind { context, given, expected }),
            Location::new(self.file_id, range),
        );
        self.messages.push(message);
        proof {
            assert(self.messages@.drop_last() =~= old(self).messages@);
            assert forall|i: int| 0 <= i < self.messages@.len() implies (#[trigger] self.messages@[i]).location.file_id
                == self.file_id && self.messages@[i].kind matches MessageKind::Parser(
                ParserMessage::UnexpectedKind { .. },
            ) by {
                if i < old(self).messages@.len() {
                    assert(self.messages@[i] == old(self).messages@[i]);
                }
            }
        }
        proof {
            assert(self.messages@ == old(self).messages@.push(message));
            lemma_reported_push(
                old(self).messages@,
                message,
                (context, gnext, old(self).expected_kinds@),
                old(self).tokens_spec(),
                old(self).file_id_spec(),
            );
        }
        let recovery = [SyntaxKind::Kwd_Let];
        let at_recovery = self.is_at_set(&recovery);
        let at_end = self.is_at_end();
        proof {
            self.lemma_wf();
        }
        let ghost e1 = self.events@;
        if !at_recovery && !at_end {
            let m = self.start();
            self.bump();
            m.complete(self, SyntaxKind::Error);
            proof {
                assert(self.events@ =~= e1 + leaf_events(SyntaxKind::Error));
            }
        } else {
            proof {
                assert(self.events@ =~= e1 + Seq::<Event>::empty());
            }
        }
    }
}

impl Marker {
    /// Completes the node of this marker (the innermost open one) with the
    /// given kind.
    ///
    /// Completing the root marker, the last open one, ends the parse: the
    /// events are then fit for the sink.
    pub fn complete<'source, 'tokens, FileId: Copy>(
        self,
        p: &mut Parser<'source, 'tokens, FileId>,
        kind: SyntaxKind,
    ) -> (cm: CompletedMarker)
        requires
            old(p).wf(),
            self.pos == old(p).top(),
        ensures
            cm.pos == self.pos,
            final(p).events_spec() == old(p).events_spec().update(
                self.pos as int,
                Event::StartNode { kind, forward_parent: None },
            ).push(Event::FinishNode),
            final(p).open_spec() == old(p).open_spec().drop_last(),
            final(p).messages_spec() == old(p).messages_spec(),
            final(p).tokens_spec() == old(p).tokens_spec(),
            final(p).file_id_spec() == old(p).file_id_spec(),
            final(p).expected_spec() == old(p).expected_spec(),
            final(p).cursor() == old(p).cursor(),
            final(p).peek_spec() == old(p).peek_spec(),
            final(p).remaining() == old(p).remaining(),
            final(p).next_index() == old(p).next_index(),
            final(p).tokens_added() == old(p).tokens_added(),
            old(p).open_spec().len() >= 2 ==> final(p).wf(),
            old(p).open_spec().len() == 1 ==> events_ok(final(p).events_spec())
                && final(p).source_wf(),
    {
        proof {
            p.lemma_wf();
            let e = p.events@;
            let n = e.len() as int;
            lemma_count_adds_update(e, self.pos as int, Event::StartNode { kind, forward_parent: None }, n);
            lemma_count_adds_push(
                e.update(self.pos as int, Event::StartNode { kind, forward_parent: None }),
                Event::FinishNode,
                n,
            );
            if p.open@.len() >= 2 {
                lemma_inv_complete(e, p.open@, p.org@, kind);
            } else {
                lemma_ok_complete_root(e, p.open@, p.org@, kind);
            }
        }
        p.events.set(self.pos, Event::StartNode { kind, forward_parent: None });
        p.events.push(Event::FinishNode);
        proof {
            p.open@ = p.open@.drop_last();
            p.org@ = p.org@.push(0);
        }
        CompletedMarker { pos: self.pos }
    }
}

impl CompletedMarker {
    /// Starts a new node that will be the parent of this complete node,
    /// returning the new node's marker.
    pub fn precede<'source, 'tokens, FileId: Copy>(
        self,
        p: &mut Parser<'source, 'tokens, FileId>,
    ) -> (m: Marker)
        requires
            old(p).wf(),
            (self.pos as int) < old(p).events_spec().len(),
            old(p).events_spec()[self.pos as int] matches Event::StartNode {
                forward_parent: None,
                ..
            },
        ensures
            final(p).wf(),
            m.pos == old(p).events_spec().len(),
            final(p).events_spec() == old(p).events_spec().update(
                self.pos as int,
                Event::StartNode {
                    kind: old(p).events_spec()[self.pos as int]->StartNode_kind,
                    forward_parent: Some((old(p).events_spec().len() - self.pos) as usize),
                },
            ).push(Event::Placeholder),
            final(p).open_spec() == old(p).open_spec().push(m.pos as int),
            final(p).messages_spec() == old(p).messages_spec(),
            final(p).tokens_spec() == old(p).tokens_spec(),
            final(p).file_id_spec() == old(p).file_id_spec(),
            final(p).expected_spec() == old(p).expected_spec(),
            final(p).peek_spec() == old(p).peek_spec(),
            final(p).remaining() == old(p).remaining(),
            final(p).next_index() == old(p).next_index(),
    {
        let n = p.events.len();
        let kind = match p.events[self.pos] {
            Event::StartNode { kind, .. } => kind,
            _ => SyntaxKind::Error,
        };
        proof {
            let e = p.events@;
            let fp = Event::StartNode { kind, forward_parent: Some((n - self.pos) as usize) };
            lemma_inv_precede(e, p.open@, p.org@, self.pos as int, kind);
            lemma_count_adds_update(e, self.pos as int, fp, n as int);
            lemma_count_adds_push(e.update(self.pos as int, fp), Event::Placeholder, n as int);
        }
        p.events.set(self.pos, Event::StartNode { kind, forward_parent: Some(n - self.pos) });
        p.events.push(Event::Placeholder);
        proof {
            p.org@ = p.org@.push(p.org@[self.pos as int]);
            p.open@ = p.open@.push(n as int);
        }
        Marker { pos: n }
    }
}

impl<'source, 'tokens, FileId: Copy> Parser<'source, 'tokens, FileId> {
    /// The common frame of the grammar functions: the parser stays
    /// consistent, keeps its open markers, tokens and file, and never moves
    /// back in the source.
    pub open spec fn grammar_frame(&self, after: &Self) -> bool {
        &&& after.wf()
        &&& after.open_spec() == self.open_spec()
        &&& after.tokens_spec() == self.tokens_spec()
        &&& after.file_id_spec() == self.file_id_spec()
        &&& after.remaining() <= self.remaining()
        &&& after.messages_spec().len() >= self.messages_spec().len()
    }

    /// Adds the next token if it is of the given kind; otherwise reports an
    /// error in the given context.
    pub fn expect(&mut self, kind: SyntaxKind, context: Option<SyntaxKind>)
        requires
            old(self).wf(),
            describable(kind),
            describable_opt(context),
            old(self).tokens_spec().len() > 0,
        ensures
            old(self).grammar_frame(final(self)),
            old(self).peek_spec() == Some(kind) ==> final(self).remaining() < old(self).remaining(),
            final(self).events_spec() == old(self).events_spec() + expect_events(
                old(self).kinds(),
                old(self).next_index(),
                kind,
            ).0,
            final(self).next_index() == expect_events(old(self).kinds(), old(self).next_index(), kind).1,
            reported(
                old(self).messages_spec(),
                final(self).messages_spec(),
                expect_sites(old(self).kinds(), old(self).next_index(), kind, context, old(self).expected_spec()),
                old(self).tokens_spec(),
                old(self).file_id_spec(),
            ),
            final(self).expected_spec() == Seq::<SyntaxKind>::empty(),
    {
        proof {
            self.lemma_wf();
        }
        if self.is_at(kind) {
            self.bump();
            proof {
                assert(self.events@ =~= old(self).events@ + seq![Event::AddToken]);
                lemma_reported_none(old(self).messages@, old(self).tokens_spec(), old(self).file_id_spec());
            }
        } else {
            self.error(context);
        }
    }

    /// Consumes the rest of the input: declarations and expressions until
    /// only trivia remain, all within the root node.
    pub fn parse(self) -> (r: (Vec<Event>, Vec<Message<FileId>>))
        requires
            self.fresh(),
        ensures
            events_ok(r.0@),
            count_adds(r.0@, r.0@.len() as int) == count_nontrivia(
                kinds_of(self.tokens_spec()),
                self.tokens_spec().len() as int,
            ),
            messages_ok(r.1@, self.file_id_spec(), kinds_of(self.tokens_spec())),
            r.0@ == root_events(kinds_of(self.tokens_spec())),
            reported(
                Seq::empty(),
                r.1@,
                root_sites(kinds_of(self.tokens_spec())),
                self.tokens_spec(),
                self.file_id_spec(),
            ),
    {
        let mut p = self;
        root(&mut p);
        proof {
            p.lemma_done();
        }
        (p.events, p.messages)
    }

    proof fn lemma_done(&self)
        requires
            self.done(),
        ensures
            events_ok(self.events_spec()),
            count_adds(self.events_spec(), self.events_spec().len() as int) == count_nontrivia(
                kinds_of(self.tokens_spec()),
                self.tokens_spec().len() as int,
            ),
            messages_ok(self.messages_spec(), self.file_id_spec(), kinds_of(self.tokens_spec())),
    {
    }
}

/// The events of a node are complete, and it has no forward parent yet.
pub open spec fn completed_at<'source, 'tokens, FileId: Copy>(
    p: &Parser<'source, 'tokens, FileId>,
    cm: CompletedMarker,
) -> bool {
    &&& (cm.pos as int) < p.events_spec().len()
    &&& p.events_spec()[cm.pos as int] matches Event::StartNode { forward_parent: None, .. }
}

/// Parses the whole input as a root node holding declarations.
#[verifier::spinoff_prover]
pub fn root<'source, 'tokens, FileId: Copy>(p: &mut Parser<'source, 'tokens, FileId>)
    requires
        old(p).fresh(),
    ensures
        final(p).done(),
        final(p).tokens_spec() == old(p).tokens_spec(),
        final(p).file_id_spec() == old(p).file_id_spec(),
        final(p).events_spec() == root_events(old(p).kinds()),
        reported(
            Seq::empty(),
            final(p).messages_spec(),
            root_sites(old(p).kinds()),
            old(p).tokens_spec(),
            old(p).file_id_spec(),
        ),
{
    let ghost ks = p.kinds();
    let ghost toks = p.tokens_spec();
    let ghost fid = p.file_id_spec();
    p.start_root();
    let ghost n0 = p.next_index();
    let ghost mut acc: Seq<Event> = Seq::empty();
    let ghost mut sites: Seq<ErrorSite> = Seq::empty();
    proof {
        lemma_skip_trivia(ks, 0);
        assert(p.events_spec() =~= seq![Event::Placeholder] + acc);
        assert(p.messages_spec() =~= Seq::<Message<FileId>>::empty());
        lemma_reported_none(p.messages_spec(), toks, fid);
        assert(sites + decls_sites(ks, n0, p.expected_spec()) =~= root_sites(ks));
    }
    let m = Marker { pos: 0 };
    while !p.is_at_end()
        invariant
            p.wf(),
            p.open_spec() == seq![0int],
            p.tokens_spec() == old(p).tokens_spec(),
            p.file_id_spec() == old(p).file_id_spec(),
            p.kinds() == ks,
            p.events_spec() == seq![Event::Placeholder] + acc,
            0 <= p.next_index() <= ks.len(),
            decls_events(ks, p.next_index(), acc) == decls_events(ks, n0, Seq::empty()),
            sites + decls_sites(ks, p.next_index(), p.expected_spec()) == root_sites(ks),
            reported(Seq::empty(), p.messages_spec(), sites, toks, fid),
            toks == p.tokens_spec(),
            fid == p.file_id_spec(),
        decreases p.remaining(),
    {
        proof {
            p.lemma_wf();
            lemma_decl_bounds(ks, p.next_index());
        }
        let ghost d = decl_events(ks, p.next_index()).0;
        let ghost nd = p.next_index();
        let ghost md = p.messages_spec();
        let ghost xd = p.expected_spec();
        decl(p);
        proof {
            acc = acc + d;
            assert(p.events_spec() =~= seq![Event::Placeholder] + acc);
            lemma_reported_trans(Seq::empty(), md, p.messages_spec(), sites, decl_sites(ks, nd, xd), toks, fid);
            assert(sites + decls_sites(ks, nd, xd) == sites + (decl_sites(ks, nd, xd) + decls_sites(
                ks,
                p.next_index(),
                p.expected_spec(),
            )));
            assert(sites + (decl_sites(ks, nd, xd) + decls_sites(ks, p.next_index(), p.expected_spec()))
                =~= (sites + decl_sites(ks, nd, xd)) + decls_sites(ks, p.next_index(), p.expected_spec()));
            sites = sites + decl_sites(ks, nd, xd);
        }
    }
    proof {
        p.lemma_wf();
        p.lemma_at_end();
    }
    m.complete(p, SyntaxKind::Root);
    proof {
        assert(p.events_spec() =~= root_events(ks));
        assert(sites + decls_sites(ks, p.next_index(), p.expected_spec()) =~= sites);
    }
}

impl<'source, 'tokens, FileId: Copy> Parser<'source, 'tokens, FileId> {
    /// Starts the root node: the first event, the outermost open marker.
    fn start_root(&mut self)
        requires
            old(self).fresh(),
        ensures
            final(self).wf(),
            final(self).open_spec() == seq![0int],
            final(self).tokens_spec() == old(self).tokens_spec(),
            final(self).file_id_spec() == old(self).file_id_spec(),
            final(self).messages_spec() == old(self).messages_spec(),
            final(self).events_spec() == seq![Event::Placeholder],
            final(self).next_index() == skip_trivia(old(self).kinds(), 0),
            final(self).expected_spec() == Seq::<SyntaxKind>::empty(),
    {
        self.events.push(Event::Placeholder);
        proof {
            assert(self.expected_kinds@ =~= Seq::<SyntaxKind>::empty());
            self.open@ = seq![0int];
            self.org@ = seq![0int];
            let e = self.events@;
            assert(e == seq![Event::Placeholder]);
            crate::event::lemma_inv_initial();
            assert(self.source.kinds().len() == self.source.tokens_spec().len());
            assert(!(e[0] is AddToken));
            assert(count_adds(e, 0) == 0);
            assert(count_adds(e, 1) == 0);
            assert(count_nontrivia(self.source.kinds(), 0) == 0);
            assert(forall|p: int| #[trigger] crate::event::target_of(e, p) is None);
            assert(crate::event::sink_depth(e, 0) == 0);
            assert(crate::event::sink_depth(e, 1) == 0);
            assert(self.messages@.len() == 0);
        }
    }

    /// When only trivia remain, every token that is not trivia was added.
    proof fn lemma_at_end(&self)
        requires
            self.wf(),
            self.peek_spec() is None,
        ensures
            self.tokens_added() == count_nontrivia(self.kinds(), self.kinds().len() as int),
    {
        self.source.lemma_bounds();
        lemma_skip_trivia(self.source.kinds(), self.source.cursor_spec());
    }
}

/// Parses a declaration: a global binding, or else an expression.
#[verifier::spinoff_prover]
pub fn decl<'source, 'tokens, FileId: Copy>(p: &mut Parser<'source, 'tokens, FileId>) -> (r:
    Option<CompletedMarker>)
    requires
        old(p).wf(),
        old(p).peek_spec() is Some,
    ensures
        old(p).grammar_frame(final(p)),
        final(p).remaining() < old(p).remaining(),
        r matches Some(cm) ==> completed_at(final(p), cm),
        final(p).events_spec() == old(p).events_spec() + decl_events(old(p).kinds(), old(p).next_index()).0,
        final(p).next_index() == decl_events(old(p).kinds(), old(p).next_index()).1,
        reported(
            old(p).messages_spec(),
            final(p).messages_spec(),
            decl_sites(old(p).kinds(), old(p).next_index(), old(p).expected_spec()),
            old(p).tokens_spec(),
            old(p).file_id_spec(),
        ),
        final(p).expected_spec() == decl_expected(old(p).kinds(), old(p).next_index()),
{
    proof {
        p.lemma_wf();
        assert(p.tokens_spec().len() > 0);
    }
    if p.is_at(SyntaxKind::Kwd_Let) {
        Some(global_binding(p))
    } else {
        expr(p, 0)
    }
}

/// Completing a node whose start holds its place before the events
/// `parts` gives the node's events after the earlier ones.
proof fn lemma_node_events(e0: Seq<Event>, kind: SyntaxKind, parts: Seq<Event>)
    ensures
        (e0.push(Event::Placeholder) + parts).update(
            e0.len() as int,
            Event::StartNode { kind, forward_parent: None },
        ).push(Event::FinishNode) == e0 + (seq![Event::StartNode { kind, forward_parent: None }]
            + parts + seq![Event::FinishNode]),
{
    assert((e0.push(Event::Placeholder) + parts).update(
        e0.len() as int,
        Event::StartNode { kind, forward_parent: None },
    ).push(Event::FinishNode) =~= e0 + (seq![Event::StartNode { kind, forward_parent: None }]
        + parts + seq![Event::FinishNode]));
}

/// The events of a global binding at a `let`.
proof fn lemma_decl_let(ks: Seq<SyntaxKind>, n: int)
    requires
        0 <= n < ks.len(),
        ks[n] == SyntaxKind::Kwd_Let,
    ensures
        ({
            let (id, a) = expect_events(ks, next_after(ks, n), SyntaxKind::Identifier);
            let (eq, b) = expect_events(ks, a, SyntaxKind::Sym_Eq);
            let (e, c, _) = expr_events(ks, b, 0);
            decl_events(ks, n) == (
                seq![Event::StartNode { kind: SyntaxKind::Dec_GlobalBinding, forward_parent: None }]
                    + (seq![Event::AddToken] + id + eq + e) + seq![Event::FinishNode],
                c,
            )
        }),
{
    let (id, a) = expect_events(ks, next_after(ks, n), SyntaxKind::Identifier);
    let (eq, b) = expect_events(ks, a, SyntaxKind::Sym_Eq);
    let (e, c, _) = expr_events(ks, b, 0);
    assert(seq![Event::StartNode { kind: SyntaxKind::Dec_GlobalBinding, forward_parent: None }]
        + (seq![Event::AddToken] + id + eq + e) + seq![Event::FinishNode] =~= seq![
        Event::StartNode { kind: SyntaxKind::Dec_GlobalBinding, forward_parent: None },
        Event::AddToken,
    ] + id + eq + e + seq![Event::FinishNode]);
}

/// Parses a global binding: `let`, an identifier, `=` and an expression.
/// The events of the parts of a global binding after `let` at `n`: an
/// identifier, `=` and an expression; and where the parser goes on.
pub open spec fn binding_parts(ks: Seq<SyntaxKind>, n: int) -> (Seq<Event>, int) {
    let (id, a) = expect_events(ks, n, SyntaxKind::Identifier);
    let (eq, b) = expect_events(ks, a, SyntaxKind::Sym_Eq);
    let (e, c, _) = expr_events(ks, b, 0);
    (id + eq + e, c)
}

/// Where the parts of a global binding after `let` at `n` report errors:
/// each part is looked for right after a token.
pub open spec fn binding_sites(ks: Seq<SyntaxKind>, n: int) -> Seq<ErrorSite> {
    let ctx = Some(SyntaxKind::Dec_GlobalBinding);
    let a = expect_events(ks, n, SyntaxKind::Identifier).1;
    let b = expect_events(ks, a, SyntaxKind::Sym_Eq).1;
    expect_sites(ks, n, SyntaxKind::Identifier, ctx, Seq::empty()) + expect_sites(
        ks,
        a,
        SyntaxKind::Sym_Eq,
        ctx,
        Seq::empty(),
    ) + expr_sites(ks, b, 0, Seq::empty())
}

/// The reports of the parts of a global binding follow one another.
proof fn lemma_binding_reported<FileId>(
    ks: Seq<SyntaxKind>,
    n: int,
    m1: Seq<Message<FileId>>,
    m2: Seq<Message<FileId>>,
    m3: Seq<Message<FileId>>,
    m4: Seq<Message<FileId>>,
    toks: Seq<Token>,
    fid: FileId,
)
    requires
        ({
            let ctx = Some(SyntaxKind::Dec_GlobalBinding);
            let a = expect_events(ks, n, SyntaxKind::Identifier).1;
            let b = expect_events(ks, a, SyntaxKind::Sym_Eq).1;
            &&& reported(m1, m2, expect_sites(ks, n, SyntaxKind::Identifier, ctx, Seq::empty()), toks, fid)
            &&& reported(m2, m3, expect_sites(ks, a, SyntaxKind::Sym_Eq, ctx, Seq::empty()), toks, fid)
            &&& reported(m3, m4, expr_sites(ks, b, 0, Seq::empty()), toks, fid)
        }),
    ensures
        reported(m1, m4, binding_sites(ks, n), toks, fid),
{
    let ctx = Some(SyntaxKind::Dec_GlobalBinding);
    let a = expect_events(ks, n, SyntaxKind::Identifier).1;
    let b = expect_events(ks, a, SyntaxKind::Sym_Eq).1;
    let s1 = expect_sites(ks, n, SyntaxKind::Identifier, ctx, Seq::empty());
    let s2 = expect_sites(ks, a, SyntaxKind::Sym_Eq, ctx, Seq::empty());
    let s3 = expr_sites(ks, b, 0, Seq::empty());
    lemma_reported_trans(m1, m2, m3, s1, s2, toks, fid);
    lemma_reported_trans(m1, m3, m4, s1 + s2, s3, toks, fid);
}

/// Parses the parts of a global binding after `let`: an identifier, `=`
/// and an expression.
#[verifier::rlimit(80)]
#[verifier::spinoff_prover]
fn binding_rest<'source, 'tokens, FileId: Copy>(p: &mut Parser<'source, 'tokens, FileId>)
    requires
        old(p).wf(),
        old(p).tokens_spec().len() > 0,
        old(p).expected_spec() == Seq::<SyntaxKind>::empty(),
    ensures
        old(p).grammar_frame(final(p)),
        final(p).events_spec() == old(p).events_spec() + binding_parts(old(p).kinds(), old(p).next_index()).0,
        final(p).next_index() == binding_parts(old(p).kinds(), old(p).next_index()).1,
        reported(
            old(p).messages_spec(),
            final(p).messages_spec(),
            binding_sites(old(p).kinds(), old(p).next_index()),
            old(p).tokens_spec(),
            old(p).file_id_spec(),
        ),
        ({
            let ks = old(p).kinds();
            let a = expect_events(ks, old(p).next_index(), SyntaxKind::Identifier).1;
            let b = expect_events(ks, a, SyntaxKind::Sym_Eq).1;
            final(p).expected_spec() == expr_expected(ks, b, 0)
        }),
{
    let ghost ks = p.kinds();
    let ghost toks = p.tokens_spec();
    let ghost fid = p.file_id_spec();
    let ghost e1 = p.events_spec();
    let ghost m1 = p.messages_spec();
    let ghost n1 = p.next_index();
    let ghost (id, a) = expect_events(ks, n1, SyntaxKind::Identifier);
    p.expect(SyntaxKind::Identifier, Some(SyntaxKind::Dec_GlobalBinding));
    let ghost m2 = p.messages_spec();
    let ghost (eq, b) = expect_events(ks, a, SyntaxKind::Sym_Eq);
    p.expect(SyntaxKind::Sym_Eq, Some(SyntaxKind::Dec_GlobalBinding));
    let ghost m3 = p.messages_spec();
    let ghost e = expr_events(ks, b, 0).0;
    expr(p, 0);
    proof {
        lemma_binding_reported(ks, n1, m1, m2, m3, p.messages_spec(), toks, fid);
        assert(p.events_spec() =~= e1 + (id + eq + e));
    }
}

/// Parses a global binding: `let`, an identifier, `=` and an expression.
#[verifier::spinoff_prover]
#[verifier::rlimit(80)]
fn global_binding<'source, 'tokens, FileId: Copy>(p: &mut Parser<'source, 'tokens, FileId>) -> (cm:
    CompletedMarker)
    requires
        old(p).wf(),
        old(p).peek_spec() == Some(SyntaxKind::Kwd_Let),
    ensures
        old(p).grammar_frame(final(p)),
        final(p).remaining() < old(p).remaining(),
        completed_at(final(p), cm),
        final(p).events_spec() == old(p).events_spec() + decl_events(old(p).kinds(), old(p).next_index()).0,
        final(p).next_index() == decl_events(old(p).kinds(), old(p).next_index()).1,
        reported(
            old(p).messages_spec(),
            final(p).messages_spec(),
            decl_sites(old(p).kinds(), old(p).next_index(), old(p).expected_spec()),
            old(p).tokens_spec(),
            old(p).file_id_spec(),
        ),
        final(p).expected_spec() == decl_expected(old(p).kinds(), old(p).next_index()),
{
    proof {
        p.lemma_wf();
    }
    let ghost open0 = p.open_spec();
    let ghost e0 = p.events_spec();
    let ghost ks = p.kinds();
    let ghost n0 = p.next_index();
    let m = p.start();
    p.bump();
    let ghost parts = binding_parts(ks, p.next_index()).0;
    binding_rest(p);
    let cm = m.complete(p, SyntaxKind::Dec_GlobalBinding);
    proof {
        assert(open0.push(m.pos as int).drop_last() =~= open0);
        let all = seq![Event::AddToken] + parts;
        assert(p.events_spec() == (e0.push(Event::Placeholder).push(Event::AddToken) + parts).update(
            e0.len() as int,
            Event::StartNode { kind: SyntaxKind::Dec_GlobalBinding, forward_parent: None },
        ).push(Event::FinishNode));
        assert(e0.push(Event::Placeholder).push(Event::AddToken) + parts =~= e0.push(Event::Placeholder) + all);
        lemma_node_events(e0, SyntaxKind::Dec_GlobalBinding, all);
        lemma_decl_let(ks, n0);
    }
    cm
}

/// The infix operators, in the order the parser expects them.
fn infix_ops() -> (ops: [SyntaxKind; 12])
    ensures
        forall|i: int| 0 <= i < 12 ==> is_infix_op(#[trigger] ops@[i]),
        forall|k: SyntaxKind| is_infix_op(k) ==> ops@.contains(k),
        ops@ == infix_ops_seq(),
{
    [
        SyntaxKind::Sym_Asterisk,
        SyntaxKind::Sym_BangEq,
        SyntaxKind::Sym_Eq,
        SyntaxKind::Sym_ForwardSlash,
        SyntaxKind::Sym_Gt,
        SyntaxKind::Sym_GtEq,
        SyntaxKind::Sym_Lt,
        SyntaxKind::Sym_LtEq,
        SyntaxKind::Sym_LThinArrow,
        SyntaxKind::Sym_Minus,
        SyntaxKind::Sym_Plus,
        SyntaxKind::Sym_Semicolon,
    ]
}

/// The kinds that may start the left-hand side of an expression: literals,
/// identifiers, an opening parenthesis, then the prefix operators.
fn lhs_start_kinds() -> (ks: [SyntaxKind; 6])
    ensures
        forall|i: int| 0 <= i < 6 ==> is_lhs_kind(#[trigger] ks@[i]) || is_prefix_op(ks@[i]),
        forall|k: SyntaxKind| is_lhs_kind(k) || is_prefix_op(k) ==> ks@.contains(k),
        ks@ == lhs_start_seq(),
{
    [
        SyntaxKind::Lit_Integer,
        SyntaxKind::Lit_Float,
        SyntaxKind::Identifier,
        SyntaxKind::Sym_LParen,
        SyntaxKind::Sym_Minus,
        SyntaxKind::Sym_Bang,
    ]
}

/// Parses an expression whose operators bind at least as tightly as
/// `min_bp` (Pratt parsing). Operators of equal power associate to the left,
/// but for the right-associative `<-`.
#[verifier::rlimit(60)]
#[verifier::spinoff_prover]
pub fn expr<'source, 'tokens, FileId: Copy>(p: &mut Parser<'source, 'tokens, FileId>, min_bp: u8) -> (r:
    Option<CompletedMarker>)
    requires
        old(p).wf(),
        old(p).tokens_spec().len() > 0,
    ensures
        old(p).grammar_frame(final(p)),
        r matches Some(cm) ==> completed_at(final(p), cm) && final(p).remaining() < old(p).remaining(),
        old(p).peek_spec() is Some && old(p).peek_spec() != Some(SyntaxKind::Kwd_Let) ==> final(p).remaining() < old(p).remaining(),
        r is None ==> final(p).messages_spec().len() > old(p).messages_spec().len(),
        r is Some && final(p).messages_spec().len() == old(p).messages_spec().len() ==> !(
        final(p).peek_spec() matches Some(k) && is_infix_op(k) && infix_power(k).0 >= min_bp),
        final(p).events_spec() == old(p).events_spec() + expr_events(old(p).kinds(), old(p).next_index(), min_bp).0,
        final(p).next_index() == expr_events(old(p).kinds(), old(p).next_index(), min_bp).1,
        r is Some <==> expr_events(old(p).kinds(), old(p).next_index(), min_bp).2,
        reported(
            old(p).messages_spec(),
            final(p).messages_spec(),
            expr_sites(old(p).kinds(), old(p).next_index(), min_bp, old(p).expected_spec()),
            old(p).tokens_spec(),
            old(p).file_id_spec(),
        ),
        final(p).expected_spec() == expr_expected(old(p).kinds(), old(p).next_index(), min_bp),
    decreases old(p).remaining(), 3nat,
{
    proof {
        p.lemma_wf();
    }
    let ghost ks = p.kinds();
    let ghost n0 = p.next_index();
    let ghost e0 = p.events_spec();
    let ghost goal = expr_events(ks, n0, min_bp);
    proof {
        lemma_lhs_bounds(ks, n0);
    }
    let mut lhs = match lhs(p) {
        Some(cm) => cm,
        None => {
            return None;
        },
    };
    let ghost start_remaining = old(p).remaining();
    let ghost mut acc: Seq<Event> = lhs_events(ks, n0).0;
    let ghost mut lpos: int = 0;
    let ghost msgs0 = old(p).messages_spec();
    let ghost toks = old(p).tokens_spec();
    let ghost fid = old(p).file_id_spec();
    let ghost mut sites: Seq<ErrorSite> = lhs_sites(ks, n0, old(p).expected_spec());
    let ghost x_goal = expr_expected(ks, n0, min_bp);
    proof {
        lemma_binary_bounds(ks, lhs_events(ks, n0).1, min_bp, acc, 0);
        assert(acc.len() > 0);
    }
    loop
        invariant_except_break
            binary_events(ks, p.next_index(), min_bp, acc, lpos) == goal,
            sites + binary_sites(ks, p.next_index(), min_bp) == expr_sites(
                ks,
                n0,
                min_bp,
                old(p).expected_spec(),
            ),
            binary_expected(ks, p.next_index(), min_bp, p.expected_spec()) == x_goal,
        invariant
            old(p).grammar_frame(p),
            p.tokens_spec().len() > 0,
            completed_at(p, lhs),
            p.remaining() < start_remaining,
            start_remaining == old(p).remaining(),
            p.kinds() == ks,
            p.events_spec() == e0 + acc,
            lhs.pos == e0.len() + lpos,
            0 <= lpos < acc.len(),
            0 <= p.next_index() <= ks.len(),
            goal.2,
            reported(msgs0, p.messages_spec(), sites, toks, fid),
            toks == p.tokens_spec(),
            fid == p.file_id_spec(),
        ensures
            old(p).grammar_frame(p),
            completed_at(p, lhs),
            p.remaining() < start_remaining,
            p.messages_spec().len() == old(p).messages_spec().len() ==> !(p.peek_spec() matches Some(
                k,
            ) && is_infix_op(k) && infix_power(k).0 >= min_bp),
            p.events_spec() == e0 + goal.0,
            p.next_index() == goal.1,
            goal.2,
            reported(msgs0, p.messages_spec(), expr_sites(ks, n0, min_bp, old(p).expected_spec()), toks, fid),
            p.expected_spec() == x_goal,
        decreases p.remaining(),
    {
        proof {
            p.lemma_wf();
        }
        let ghost n = p.next_index();
        let ops = infix_ops();
        match p.is_at_either(&ops) {
            Some(operator) => {
                proof {
                    let i = choose|i: int| 0 <= i < ops@.len() && ops@[i] == operator;
                    assert(is_infix_op(ops@[i]));
                }
                let (left_bp, right_bp) = infix_binding_power(operator);
                if left_bp < min_bp {
                    break;
                }
                let ghost open0 = p.open_spec();
                let ghost ea = p.events_spec();
                p.bump();
                let ghost eb = p.events_spec();
                let m = lhs.precede(p);
                let ghost pos = acc.len() + 1int;
                let ghost pre = acc.push(Event::AddToken).update(
                    lpos,
                    Event::StartNode {
                        kind: acc[lpos]->StartNode_kind,
                        forward_parent: Some((pos - lpos) as usize),
                    },
                ).push(Event::Placeholder);
                proof {
                    assert(eb =~= e0 + acc.push(Event::AddToken));
                    assert(eb[lhs.pos as int] == acc[lpos]);
                    assert(p.events_spec() =~= e0 + pre);
                    lemma_skip_trivia(ks, n + 1);
                }
                let ghost ec = p.events_spec();
                let ghost mc = p.messages_spec();
                let parsed_rhs = expr(p, right_bp).is_some();
                let ghost ed = p.events_spec();
                proof {
                    let m1 = next_after(ks, n);
                    lemma_reported_trans(
                        msgs0,
                        mc,
                        p.messages_spec(),
                        sites,
                        expr_sites(ks, m1, right_bp, Seq::empty()),
                        toks,
                        fid,
                    );
                    sites = sites + expr_sites(ks, m1, right_bp, Seq::empty());
                }
                lhs = m.complete(p, SyntaxKind::Exp_Binary);
                proof {
                    assert(open0.push(m.pos as int).drop_last() =~= open0);
                    let m1 = next_after(ks, n);
                    lemma_expr_bounds(ks, m1, right_bp);
                    let rhs = expr_events(ks, m1, right_bp).0;
                    assert(ed =~= e0 + (pre + rhs));
                    let done = (pre + rhs).update(
                        pos,
                        Event::StartNode { kind: SyntaxKind::Exp_Binary, forward_parent: None },
                    ).push(Event::FinishNode);
                    assert(p.events_spec() =~= e0 + done);
                    acc = done;
                    lpos = pos;
                }
                if !parsed_rhs {
                    break;
                }
            },
            None => {
                break;
            },
        }
    }
    Some(lhs)
}

/// Parses the left-hand side of an expression, or reports an error if the
/// next token cannot start one.
#[verifier::spinoff_prover]
fn lhs<'source, 'tokens, FileId: Copy>(p: &mut Parser<'source, 'tokens, FileId>) -> (r: Option<
    CompletedMarker,
>)
    requires
        old(p).wf(),
        old(p).tokens_spec().len() > 0,
    ensures
        old(p).grammar_frame(final(p)),
        r matches Some(cm) ==> completed_at(final(p), cm) && final(p).remaining() < old(p).remaining(),
        old(p).peek_spec() is Some && old(p).peek_spec() != Some(SyntaxKind::Kwd_Let) ==> final(p).remaining() < old(p).remaining(),
        r is None ==> final(p).messages_spec().len() > old(p).messages_spec().len(),
        final(p).events_spec() == old(p).events_spec() + lhs_events(old(p).kinds(), old(p).next_index()).0,
        final(p).next_index() == lhs_events(old(p).kinds(), old(p).next_index()).1,
        r is Some <==> lhs_events(old(p).kinds(), old(p).next_index()).2,
        r matches Some(cm) ==> cm.pos == old(p).events_spec().len(),
        reported(
            old(p).messages_spec(),
            final(p).messages_spec(),
            lhs_sites(old(p).kinds(), old(p).next_index(), old(p).expected_spec()),
            old(p).tokens_spec(),
            old(p).file_id_spec(),
        ),
        final(p).expected_spec() == lhs_expected(old(p).kinds(), old(p).next_index()),
    decreases old(p).remaining(), 2nat,
{
    proof {
        p.lemma_wf();
    }
    let ghost ks = p.kinds();
    let ghost n0 = p.next_index();
    let kinds = lhs_start_kinds();
    match p.is_at_either(&kinds) {
        Some(kind) => {
            proof {
                let i = choose|i: int| 0 <= i < kinds@.len() && kinds@[i] == kind;
                assert(is_lhs_kind(kinds@[i]) || is_prefix_op(kinds@[i]));
                assert(p.kinds() == ks);
                assert(kind == ks[n0]);
            }
            let cm = match kind {
                SyntaxKind::Lit_Integer | SyntaxKind::Lit_Float => {
                    let cm = literal(p);
                    proof {
                        lemma_reported_none(p.messages_spec(), p.tokens_spec(), p.file_id_spec());
                    }
                    cm
                },
                SyntaxKind::Identifier => {
                    let cm = variable_ref(p);
                    proof {
                        lemma_reported_none(p.messages_spec(), p.tokens_spec(), p.file_id_spec());
                    }
                    cm
                },
                SyntaxKind::Sym_LParen => paren_expr(p),
                _ => unary_prefix_expr(p),
            };
            Some(cm)
        },
        None => {
            proof {
                if n0 < ks.len() && (is_lhs_kind(ks[n0]) || is_prefix_op(ks[n0])) {
                    assert(kinds@.contains(ks[n0]));
                }
            }
            p.error(None);
            None
        },
    }
}

/// Parses a literal that stands alone as an expression.
fn literal<'source, 'tokens, FileId: Copy>(p: &mut Parser<'source, 'tokens, FileId>) -> (cm:
    CompletedMarker)
    requires
        old(p).wf(),
        old(p).peek_spec() is Some,
    ensures
        old(p).grammar_frame(final(p)),
        final(p).remaining() < old(p).remaining(),
        completed_at(final(p), cm),
        final(p).events_spec() == old(p).events_spec() + leaf_events(SyntaxKind::Exp_Literal),
        final(p).next_index() == next_after(old(p).kinds(), old(p).next_index()),
        cm.pos == old(p).events_spec().len(),
        final(p).messages_spec() == old(p).messages_spec(),
        final(p).expected_spec() == Seq::<SyntaxKind>::empty(),
{
    proof {
        p.lemma_wf();
    }
    let ghost open0 = p.open_spec();
    let ghost e0 = p.events_spec();
    let m = p.start();
    p.bump();
    let cm = m.complete(p, SyntaxKind::Exp_Literal);
    proof {
        assert(open0.push(m.pos as int).drop_last() =~= open0);
        assert(p.events_spec() =~= e0 + leaf_events(SyntaxKind::Exp_Literal));
    }
    cm
}

/// Parses an identifier as a variable reference.
fn variable_ref<'source, 'tokens, FileId: Copy>(p: &mut Parser<'source, 'tokens, FileId>) -> (cm:
    CompletedMarker)
    requires
        old(p).wf(),
        old(p).peek_spec() is Some,
    ensures
        old(p).grammar_frame(final(p)),
        final(p).remaining() < old(p).remaining(),
        completed_at(final(p), cm),
        final(p).events_spec() == old(p).events_spec() + leaf_events(SyntaxKind::Exp_VariableRef),
        final(p).next_index() == next_after(old(p).kinds(), old(p).next_index()),
        cm.pos == old(p).events_spec().len(),
        final(p).messages_spec() == old(p).messages_spec(),
        final(p).expected_spec() == Seq::<SyntaxKind>::empty(),
{
    proof {
        p.lemma_wf();
    }
    let ghost open0 = p.open_spec();
    let ghost e0 = p.events_spec();
    let m = p.start();
    p.bump();
    let cm = m.complete(p, SyntaxKind::Exp_VariableRef);
    proof {
        assert(open0.push(m.pos as int).drop_last() =~= open0);
        assert(p.events_spec() =~= e0 + leaf_events(SyntaxKind::Exp_VariableRef));
    }
    cm
}

/// Parses a prefix operator and the expression it applies to.
#[verifier::rlimit(60)]
#[verifier::spinoff_prover]
fn unary_prefix_expr<'source, 'tokens, FileId: Copy>(p: &mut Parser<'source, 'tokens, FileId>) -> (cm:
    CompletedMarker)
    requires
        old(p).wf(),
        old(p).peek_spec() is Some,
        old(p).tokens_spec().len() > 0,
    ensures
        old(p).grammar_frame(final(p)),
        final(p).remaining() < old(p).remaining(),
        completed_at(final(p), cm),
        ({
            let (inner, a, _) = expr_events(old(p).kinds(), next_after(old(p).kinds(), old(p).next_index()), 11);
            &&& final(p).events_spec() == old(p).events_spec() + (seq![
                Event::StartNode { kind: SyntaxKind::Exp_UnaryPrefix, forward_parent: None },
                Event::AddToken,
            ] + inner + seq![Event::FinishNode])
            &&& final(p).next_index() == a
        }),
        cm.pos == old(p).events_spec().len(),
        reported(
            old(p).messages_spec(),
            final(p).messages_spec(),
            expr_sites(old(p).kinds(), next_after(old(p).kinds(), old(p).next_index()), 11, Seq::empty()),
            old(p).tokens_spec(),
            old(p).file_id_spec(),
        ),
        final(p).expected_spec() == expr_expected(
            old(p).kinds(),
            next_after(old(p).kinds(), old(p).next_index()),
            11,
        ),
    decreases old(p).remaining(), 1nat,
{
    proof {
        p.lemma_wf();
    }
    let ghost open0 = p.open_spec();
    let ghost e0 = p.events_spec();
    let ghost ks = p.kinds();
    let m = p.start();
    let ((), right_bp) = prefix_binding_power(SyntaxKind::Sym_Minus);
    p.bump();
    let ghost inner = expr_events(ks, p.next_index(), 11).0;
    expr(p, right_bp);
    let cm = m.complete(p, SyntaxKind::Exp_UnaryPrefix);
    proof {
        assert(open0.push(m.pos as int).drop_last() =~= open0);
        assert(p.events_spec() =~= e0 + (seq![
            Event::StartNode { kind: SyntaxKind::Exp_UnaryPrefix, forward_parent: None },
            Event::AddToken,
        ] + inner + seq![Event::FinishNode]));
    }
    cm
}

/// Parses an expression in parentheses; a missing closing parenthesis is
/// reported.
#[verifier::rlimit(60)]
#[verifier::spinoff_prover]
fn paren_expr<'source, 'tokens, FileId: Copy>(p: &mut Parser<'source, 'tokens, FileId>) -> (cm:
    CompletedMarker)
    requires
        old(p).wf(),
        old(p).peek_spec() is Some,
        old(p).tokens_spec().len() > 0,
    ensures
        old(p).grammar_frame(final(p)),
        final(p).remaining() < old(p).remaining(),
        completed_at(final(p), cm),
        ({
            let ks = old(p).kinds();
            let (inner, a, _) = expr_events(ks, next_after(ks, old(p).next_index()), 0);
            let (close, b) = expect_events(ks, a, SyntaxKind::Sym_RParen);
            &&& final(p).events_spec() == old(p).events_spec() + (seq![
                Event::StartNode { kind: SyntaxKind::Exp_Paren, forward_parent: None },
                Event::AddToken,
            ] + inner + close + seq![Event::FinishNode])
            &&& final(p).next_index() == b
        }),
        cm.pos == old(p).events_spec().len(),
        ({
            let ks = old(p).kinds();
            let m = next_after(ks, old(p).next_index());
            reported(
                old(p).messages_spec(),
                final(p).messages_spec(),
                expr_sites(ks, m, 0, Seq::empty()) + expect_sites(
                    ks,
                    expr_events(ks, m, 0).1,
                    SyntaxKind::Sym_RParen,
                    None,
                    expr_expected(ks, m, 0),
                ),
                old(p).tokens_spec(),
                old(p).file_id_spec(),
            )
        }),
        final(p).expected_spec() == Seq::<SyntaxKind>::empty(),
    decreases old(p).remaining(), 1nat,
{
    proof {
        p.lemma_wf();
    }
    let ghost open0 = p.open_spec();
    let ghost e0 = p.events_spec();
    let ghost ks = p.kinds();
    let m = p.start();
    p.bump();
    let ghost e1 = p.events_spec();
    let ghost inner = expr_events(ks, p.next_index(), 0).0;
    let ghost m1 = p.messages_spec();
    expr(p, 0);
    let ghost e2 = p.events_spec();
    let ghost m2 = p.messages_spec();
    let ghost close = expect_events(ks, p.next_index(), SyntaxKind::Sym_RParen).0;
    p.expect(SyntaxKind::Sym_RParen, None);
    proof {
        let ks2 = ks;
        lemma_reported_trans(
            m1,
            m2,
            p.messages_spec(),
            expr_sites(ks, next_after(ks, old(p).next_index()), 0, Seq::empty()),
            expect_sites(
                ks,
                expr_events(ks, next_after(ks, old(p).next_index()), 0).1,
                SyntaxKind::Sym_RParen,
                None,
                expr_expected(ks, next_after(ks, old(p).next_index()), 0),
            ),
            old(p).tokens_spec(),
            old(p).file_id_spec(),
        );
    }
    let cm = m.complete(p, SyntaxKind::Exp_Paren);
    proof {
        assert(open0.push(m.pos as int).drop_last() =~= open0);
        assert(p.events_spec() =~= e0 + (seq![
            Event::StartNode { kind: SyntaxKind::Exp_Paren, forward_parent: None },
            Event::AddToken,
        ] + inner + close + seq![Event::FinishNode]));
    }
    cm
}

} // verus!
