//! The precedence of the binary operators of Helios, and the trees the
//! parser builds for expressions with two of them.

use vstd::prelude::*;

use crate::event::Event;
use crate::parser::{
    binary_events, decl_events, decls_events, expr_events, infix_power, is_infix_op, leaf_events,
    lhs_events, root_events,
};
use crate::source::skip_trivia;
use crate::syntax_kind::SyntaxKind;

verus! {

/// How tightly each binary operator binds, from loosest to tightest: `;`,
/// then the assignment `<-` together with `=` and `!=` (these group to the
/// right, among themselves too: `a = b <- c` is `a = (b <- c)`), then the
/// comparisons `<`, `>`, `<=`, `>=`, then `+` and `-`, then `*` and `/`.
pub open spec fn precedence_level(k: SyntaxKind) -> int {
    if k == SyntaxKind::Sym_Semicolon {
        1
    } else if k == SyntaxKind::Sym_LThinArrow || k == SyntaxKind::Sym_Eq || k == SyntaxKind::Sym_BangEq {
        2
    } else if k == SyntaxKind::Sym_Lt || k == SyntaxKind::Sym_Gt || k == SyntaxKind::Sym_LtEq || k
        == SyntaxKind::Sym_GtEq {
        3
    } else if k == SyntaxKind::Sym_Plus || k == SyntaxKind::Sym_Minus {
        4
    } else if k == SyntaxKind::Sym_Asterisk || k == SyntaxKind::Sym_ForwardSlash {
        5
    } else {
        0
    }
}

/// The operators that group to the right (`a <- b <- c` is `a <- (b <- c)`):
/// `<-`, `=` and `!=`. All the others group to the left.
pub open spec fn groups_right(k: SyntaxKind) -> bool {
    k == SyntaxKind::Sym_LThinArrow || k == SyntaxKind::Sym_Eq || k == SyntaxKind::Sym_BangEq
}

/// The binding powers order the operators by precedence. In `a op1 b op2
/// c`, the parser takes `op2` into the right operand of `op1` exactly when
/// the left power of `op2` reaches the right power of `op1`; that happens
/// when `op2` binds more tightly than `op1`, never when it binds more
/// loosely, and, between operators of the same level, exactly when they
/// group to the right.
pub proof fn lemma_binding_order(op1: SyntaxKind, op2: SyntaxKind)
    requires
        is_infix_op(op1),
        is_infix_op(op2),
    ensures
        precedence_level(op1) < precedence_level(op2) ==> infix_power(op2).0 >= infix_power(op1).1,
        precedence_level(op1) > precedence_level(op2) ==> infix_power(op2).0 < infix_power(op1).1,
        precedence_level(op1) == precedence_level(op2) ==> (infix_power(op2).0 >= infix_power(op1).1
            <==> groups_right(op1)),
        1 <= precedence_level(op1) <= 5,
{
}

/// The kinds of tokens that stand alone as an operand: literals and
/// identifiers.
pub open spec fn is_operand(k: SyntaxKind) -> bool {
    k == SyntaxKind::Lit_Integer || k == SyntaxKind::Lit_Float || k == SyntaxKind::Identifier
}

/// The node that an operand token makes: a literal, or a variable
/// reference for an identifier.
pub open spec fn operand_node(k: SyntaxKind) -> SyntaxKind {
    if k == SyntaxKind::Identifier {
        SyntaxKind::Exp_VariableRef
    } else {
        SyntaxKind::Exp_Literal
    }
}

/// The start of a node of the given kind; `parent` is how many events
/// later the node that becomes its parent starts, for a node that becomes
/// the first child of a node started after it.
pub open spec fn start(kind: SyntaxKind, parent: Option<usize>) -> Event {
    Event::StartNode { kind, forward_parent: parent }
}

/// The events of `x op1 (y op2 z)`: the second operator's node is the
/// right operand of the first's.
pub open spec fn right_nested(x: SyntaxKind, y: SyntaxKind, z: SyntaxKind) -> Seq<Event> {
    seq![
        start(operand_node(x), Some(4)),
        Event::AddToken,
        Event::FinishNode,
        Event::AddToken,
        start(SyntaxKind::Exp_Binary, None),
        start(operand_node(y), Some(4)),
        Event::AddToken,
        Event::FinishNode,
        Event::AddToken,
        start(SyntaxKind::Exp_Binary, None),
        start(operand_node(z), None),
        Event::AddToken,
        Event::FinishNode,
        Event::FinishNode,
        Event::FinishNode,
    ]
}

/// The events of `(x op1 y) op2 z`: the first operator's node is the left
/// operand of the second's.
pub open spec fn left_nested(x: SyntaxKind, y: SyntaxKind, z: SyntaxKind) -> Seq<Event> {
    seq![
        start(operand_node(x), Some(4)),
        Event::AddToken,
        Event::FinishNode,
        Event::AddToken,
        start(SyntaxKind::Exp_Binary, Some(6)),
        start(operand_node(y), None),
        Event::AddToken,
        Event::FinishNode,
        Event::FinishNode,
        Event::AddToken,
        start(SyntaxKind::Exp_Binary, None),
        start(operand_node(z), None),
        Event::AddToken,
        Event::FinishNode,
        Event::FinishNode,
    ]
}

/// The tokens, none of them trivia.
proof fn lemma_no_trivia(ks: Seq<SyntaxKind>)
    requires
        forall|i: int| 0 <= i < ks.len() ==> !(#[trigger] ks[i]).is_trivia_spec(),
    ensures
        forall|i: int| 0 <= i <= ks.len() ==> #[trigger] skip_trivia(ks, i) == i,
{
    assert forall|i: int| 0 <= i <= ks.len() implies #[trigger] skip_trivia(ks, i) == i by {
        if i < ks.len() {
            assert(!ks[i].is_trivia_spec());
        }
    }
}

/// An operand that no operator binding at least as tightly as `bp` follows
/// is an expression on its own.
proof fn lemma_operand_expr(ks: Seq<SyntaxKind>, i: int, bp: u8)
    requires
        forall|j: int| 0 <= j <= ks.len() ==> #[trigger] skip_trivia(ks, j) == j,
        0 <= i < ks.len(),
        is_operand(ks[i]),
        i + 1 == ks.len() || !(is_infix_op(ks[i + 1]) && infix_power(ks[i + 1]).0 >= bp),
    ensures
        expr_events(ks, i, bp) == (leaf_events(operand_node(ks[i])), i + 1, true),
{
    assert(skip_trivia(ks, i + 1) == i + 1);
    assert(lhs_events(ks, i) == (leaf_events(operand_node(ks[i])), i + 1, true));
    assert(binary_events(ks, i + 1, bp, leaf_events(operand_node(ks[i])), 0) == (
        leaf_events(operand_node(ks[i])),
        i + 1,
        true,
    ));
}

/// The tree of two binary operators between three operands: the second
/// operator's node is the right operand of the first exactly when its left
/// binding power reaches the first's right one; otherwise the first
/// operator's node is the left operand of the second's.
/// The shape of the tokens `x op1 y op2 z`, none of them trivia.
proof fn lemma_tokens(x: SyntaxKind, op1: SyntaxKind, y: SyntaxKind, op2: SyntaxKind, z: SyntaxKind)
    requires
        is_operand(x),
        is_operand(y),
        is_operand(z),
        is_infix_op(op1),
        is_infix_op(op2),
    ensures
        ({
            let ks = seq![x, op1, y, op2, z];
            &&& forall|i: int| 0 <= i <= ks.len() ==> #[trigger] skip_trivia(ks, i) == i
            &&& lhs_events(ks, 0) == (leaf_events(operand_node(x)), 1int, true)
            &&& lhs_events(ks, 2) == (leaf_events(operand_node(y)), 3int, true)
            &&& expr_events(ks, 4, infix_power(op2).1) == (leaf_events(operand_node(z)), 5int, true)
        }),
{
    let ks = seq![x, op1, y, op2, z];
    assert forall|i: int| 0 <= i < ks.len() implies !(#[trigger] ks[i]).is_trivia_spec() by {}
    lemma_no_trivia(ks);
    lemma_operand_expr(ks, 4, infix_power(op2).1);
    assert(skip_trivia(ks, 1) == 1 && skip_trivia(ks, 3) == 3);
}

/// The events of the whole input, once the expression from the first
/// token is known to take all of them.
proof fn lemma_root_of_expr(ks: Seq<SyntaxKind>, e: Seq<Event>)
    requires
        ks.len() == 5,
        forall|i: int| 0 <= i <= ks.len() ==> #[trigger] skip_trivia(ks, i) == i,
        ks[0] != SyntaxKind::Kwd_Let,
        expr_events(ks, 0, 0) == (e, 5int, true),
    ensures
        root_events(ks) == seq![start(SyntaxKind::Root, None)] + e + seq![Event::FinishNode],
{
    assert(skip_trivia(ks, 0) == 0 && skip_trivia(ks, 5) == 5);
    assert(decl_events(ks, 0) == (e, 5int));
    assert(decls_events(ks, 5, Seq::empty() + e) == Seq::empty() + e);
    assert(decls_events(ks, 0, Seq::empty()) == Seq::empty() + e);
    assert(Seq::<Event>::empty() + e =~= e);
}

#[verifier::spinoff_prover]
proof fn lemma_right(x: SyntaxKind, op1: SyntaxKind, y: SyntaxKind, op2: SyntaxKind, z: SyntaxKind)
    requires
        is_operand(x),
        is_operand(y),
        is_operand(z),
        is_infix_op(op1),
        is_infix_op(op2),
        infix_power(op2).0 >= infix_power(op1).1,
    ensures
        root_events(seq![x, op1, y, op2, z]) == seq![start(SyntaxKind::Root, None)] + right_nested(
            x,
            y,
            z,
        ) + seq![Event::FinishNode],
{
    let ks = seq![x, op1, y, op2, z];
    lemma_tokens(x, op1, y, op2, z);
    let p1 = infix_power(op1);
    let lx = leaf_events(operand_node(x));
    let ly = leaf_events(operand_node(y));
    let lz = leaf_events(operand_node(z));
    let bin = start(SyntaxKind::Exp_Binary, None);
    let pre2 = ly.push(Event::AddToken).update(0, start(operand_node(y), Some(4))).push(
        Event::Placeholder,
    );
    let done2 = (pre2 + lz).update(4, bin).push(Event::FinishNode);
    assert(binary_events(ks, 5, p1.1, done2, 4) == (done2, 5int, true));
    assert(binary_events(ks, 3, p1.1, ly, 0) == (done2, 5int, true));
    assert(expr_events(ks, 2, p1.1) == (done2, 5int, true));
    let pre1 = lx.push(Event::AddToken).update(0, start(operand_node(x), Some(4))).push(
        Event::Placeholder,
    );
    let done1 = (pre1 + done2).update(4, bin).push(Event::FinishNode);
    assert(binary_events(ks, 5, 0, done1, 4) == (done1, 5int, true));
    assert(binary_events(ks, 1, 0, lx, 0) == (done1, 5int, true));
    assert(expr_events(ks, 0, 0) == (done1, 5int, true));
    assert(done1 =~= right_nested(x, y, z));
    lemma_root_of_expr(ks, done1);
}

#[verifier::spinoff_prover]
proof fn lemma_left(x: SyntaxKind, op1: SyntaxKind, y: SyntaxKind, op2: SyntaxKind, z: SyntaxKind)
    requires
        is_operand(x),
        is_operand(y),
        is_operand(z),
        is_infix_op(op1),
        is_infix_op(op2),
        infix_power(op2).0 < infix_power(op1).1,
    ensures
        root_events(seq![x, op1, y, op2, z]) == seq![start(SyntaxKind::Root, None)] + left_nested(
            x,
            y,
            z,
        ) + seq![Event::FinishNode],
{
    let ks = seq![x, op1, y, op2, z];
    lemma_tokens(x, op1, y, op2, z);
    let p1 = infix_power(op1);
    let lx = leaf_events(operand_node(x));
    let ly = leaf_events(operand_node(y));
    let lz = leaf_events(operand_node(z));
    let bin = start(SyntaxKind::Exp_Binary, None);
    assert(binary_events(ks, 3, p1.1, ly, 0) == (ly, 3int, true));
    assert(expr_events(ks, 2, p1.1) == (ly, 3int, true));
    let pre1 = lx.push(Event::AddToken).update(0, start(operand_node(x), Some(4))).push(
        Event::Placeholder,
    );
    let done1 = (pre1 + ly).update(4, bin).push(Event::FinishNode);
    let pre = done1.push(Event::AddToken).update(4, start(SyntaxKind::Exp_Binary, Some(6))).push(
        Event::Placeholder,
    );
    let done = (pre + lz).update(10, bin).push(Event::FinishNode);
    assert(binary_events(ks, 5, 0, done, 10) == (done, 5int, true));
    assert(binary_events(ks, 3, 0, done1, 4) == (done, 5int, true));
    assert(binary_events(ks, 1, 0, lx, 0) == (done, 5int, true));
    assert(expr_events(ks, 0, 0) == (done, 5int, true));
    assert(done =~= left_nested(x, y, z));
    lemma_root_of_expr(ks, done);
}

/// The tree of two binary operators between three operands: the second
/// operator's node is the right operand of the first exactly when its left
/// binding power reaches the first's right one; otherwise the first
/// operator's node is the left operand of the second's.
pub proof fn lemma_two_operators(
    x: SyntaxKind,
    op1: SyntaxKind,
    y: SyntaxKind,
    op2: SyntaxKind,
    z: SyntaxKind,
)
    requires
        is_operand(x),
        is_operand(y),
        is_operand(z),
        is_infix_op(op1),
        is_infix_op(op2),
    ensures
        root_events(seq![x, op1, y, op2, z]) == seq![start(SyntaxKind::Root, None)] + (if infix_power(
            op2,
        ).0 >= infix_power(op1).1 {
            right_nested(x, y, z)
        } else {
            left_nested(x, y, z)
        }) + seq![Event::FinishNode],
{
    if infix_power(op2).0 >= infix_power(op1).1 {
        lemma_right(x, op1, y, op2, z);
    } else {
        lemma_left(x, op1, y, op2, z);
    }
}

/// The tree follows the precedence of the operators: in `x op1 y op2 z`,
/// the second operator's node is the right operand of the first's when it
/// binds more tightly (as `*` and `/` do than `+` and `-`, so that
/// `1 + 6 / 3` divides before it adds), and the first's node is the left
/// operand of the second's when it binds more tightly; between operators of
/// the same level, the nesting follows how they group.
pub proof fn lemma_precedence_tree(
    x: SyntaxKind,
    op1: SyntaxKind,
    y: SyntaxKind,
    op2: SyntaxKind,
    z: SyntaxKind,
)
    requires
        is_operand(x),
        is_operand(y),
        is_operand(z),
        is_infix_op(op1),
        is_infix_op(op2),
    ensures
        precedence_level(op1) < precedence_level(op2) ==> root_events(seq![x, op1, y, op2, z])
            == seq![start(SyntaxKind::Root, None)] + right_nested(x, y, z) + seq![Event::FinishNode],
        precedence_level(op1) > precedence_level(op2) ==> root_events(seq![x, op1, y, op2, z])
            == seq![start(SyntaxKind::Root, None)] + left_nested(x, y, z) + seq![Event::FinishNode],
        precedence_level(op1) == precedence_level(op2) ==> root_events(seq![x, op1, y, op2, z])
            == seq![start(SyntaxKind::Root, None)] + (if groups_right(op1) {
            right_nested(x, y, z)
        } else {
            left_nested(x, y, z)
        }) + seq![Event::FinishNode],
{
    lemma_binding_order(op1, op2);
    lemma_two_operators(x, op1, y, op2, z);
}

/// The events of `(op x) op2 y`, a prefix operator applied to `x`, whose
/// node is the left operand of `op2`'s.
pub open spec fn prefix_left(x: SyntaxKind, y: SyntaxKind) -> Seq<Event> {
    seq![
        start(SyntaxKind::Exp_UnaryPrefix, Some(7)),
        Event::AddToken,
        start(operand_node(x), None),
        Event::AddToken,
        Event::FinishNode,
        Event::FinishNode,
        Event::AddToken,
        start(SyntaxKind::Exp_Binary, None),
        start(operand_node(y), None),
        Event::AddToken,
        Event::FinishNode,
        Event::FinishNode,
    ]
}

/// A prefix operator binds more tightly than every binary operator: in
/// `-x op y` (or `!x op y`) the prefix operator applies to `x` alone, and
/// its node is the left operand of the binary operator.
#[verifier::spinoff_prover]
pub proof fn lemma_prefix_binds_tightest(p: SyntaxKind, x: SyntaxKind, op: SyntaxKind, y: SyntaxKind)
    requires
        p == SyntaxKind::Sym_Minus || p == SyntaxKind::Sym_Bang,
        is_operand(x),
        is_infix_op(op),
        is_operand(y),
    ensures
        root_events(seq![p, x, op, y]) == seq![start(SyntaxKind::Root, None)] + prefix_left(x, y)
            + seq![Event::FinishNode],
{
    let ks = seq![p, x, op, y];
    assert forall|i: int| 0 <= i < ks.len() implies !(#[trigger] ks[i]).is_trivia_spec() by {}
    lemma_no_trivia(ks);
    assert(skip_trivia(ks, 1) == 1 && skip_trivia(ks, 3) == 3 && skip_trivia(ks, 4) == 4);
    let lx = leaf_events(operand_node(x));
    let ly = leaf_events(operand_node(y));
    lemma_operand_expr(ks, 1, 11);
    lemma_operand_expr(ks, 3, infix_power(op).1);
    let un = seq![start(SyntaxKind::Exp_UnaryPrefix, None), Event::AddToken] + lx + seq![
        Event::FinishNode,
    ];
    assert(lhs_events(ks, 0) == (un, 2int, true));
    let pre = un.push(Event::AddToken).update(0, start(SyntaxKind::Exp_UnaryPrefix, Some(7))).push(
        Event::Placeholder,
    );
    let done = (pre + ly).update(7, start(SyntaxKind::Exp_Binary, None)).push(Event::FinishNode);
    assert(binary_events(ks, 4, 0, done, 7) == (done, 4int, true));
    assert(binary_events(ks, 2, 0, un, 0) == (done, 4int, true));
    assert(expr_events(ks, 0, 0) == (done, 4int, true));
    assert(done =~= prefix_left(x, y));
    assert(decl_events(ks, 0) == (done, 4int));
    assert(skip_trivia(ks, 0) == 0);
    assert(decls_events(ks, 4, Seq::empty() + done) == Seq::empty() + done);
    assert(decls_events(ks, 0, Seq::empty()) == Seq::empty() + done);
    assert(Seq::<Event>::empty() + done =~= done);
}

} // verus!
