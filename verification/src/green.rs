//! Building green trees (the immutable syntax trees of the `rowan` crate).
//!
//! A [`GreenNodeBuilder`] holds a stack of open nodes and a list of pending
//! children (complete nodes and tokens). Its state is described here by the
//! first-child index of each open node, whether each pending child is a node,
//! the text of all the tokens added, and the walk through the nodes and
//! tokens added so far; the wrappers below state how each builder operation
//! changes them, as the `rowan` source shows.

use rowan::{GreenNode, GreenNodeBuilder};
use vstd::prelude::*;

use crate::utf8::byte_len;

verus! {

#[verifier::external_type_specification]
#[verifier::external_body]
pub struct ExGreenNodeBuilder<'cache>(GreenNodeBuilder<'cache>);

#[verifier::external_type_specification]
#[verifier::external_body]
pub struct ExGreenNode(GreenNode);

/// One step of a walk through a syntax tree, in the order of its text:
/// entering a node of a kind, passing a token of a kind with its text, or
/// leaving a node. Kinds are given by their raw numbers.
pub enum TreeStep {
    Enter(u16),
    Token(u16, Seq<char>),
    Leave,
}

/// The walk through what the builder holds: the pending children in order
/// (each complete node as its whole walk), with each open node entered where
/// its own children start and not yet left.
pub uninterp spec fn builder_walk(b: GreenNodeBuilder<'static>) -> Seq<TreeStep>;

/// The walk through a green node: entering it, the walks of its children in
/// order, and leaving it.
pub uninterp spec fn green_walk(n: GreenNode) -> Seq<TreeStep>;

/// For each open node of the builder, from the outermost to the innermost,
/// the index in the pending children where its own children start.
pub uninterp spec fn builder_parents(b: GreenNodeBuilder<'static>) -> Seq<nat>;

/// For each pending child of the builder, whether it is a node (`true`) or
/// a token (`false`).
pub uninterp spec fn builder_children(b: GreenNodeBuilder<'static>) -> Seq<bool>;

/// The texts of all the tokens added to the builder, one after the other.
pub uninterp spec fn builder_text(b: GreenNodeBuilder<'static>) -> Seq<char>;

/// The text of a green node: the texts of its tokens, in order, as its
/// `Display` impl writes them.
pub uninterp spec fn green_text(n: GreenNode) -> Seq<char>;

/// Creates an empty builder.
///
/// This is `GreenNodeBuilder::new` of `rowan`: no node is open and no child
/// is pending.
#[verifier::external_body]
pub(crate) fn builder_new() -> (b: GreenNodeBuilder<'static>)
    ensures
        builder_parents(b) == Seq::<nat>::empty(),
        builder_children(b) == Seq::<bool>::empty(),
        builder_text(b) == Seq::<char>::empty(),
        builder_walk(b) == Seq::<TreeStep>::empty(),
{
    GreenNodeBuilder::new()
}

/// Opens a node of the kind with the given raw number.
///
/// This is `GreenNodeBuilder::start_node` of `rowan`, which pushes the kind
/// and the current number of pending children on the stack of open nodes.
#[verifier::external_body]
pub(crate) fn builder_start_node(b: &mut GreenNodeBuilder<'static>, raw_kind: u16)
    ensures
        builder_parents(*final(b)) == builder_parents(*old(b)).push(
            builder_children(*old(b)).len(),
        ),
        builder_children(*final(b)) == builder_children(*old(b)),
        builder_text(*final(b)) == builder_text(*old(b)),
        builder_walk(*final(b)) == builder_walk(*old(b)).push(TreeStep::Enter(raw_kind)),
{
    b.start_node(rowan::SyntaxKind(raw_kind));
}

/// Adds a token of the kind with the given raw number and the given text.
///
/// This is `GreenNodeBuilder::token` of `rowan`, which pushes the token on
/// the pending children. The length of a token's text is kept as a `u32`, so
/// the text may not be longer than `u32::MAX` bytes.
#[verifier::external_body]
pub(crate) fn builder_token(b: &mut GreenNodeBuilder<'static>, raw_kind: u16, text: &str)
    requires
        byte_len(text@) <= u32::MAX,
    ensures
        builder_parents(*final(b)) == builder_parents(*old(b)),
        builder_children(*final(b)) == builder_children(*old(b)).push(false),
        builder_text(*final(b)) == builder_text(*old(b)) + text@,
        builder_walk(*final(b)) == builder_walk(*old(b)).push(TreeStep::Token(raw_kind, text@)),
{
    b.token(rowan::SyntaxKind(raw_kind), text);
}

/// Closes the innermost open node.
///
/// This is `GreenNodeBuilder::finish_node` of `rowan`, which pops the
/// innermost open node (panicking if there is none), makes a node of the
/// pending children from its first-child index on, and pushes that node on
/// the pending children. The length of a node's text is summed as a `u32`,
/// so the texts added may not be longer than `u32::MAX` bytes in all.
#[verifier::external_body]
pub(crate) fn builder_finish_node(b: &mut GreenNodeBuilder<'static>)
    requires
        builder_parents(*old(b)).len() > 0,
        builder_parents(*old(b)).last() <= builder_children(*old(b)).len(),
        byte_len(builder_text(*old(b))) <= u32::MAX,
    ensures
        builder_parents(*final(b)) == builder_parents(*old(b)).drop_last(),
        builder_children(*final(b)) == builder_children(*old(b)).take(
            builder_parents(*old(b)).last() as int,
        ).push(true),
        builder_text(*final(b)) == builder_text(*old(b)),
        builder_walk(*final(b)) == builder_walk(*old(b)).push(TreeStep::Leave),
{
    b.finish_node();
}

/// Completes the tree, returning its root node.
///
/// This is `GreenNodeBuilder::finish` of `rowan`, which panics unless
/// exactly one child, a node, is pending, and returns that node. Once no
/// node is open any more, that node holds everything that was added (a node
/// made by `finish_node` holds the pending children in order), so its text
/// is the text of all the tokens added and its walk is the walk of all that
/// was added.
#[verifier::external_body]
pub(crate) fn builder_finish(b: GreenNodeBuilder<'static>) -> (n: GreenNode)
    requires
        builder_parents(b).len() == 0,
        builder_children(b) == seq![true],
    ensures
        green_text(n) == builder_text(b),
        green_walk(n) == builder_walk(b),
{
    b.finish()
}

} // verus!
