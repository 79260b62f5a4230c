//! The events that the parser emits, and what they mean for the syntax tree
//! that the sink builds from them.
//!
//! The parser emits a flat list of events. A node is opened by a `StartNode`
//! event and closed by the `FinishNode` event that completes it; tokens are
//! added by `AddToken` events. A node that was started after its first child
//! was complete (an operator node around its left operand) is recorded as the
//! *forward parent* of that child: the child's `StartNode` event holds the
//! distance to the parent's own `StartNode` event. The sink opens a chain of
//! forward parents outermost first, at the place of the chain's first node.
//!
//! [`sink_depth`] is the number of nodes that the sink holds open before it
//! handles a given event. The parser keeps [`events_inv`]; at the end it gives
//! [`events_ok`], which is what the sink needs to build a tree without fault.

use vstd::prelude::*;

use crate::syntax_kind::SyntaxKind;

verus! {

/// An event of the parser.
#[derive(Debug, Clone, Copy, PartialEq, Eq)]
pub enum Event {
    StartNode { kind: SyntaxKind, forward_parent: Option<usize> },
    AddToken,
    FinishNode,
    Placeholder,
}

/// Whether the event at index `k` starts a node (or holds the place of a
/// node not yet complete).
pub open spec fn is_marker(e: Seq<Event>, k: int) -> bool {
    0 <= k < e.len() && (e[k] is StartNode || e[k] is Placeholder)
}

pub open spec fn is_start(e: Seq<Event>, k: int) -> bool {
    0 <= k < e.len() && e[k] is StartNode
}

pub open spec fn is_finish(e: Seq<Event>, k: int) -> bool {
    0 <= k < e.len() && e[k] is FinishNode
}

/// The index of the forward parent of the node started at index `k`, if any.
pub open spec fn target_of(e: Seq<Event>, k: int) -> Option<int> {
    if 0 <= k < e.len() {
        match e[k] {
            Event::StartNode { forward_parent: Some(d), .. } => Some(k + d),
            _ => None,
        }
    } else {
        None
    }
}

/// Whether the node at index `t` is the forward parent of another node.
pub open spec fn claimed(e: Seq<Event>, t: int) -> bool {
    exists|p: int| #[trigger] target_of(e, p) == Some(t)
}

/// Forward parents lie further on, start nodes (or hold their place), and
/// each is the forward parent of one node at most.
pub open spec fn targets_ok(e: Seq<Event>) -> bool {
    &&& forall|p: int|
        #[trigger] target_of(e, p) is Some ==> p < target_of(e, p).unwrap() && is_marker(
            e,
            target_of(e, p).unwrap(),
        )
    &&& forall|p1: int, p2: int|
        #[trigger] target_of(e, p1) is Some && target_of(e, p1) == #[trigger] target_of(e, p2)
            ==> p1 == p2
}

/// `org` gives each node the first node of its chain of forward parents.
pub open spec fn org_ok(e: Seq<Event>, org: Seq<int>) -> bool {
    &&& org.len() == e.len()
    &&& forall|k: int| is_marker(e, k) ==> 0 <= #[trigger] org[k] <= k
    &&& forall|k: int| is_marker(e, k) && !claimed(e, k) ==> #[trigger] org[k] == k
    &&& forall|k: int| #[trigger] is_marker(e, k) ==> is_marker(e, org[k]) && !claimed(e, org[k])
    &&& forall|p: int|
        #[trigger] target_of(e, p) is Some ==> org[target_of(e, p).unwrap()] == org[p]
}

/// The number of nodes in the chain of forward parents from index `k` on.
pub open spec fn chain_len(e: Seq<Event>, k: int) -> nat
    decreases e.len() - k,
{
    if !is_start(e, k) {
        0
    } else {
        match target_of(e, k) {
            Some(t) => if k < t < e.len() {
                1 + chain_len(e, t)
            } else {
                1
            },
            None => 1,
        }
    }
}

/// Whether following forward parents from `k` leads to `p`.
pub open spec fn reaches(e: Seq<Event>, k: int, p: int) -> bool
    decreases e.len() - k,
{
    if !(0 <= k < e.len()) {
        false
    } else if k == p {
        true
    } else {
        match target_of(e, k) {
            Some(t) => if k < t < e.len() {
                reaches(e, t, p)
            } else {
                false
            },
            None => false,
        }
    }
}

/// How the number of open nodes changes when the sink handles event `j`:
/// the first node of a chain opens the whole chain, and a finish closes one.
pub open spec fn effect(e: Seq<Event>, j: int) -> int {
    (if is_start(e, j) && !claimed(e, j) {
        chain_len(e, j) as int
    } else {
        0
    }) - (if is_finish(e, j) {
        1int
    } else {
        0
    })
}

/// The number of nodes that the sink holds open before it handles event `j`.
pub open spec fn sink_depth(e: Seq<Event>, j: int) -> int
    decreases j,
{
    if j <= 0 {
        0
    } else {
        sink_depth(e, j - 1) + effect(e, j - 1)
    }
}

/// The number of open markers whose chain starts before `j`.
pub open spec fn count_open_before(org: Seq<int>, open: Seq<int>, j: int) -> nat
    decreases open.len(),
{
    if open.len() == 0 {
        0
    } else {
        count_open_before(org, open.drop_last(), j) + (if org[open.last()] < j {
            1nat
        } else {
            0
        })
    }
}

/// The open markers hold the places of nodes not yet complete, from the
/// outermost (the root, at index 0) to the innermost; no other event holds a
/// place.
pub open spec fn open_ok(e: Seq<Event>, open: Seq<int>) -> bool {
    &&& open.len() >= 1
    &&& open[0] == 0
    &&& forall|i: int| 0 <= i < open.len() ==> 0 <= #[trigger] open[i] < e.len() && e[open[i]] is Placeholder
    &&& forall|i: int, j: int| 0 <= i < j < open.len() ==> #[trigger] open[i] < #[trigger] open[j]
    &&& forall|k: int| 0 <= k < e.len() && #[trigger] e[k] is Placeholder ==> open.contains(k)
}

/// The invariant of the events while the parser runs: forward parents are
/// consistent, and every event but the first lies within an open node, once
/// the open markers are taken into account.
pub open spec fn events_inv(e: Seq<Event>, open: Seq<int>, org: Seq<int>) -> bool {
    &&& targets_ok(e)
    &&& org_ok(e, org)
    &&& open_ok(e, open)
    &&& forall|j: int| 0 < j < e.len() ==> #[trigger] sink_depth(e, j) + count_open_before(org, open, j) >= 1
    &&& forall|j: int| 0 <= j <= e.len() ==> #[trigger] sink_depth(e, j) >= 0
    &&& sink_depth(e, e.len() as int) == 0
}

/// What the sink needs of the events of a finished parse: forward parents
/// are consistent and are start nodes, the first event starts the root node,
/// and every event after the first and before the last lies within an open
/// node, none remaining open at the end.
pub open spec fn events_ok(e: Seq<Event>) -> bool {
    &&& e.len() >= 2
    &&& e[0] is StartNode
    &&& !claimed(e, 0)
    &&& targets_ok(e)
    &&& exists|org: Seq<int>| org_ok(e, org)
    &&& forall|k: int| 0 <= k < e.len() ==> !(#[trigger] e[k] is Placeholder)
    &&& forall|j: int| 0 < j < e.len() ==> #[trigger] sink_depth(e, j) >= 1
    &&& sink_depth(e, e.len() as int) == 0
}

/// Following forward parents keeps to one chain: the end of a path has the
/// same first node as its start.
pub proof fn lemma_reaches_org(e: Seq<Event>, org: Seq<int>, u: int, p: int)
    requires
        targets_ok(e),
        org_ok(e, org),
        is_marker(e, u),
        reaches(e, u, p),
    ensures
        is_marker(e, p),
        org[p] == org[u],
    decreases e.len() - u,
{
    if u != p {
        let t = target_of(e, u).unwrap();
        assert(target_of(e, u) is Some);
        lemma_reaches_org(e, org, t, p);
    }
}

/// A path of forward parents extends by one more forward parent.
pub proof fn lemma_reaches_extend(e: Seq<Event>, u: int, c: int, p: int)
    requires
        targets_ok(e),
        reaches(e, u, c),
        target_of(e, c) == Some(p),
    ensures
        reaches(e, u, p),
    decreases e.len() - u,
{
    assert(target_of(e, c) is Some);
    if u == c {
        assert(reaches(e, p, p));
    } else {
        let t = target_of(e, u).unwrap();
        assert(target_of(e, u) is Some);
        lemma_reaches_extend(e, t, c, p);
    }
}

/// Every node is reached from the first node of its chain.
pub proof fn lemma_org_reaches(e: Seq<Event>, org: Seq<int>, p: int)
    requires
        targets_ok(e),
        org_ok(e, org),
        is_marker(e, p),
    ensures
        reaches(e, org[p], p),
    decreases p,
{
    if claimed(e, p) {
        let c = choose|c: int| #[trigger] target_of(e, c) == Some(p);
        assert(target_of(e, c) is Some);
        assert(is_marker(e, c));
        lemma_org_reaches(e, org, c);
        lemma_reaches_extend(e, org[c], c, p);
    } else {
        assert(reaches(e, p, p));
    }
}

/// A node reached from another node along a chain of more than one node
/// comes from a start node.
pub proof fn lemma_reaches_start(e: Seq<Event>, u: int, p: int)
    requires
        reaches(e, u, p),
        u != p,
    ensures
        is_start(e, u),
{
}

/// The number of open markers before `j` is the same for two origin maps
/// that agree on the open markers.
pub proof fn lemma_count_open_agree(org1: Seq<int>, org2: Seq<int>, open: Seq<int>, j: int)
    requires
        forall|i: int| 0 <= i < open.len() ==> 0 <= #[trigger] open[i] < org1.len() && open[i]
            < org2.len() && org1[open[i]] == org2[open[i]],
    ensures
        count_open_before(org1, open, j) == count_open_before(org2, open, j),
    decreases open.len(),
{
    if open.len() > 0 {
        let d = open.drop_last();
        assert forall|i: int| 0 <= i < d.len() implies 0 <= #[trigger] d[i] < org1.len() && d[i]
            < org2.len() && org1[d[i]] == org2[d[i]] by {
            assert(d[i] == open[i]);
        }
        lemma_count_open_agree(org1, org2, d, j);
    }
}

/// The root marker, first among the open markers and first of its own
/// chain, counts for every index after it.
pub proof fn lemma_count_open_root(org: Seq<int>, open: Seq<int>, j: int)
    requires
        open.len() >= 1,
        open[0] == 0,
        org.len() > 0,
        org[0] == 0,
        0 < j,
    ensures
        count_open_before(org, open, j) >= 1,
    decreases open.len(),
{
    if open.len() > 1 {
        lemma_count_open_root(org, open.drop_last(), j);
    }
}

/// Depths are determined by the effects of the events before.
pub proof fn lemma_sink_depth_same(e1: Seq<Event>, e2: Seq<Event>, j: int)
    requires
        forall|k: int| 0 <= k < j ==> effect(e1, k) == effect(e2, k),
    ensures
        sink_depth(e1, j) == sink_depth(e2, j),
    decreases j,
{
    if j > 0 {
        lemma_sink_depth_same(e1, e2, j - 1);
    }
}

/// Depths after an event that opens one more node at index `o`.
pub proof fn lemma_sink_depth_bump(e1: Seq<Event>, e2: Seq<Event>, o: int, j: int)
    requires
        forall|k: int| 0 <= k < j ==> effect(e2, k) == effect(e1, k) + (if k == o {
            1int
        } else {
            0
        }),
    ensures
        sink_depth(e2, j) == sink_depth(e1, j) + (if o < j && 0 <= o {
            1int
        } else {
            0
        }),
    decreases j,
{
    if j > 0 {
        lemma_sink_depth_bump(e1, e2, o, j - 1);
    }
}

/// Chain lengths do not change when events that start no node are added at
/// the end.
pub proof fn lemma_chain_len_extend(e: Seq<Event>, e2: Seq<Event>, k: int)
    requires
        targets_ok(e),
        e.len() <= e2.len(),
        forall|i: int| 0 <= i < e.len() ==> e2[i] == e[i],
        0 <= k < e.len(),
    ensures
        chain_len(e2, k) == chain_len(e, k),
    decreases e.len() - k,
{
    if is_start(e, k) {
        assert(target_of(e2, k) == target_of(e, k));
        match target_of(e, k) {
            Some(t) => {
                assert(target_of(e, k) is Some);
                lemma_chain_len_extend(e, e2, t);
            },
            None => {},
        }
    }
}

/// Adding an event with no forward parent at the end changes nothing about
/// the events before it.
pub proof fn lemma_push_plain(e: Seq<Event>, ev: Event)
    requires
        targets_ok(e),
        !(ev is StartNode),
    ensures
        forall|p: int| #[trigger] target_of(e.push(ev), p) == target_of(e, p),
        forall|t: int| #[trigger] claimed(e.push(ev), t) == claimed(e, t),
        forall|k: int| 0 <= k < e.len() ==> #[trigger] chain_len(e.push(ev), k) == chain_len(e, k),
        forall|k: int| 0 <= k < e.len() ==> #[trigger] effect(e.push(ev), k) == effect(e, k),
        forall|k: int| 0 <= k < e.len() ==> #[trigger] is_marker(e.push(ev), k) == is_marker(e, k),
        targets_ok(e.push(ev)),
{
    let e2 = e.push(ev);
    assert forall|p: int| #[trigger] target_of(e2, p) == target_of(e, p) by {
        if 0 <= p < e.len() {
            assert(e2[p] == e[p]);
        }
    }
    assert forall|t: int| #[trigger] claimed(e2, t) == claimed(e, t) by {
        if claimed(e2, t) {
            let p = choose|p: int| #[trigger] target_of(e2, p) == Some(t);
            assert(target_of(e, p) == Some(t));
        }
        if claimed(e, t) {
            let p = choose|p: int| #[trigger] target_of(e, p) == Some(t);
            assert(target_of(e2, p) == Some(t));
        }
    }
    assert forall|k: int| 0 <= k < e.len() implies #[trigger] chain_len(e2, k) == chain_len(e, k) by {
        lemma_chain_len_extend(e, e2, k);
    }
    assert forall|k: int| 0 <= k < e.len() implies #[trigger] effect(e2, k) == effect(e, k) by {
        assert(e2[k] == e[k]);
    }
    assert forall|k: int| 0 <= k < e.len() implies #[trigger] is_marker(e2, k) == is_marker(e, k) by {
        assert(e2[k] == e[k]);
    }
    assert forall|p: int| #[trigger] target_of(e2, p) is Some implies p < target_of(e2, p).unwrap()
        && is_marker(e2, target_of(e2, p).unwrap()) by {
        assert(target_of(e, p) is Some);
        let t = target_of(e, p).unwrap();
        assert(e2[t] == e[t]);
    }
    assert forall|p1: int, p2: int|
        #[trigger] target_of(e2, p1) is Some && target_of(e2, p1) == #[trigger] target_of(e2, p2)
        implies p1 == p2 by {
        assert(target_of(e, p1) is Some && target_of(e, p1) == target_of(e, p2));
    }
}

/// The root marker is the first node of its own chain.
proof fn lemma_root_org(e: Seq<Event>, open: Seq<int>, org: Seq<int>)
    requires
        events_inv(e, open, org),
    ensures
        org[0] == 0,
        is_marker(e, 0),
        !claimed(e, 0),
{
    assert(open[0] == 0);
    assert(0 <= open[0] < e.len());
    if claimed(e, 0) {
        let p = choose|p: int| #[trigger] target_of(e, p) == Some(0int);
        assert(target_of(e, p) is Some);
    }
}

/// Adding a token keeps the invariant.
pub proof fn lemma_inv_add_token(e: Seq<Event>, open: Seq<int>, org: Seq<int>)
    requires
        events_inv(e, open, org),
    ensures
        events_inv(e.push(Event::AddToken), open, org.push(0)),
{
    let e2 = e.push(Event::AddToken);
    let org2 = org.push(0);
    let n = e.len() as int;
    lemma_push_plain(e, Event::AddToken);
    lemma_root_org(e, open, org);
    assert forall|k: int| #[trigger] is_marker(e2, k) implies is_marker(e, k) by {
        if k < n {
        } else {
            assert(e2[k] == Event::AddToken);
        }
    }
    assert(org_ok(e2, org2)) by {
        assert forall|k: int| is_marker(e2, k) implies 0 <= #[trigger] org2[k] <= k by {}
        assert forall|k: int| is_marker(e2, k) && !claimed(e2, k) implies #[trigger] org2[k] == k by {}
        assert forall|k: int| #[trigger] is_marker(e2, k) implies is_marker(e2, org2[k]) && !claimed(
            e2,
            org2[k],
        ) by {
            assert(is_marker(e, org[k]));
        }
        assert forall|p: int| #[trigger] target_of(e2, p) is Some implies org2[target_of(
            e2,
            p,
        ).unwrap()] == org2[p] by {
            assert(target_of(e, p) is Some);
        }
    }
    assert(open_ok(e2, open)) by {
        assert forall|i: int| 0 <= i < open.len() implies 0 <= #[trigger] open[i] < e2.len()
            && e2[open[i]] is Placeholder by {
            assert(e2[open[i]] == e[open[i]]);
        }
        assert forall|k: int| 0 <= k < e2.len() && #[trigger] e2[k] is Placeholder implies open.contains(k) by {
            assert(e2[k] == e[k]);
        }
    }
    lemma_sink_depth_same(e, e2, n + 1);
    assert forall|j: int| 0 <= j <= n implies #[trigger] sink_depth(e2, j) == sink_depth(e, j) by {
        lemma_sink_depth_same(e, e2, j);
    }
    assert forall|j: int| 0 < j < e2.len() implies #[trigger] sink_depth(e2, j) + count_open_before(
        org2,
        open,
        j,
    ) >= 1 by {
        lemma_count_open_agree(org, org2, open, j);
        if j == n {
            lemma_count_open_root(org, open, j);
        }
    }
}

/// Starting a node (holding its place with a placeholder) keeps the
/// invariant, with the new marker open on top of the others.
pub proof fn lemma_inv_start(e: Seq<Event>, open: Seq<int>, org: Seq<int>)
    requires
        events_inv(e, open, org),
    ensures
        events_inv(e.push(Event::Placeholder), open.push(e.len() as int), org.push(e.len() as int)),
{
    let e2 = e.push(Event::Placeholder);
    let n = e.len() as int;
    let org2 = org.push(n);
    let open2 = open.push(n);
    lemma_push_plain(e, Event::Placeholder);
    lemma_root_org(e, open, org);
    assert(!claimed(e2, n)) by {
        if claimed(e2, n) {
            let p = choose|p: int| #[trigger] target_of(e2, p) == Some(n);
            assert(target_of(e, p) is Some);
        }
    }
    assert(org_ok(e2, org2)) by {
        assert forall|k: int| is_marker(e2, k) implies 0 <= #[trigger] org2[k] <= k by {
            if k < n {
                assert(is_marker(e, k));
            }
        }
        assert forall|k: int| is_marker(e2, k) && !claimed(e2, k) implies #[trigger] org2[k] == k by {
            if k < n {
                assert(is_marker(e, k));
            }
        }
        assert forall|k: int| #[trigger] is_marker(e2, k) implies is_marker(e2, org2[k]) && !claimed(
            e2,
            org2[k],
        ) by {
            if k < n {
                assert(is_marker(e, k));
                assert(is_marker(e, org[k]));
            }
        }
        assert forall|p: int| #[trigger] target_of(e2, p) is Some implies org2[target_of(
            e2,
            p,
        ).unwrap()] == org2[p] by {
            assert(target_of(e, p) is Some);
        }
    }
    assert(open_ok(e2, open2)) by {
        assert forall|i: int| 0 <= i < open2.len() implies 0 <= #[trigger] open2[i] < e2.len()
            && e2[open2[i]] is Placeholder by {
            if i < open.len() {
                assert(e2[open[i]] == e[open[i]]);
            }
        }
        assert forall|i: int, j: int| 0 <= i < j < open2.len() implies #[trigger] open2[i]
            < #[trigger] open2[j] by {
            if j == open.len() {
                assert(open[i] < n);
            }
        }
        assert forall|k: int| 0 <= k < e2.len() && #[trigger] e2[k] is Placeholder implies open2.contains(k) by {
            if k < n {
                assert(e2[k] == e[k]);
                let i = choose|i: int| 0 <= i < open.len() && open[i] == k;
                assert(open2[i] == k);
            } else {
                assert(open2[open.len() as int] == k);
            }
        }
    }
    lemma_sink_depth_same(e, e2, n + 1);
    assert forall|j: int| 0 <= j <= n implies #[trigger] sink_depth(e2, j) == sink_depth(e, j) by {
        lemma_sink_depth_same(e, e2, j);
    }
    assert forall|j: int| 0 < j < e2.len() implies #[trigger] sink_depth(e2, j) + count_open_before(
        org2,
        open2,
        j,
    ) >= 1 by {
        assert(open2.drop_last() == open);
        lemma_count_open_agree(org, org2, open, j);
        if j == n {
            lemma_count_open_root(org, open, j);
        }
    }
}

/// Making the node started at `x` (complete, with no forward parent yet) the
/// first child of a new node keeps the invariant: the new node holds its
/// place at the end, open on top of the others, and is the forward parent of
/// the node at `x`.
pub proof fn lemma_inv_precede(
    e: Seq<Event>,
    open: Seq<int>,
    org: Seq<int>,
    x: int,
    kind: SyntaxKind,
)
    requires
        events_inv(e, open, org),
        0 <= x < e.len(),
        e.len() <= usize::MAX,
        e[x] == (Event::StartNode { kind, forward_parent: None }),
    ensures
        events_inv(
            e.update(x, Event::StartNode { kind, forward_parent: Some((e.len() - x) as usize) }).push(
                Event::Placeholder,
            ),
            open.push(e.len() as int),
            org.push(org[x]),
        ),
{
    let n = e.len() as int;
    let e1 = e.update(x, Event::StartNode { kind, forward_parent: Some((n - x) as usize) });
    let e2 = e1.push(Event::Placeholder);
    let org2 = org.push(org[x]);
    let open2 = open.push(n);
    lemma_root_org(e, open, org);
    assert(is_marker(e, x));
    assert forall|p: int| p != x implies #[trigger] target_of(e2, p) == target_of(e, p) by {
        if 0 <= p < n {
            assert(e2[p] == e[p]);
        }
    }
    assert(target_of(e2, x) == Some(n));
    assert(target_of(e, x) is None);
    assert forall|t: int| t != n implies #[trigger] claimed(e2, t) == claimed(e, t) by {
        if claimed(e2, t) {
            let p = choose|p: int| #[trigger] target_of(e2, p) == Some(t);
            assert(target_of(e, p) == Some(t));
        }
        if claimed(e, t) {
            let p = choose|p: int| #[trigger] target_of(e, p) == Some(t);
            assert(p != x);
            assert(target_of(e2, p) == Some(t));
        }
    }
    assert(claimed(e2, n));
    assert forall|k: int| 0 <= k < n implies #[trigger] is_marker(e2, k) == is_marker(e, k) by {}
    assert(targets_ok(e2)) by {
        assert forall|p: int| #[trigger] target_of(e2, p) is Some implies p < target_of(
            e2,
            p,
        ).unwrap() && is_marker(e2, target_of(e2, p).unwrap()) by {
            if p != x {
                assert(target_of(e, p) is Some);
                let t = target_of(e, p).unwrap();
                if t != x {
                    assert(e2[t] == e[t]);
                }
            }
        }
        assert forall|p1: int, p2: int|
            #[trigger] target_of(e2, p1) is Some && target_of(e2, p1) == #[trigger] target_of(e2, p2)
            implies p1 == p2 by {
            if p1 != x && p2 != x {
                assert(target_of(e, p1) is Some && target_of(e, p1) == target_of(e, p2));
            } else if p1 == x && p2 != x {
                assert(target_of(e, p2) is Some);
            } else if p2 == x && p1 != x {
                assert(target_of(e, p1) is Some);
            }
        }
    }
    assert(org_ok(e2, org2)) by {
        assert forall|k: int| is_marker(e2, k) implies 0 <= #[trigger] org2[k] <= k by {
            if k < n {
                assert(is_marker(e, k));
            }
        }
        assert forall|k: int| is_marker(e2, k) && !claimed(e2, k) implies #[trigger] org2[k] == k by {
            if k < n {
                assert(is_marker(e, k));
            }
        }
        assert forall|k: int| #[trigger] is_marker(e2, k) implies is_marker(e2, org2[k]) && !claimed(
            e2,
            org2[k],
        ) by {
            let kk = if k < n { k } else { x };
            assert(is_marker(e, kk));
            assert(is_marker(e, org[kk]));
            assert(org[kk] < n);
        }
        assert forall|p: int| #[trigger] target_of(e2, p) is Some implies org2[target_of(
            e2,
            p,
        ).unwrap()] == org2[p] by {
            if p != x {
                assert(target_of(e, p) is Some);
            }
        }
    }
    assert(open_ok(e2, open2)) by {
        assert forall|i: int| 0 <= i < open2.len() implies 0 <= #[trigger] open2[i] < e2.len()
            && e2[open2[i]] is Placeholder by {
            if i < open.len() {
                assert(e2[open[i]] == e[open[i]]);
            }
        }
        assert forall|i: int, j: int| 0 <= i < j < open2.len() implies #[trigger] open2[i]
            < #[trigger] open2[j] by {
            if j == open.len() {
                assert(open[i] < n);
            }
        }
        assert forall|k: int| 0 <= k < e2.len() && #[trigger] e2[k] is Placeholder implies open2.contains(k) by {
            if k < n {
                assert(e2[k] == e[k]);
                let i = choose|i: int| 0 <= i < open.len() && open[i] == k;
                assert(open2[i] == k);
            } else {
                assert(open2[open.len() as int] == k);
            }
        }
    }
    assert forall|k: int| 0 <= k < n implies #[trigger] chain_len(e2, k) == chain_len(e, k) by {
        lemma_chain_len_precede(e, e2, x, k);
    }
    assert forall|k: int| 0 <= k < n + 1 implies #[trigger] effect(e2, k) == effect(e, k) by {
        if k < n {
            assert(k != n);
        }
    }
    lemma_sink_depth_same(e, e2, n + 1);
    assert forall|j: int| 0 <= j <= n implies #[trigger] sink_depth(e2, j) == sink_depth(e, j) by {
        lemma_sink_depth_same(e, e2, j);
    }
    assert forall|j: int| 0 < j < e2.len() implies #[trigger] sink_depth(e2, j) + count_open_before(
        org2,
        open2,
        j,
    ) >= 1 by {
        assert(open2.drop_last() == open);
        lemma_count_open_agree(org, org2, open, j);
        if j == n {
            lemma_count_open_root(org, open, j);
        }
    }
}

/// Chain lengths do not change when a node with no forward parent gets one
/// that holds a place at the end.
proof fn lemma_chain_len_precede(e: Seq<Event>, e2: Seq<Event>, x: int, k: int)
    requires
        targets_ok(e),
        e2.len() == e.len() + 1,
        0 <= x < e.len(),
        e[x] is StartNode,
        target_of(e, x) is None,
        e2[x] is StartNode,
        target_of(e2, x) == Some(e.len() as int),
        e2[e.len() as int] is Placeholder,
        forall|i: int| 0 <= i < e.len() && i != x ==> e2[i] == e[i],
        0 <= k < e.len(),
    ensures
        chain_len(e2, k) == chain_len(e, k),
    decreases e.len() - k,
{
    if k == x {
        assert(!is_start(e2, e.len() as int));
        assert(chain_len(e2, e.len() as int) == 0);
    } else if is_start(e, k) {
        assert(target_of(e2, k) == target_of(e, k));
        match target_of(e, k) {
            Some(t) => {
                assert(target_of(e, k) is Some);
                lemma_chain_len_precede(e, e2, x, t);
            },
            None => {},
        }
    }
}

/// Chain lengths after the placeholder at `p` becomes a complete node with
/// no forward parent: the chains that lead to `p` grow by one.
proof fn lemma_chain_len_complete(e: Seq<Event>, e2: Seq<Event>, p: int, k: int)
    requires
        targets_ok(e),
        e2.len() == e.len() + 1,
        0 <= p < e.len(),
        e[p] is Placeholder,
        e2[p] is StartNode,
        target_of(e2, p) is None,
        e2[e.len() as int] is FinishNode,
        forall|i: int| 0 <= i < e.len() && i != p ==> e2[i] == e[i],
        0 <= k < e.len(),
    ensures
        chain_len(e2, k) == chain_len(e, k) + (if is_start(e2, k) && reaches(e, k, p) {
            1int
        } else {
            0
        }),
    decreases e.len() - k,
{
    if k == p {
        assert(reaches(e, p, p));
    } else if is_start(e, k) {
        assert(target_of(e2, k) == target_of(e, k));
        match target_of(e, k) {
            Some(t) => {
                assert(target_of(e, k) is Some);
                lemma_chain_len_complete(e, e2, p, t);
                if reaches(e, t, p) && t != p {
                    lemma_reaches_start(e, t, p);
                }
            },
            None => {},
        }
    } else {
        assert(!is_start(e2, k));
    }
}

/// What completing the innermost open marker, at `p`, does to the events:
/// forward parents stay the same, the chain that leads to `p` opens one more
/// node, and a finish is added at the end.
proof fn lemma_complete_facts(
    e: Seq<Event>,
    open: Seq<int>,
    org: Seq<int>,
    p: int,
    kind: SyntaxKind,
)
    requires
        targets_ok(e),
        org_ok(e, org),
        open_ok(e, open),
        p == open.last(),
    ensures
        ({
            let e2 = e.update(p, Event::StartNode { kind, forward_parent: None }).push(
                Event::FinishNode,
            );
            &&& forall|q: int| #[trigger] target_of(e2, q) == target_of(e, q)
            &&& forall|t: int| #[trigger] claimed(e2, t) == claimed(e, t)
            &&& targets_ok(e2)
            &&& org_ok(e2, org.push(0))
            &&& forall|j: int| 0 <= j <= e.len() ==> #[trigger] sink_depth(e2, j) == sink_depth(e, j)
                + (if org[p] < j {
                1int
            } else {
                0
            })
            &&& sink_depth(e2, e.len() + 1int) == sink_depth(e, e.len() as int)
            &&& 0 <= org[p] <= p
        }),
{
    let n = e.len() as int;
    let e1 = e.update(p, Event::StartNode { kind, forward_parent: None });
    let e2 = e1.push(Event::FinishNode);
    let org2 = org.push(0);
    assert(0 <= open[open.len() - 1] < n);
    assert(e[p] is Placeholder);
    assert(is_marker(e, p));
    assert forall|q: int| #[trigger] target_of(e2, q) == target_of(e, q) by {
        if 0 <= q < n && q != p {
            assert(e2[q] == e[q]);
        }
    }
    assert forall|t: int| #[trigger] claimed(e2, t) == claimed(e, t) by {
        if claimed(e2, t) {
            let q = choose|q: int| #[trigger] target_of(e2, q) == Some(t);
            assert(target_of(e, q) == Some(t));
        }
        if claimed(e, t) {
            let q = choose|q: int| #[trigger] target_of(e, q) == Some(t);
            assert(target_of(e2, q) == Some(t));
        }
    }
    assert forall|k: int| 0 <= k < n implies #[trigger] is_marker(e2, k) == is_marker(e, k) by {
        if k != p {
            assert(e2[k] == e[k]);
        }
    }
    assert(!is_marker(e2, n));
    assert(targets_ok(e2)) by {
        assert forall|q: int| #[trigger] target_of(e2, q) is Some implies q < target_of(
            e2,
            q,
        ).unwrap() && is_marker(e2, target_of(e2, q).unwrap()) by {
            assert(target_of(e, q) is Some);
        }
        assert forall|q1: int, q2: int|
            #[trigger] target_of(e2, q1) is Some && target_of(e2, q1) == #[trigger] target_of(e2, q2)
            implies q1 == q2 by {
            assert(target_of(e, q1) is Some && target_of(e, q1) == target_of(e, q2));
        }
    }
    assert(org_ok(e2, org2)) by {
        assert forall|k: int| is_marker(e2, k) implies 0 <= #[trigger] org2[k] <= k by {
            assert(is_marker(e, k));
        }
        assert forall|k: int| is_marker(e2, k) && !claimed(e2, k) implies #[trigger] org2[k] == k by {
            assert(is_marker(e, k));
        }
        assert forall|k: int| #[trigger] is_marker(e2, k) implies is_marker(e2, org2[k]) && !claimed(
            e2,
            org2[k],
        ) by {
            assert(is_marker(e, k));
            assert(is_marker(e, org[k]));
        }
        assert forall|q: int| #[trigger] target_of(e2, q) is Some implies org2[target_of(
            e2,
            q,
        ).unwrap()] == org2[q] by {
            assert(target_of(e, q) is Some);
        }
    }
    let o = org[p];
    lemma_org_reaches(e, org, p);
    assert(is_marker(e, o) && !claimed(e, o));
    if o != p {
        lemma_reaches_start(e, o, p);
    }
    assert forall|k: int| 0 <= k < n implies #[trigger] effect(e2, k) == effect(e, k) + (if k == o {
        1int
    } else {
        0
    }) by {
        lemma_chain_len_complete(e, e2, p, k);
        if k != p {
            assert(e2[k] == e[k]);
        }
        if is_start(e2, k) && !claimed(e, k) {
            if reaches(e, k, p) {
                lemma_reaches_org(e, org, k, p);
            }
        }
    }
    assert(effect(e2, n) == -1);
    assert(effect(e, n) == 0);
    assert forall|j: int| 0 <= j <= n implies #[trigger] sink_depth(e2, j) == sink_depth(e, j) + (
    if o < j {
        1int
    } else {
        0
    }) by {
        lemma_sink_depth_bump(e, e2, o, j);
    }
    assert(sink_depth(e2, n + 1) == sink_depth(e2, n) + effect(e2, n));
}

/// Completing the innermost open marker, other than the root, keeps the
/// invariant.
pub proof fn lemma_inv_complete(e: Seq<Event>, open: Seq<int>, org: Seq<int>, kind: SyntaxKind)
    requires
        events_inv(e, open, org),
        open.len() >= 2,
    ensures
        events_inv(
            e.update(open.last(), Event::StartNode { kind, forward_parent: None }).push(
                Event::FinishNode,
            ),
            open.drop_last(),
            org.push(0),
        ),
{
    let n = e.len() as int;
    let p = open.last();
    let e2 = e.update(p, Event::StartNode { kind, forward_parent: None }).push(Event::FinishNode);
    let org2 = org.push(0);
    let open2 = open.drop_last();
    lemma_complete_facts(e, open, org, p, kind);
    lemma_root_org(e, open, org);
    assert(open_ok(e2, open2)) by {
        assert forall|i: int| 0 <= i < open2.len() implies 0 <= #[trigger] open2[i] < e2.len()
            && e2[open2[i]] is Placeholder by {
            assert(open[i] < open[open.len() - 1]);
            assert(e2[open[i]] == e[open[i]]);
        }
        assert forall|i: int, j: int| 0 <= i < j < open2.len() implies #[trigger] open2[i]
            < #[trigger] open2[j] by {
            assert(open[i] < open[j]);
        }
        assert forall|k: int| 0 <= k < e2.len() && #[trigger] e2[k] is Placeholder implies open2.contains(k) by {
            assert(k != p);
            assert(k < n);
            assert(e2[k] == e[k]);
            let i = choose|i: int| 0 <= i < open.len() && open[i] == k;
            assert(i != open.len() - 1);
            assert(open2[i] == k);
        }
    }
    assert(open2.len() >= 1 && open2[0] == 0);
    assert forall|j: int| 0 < j < e2.len() implies #[trigger] sink_depth(e2, j) + count_open_before(
        org2,
        open2,
        j,
    ) >= 1 by {
        assert forall|i: int| 0 <= i < open2.len() implies 0 <= #[trigger] open2[i] < org.len()
            && open2[i] < org2.len() && org[open2[i]] == org2[open2[i]] by {
            assert(open2[i] == open[i]);
        }
        lemma_count_open_agree(org, org2, open2, j);
        assert(count_open_before(org, open, j) == count_open_before(org, open2, j) + (if org[p] < j {
            1nat
        } else {
            0
        }));
        if j == n {
            lemma_count_open_root(org2, open2, j);
        }
    }
    assert forall|j: int| 0 <= j <= e2.len() implies #[trigger] sink_depth(e2, j) >= 0 by {}
}

/// Completing the root marker, the last one open, gives events that the sink
/// can build a tree from.
pub proof fn lemma_ok_complete_root(e: Seq<Event>, open: Seq<int>, org: Seq<int>, kind: SyntaxKind)
    requires
        events_inv(e, open, org),
        open.len() == 1,
    ensures
        events_ok(
            e.update(open.last(), Event::StartNode { kind, forward_parent: None }).push(
                Event::FinishNode,
            ),
        ),
{
    let n = e.len() as int;
    let p = open.last();
    let e2 = e.update(p, Event::StartNode { kind, forward_parent: None }).push(Event::FinishNode);
    let org2 = org.push(0);
    lemma_complete_facts(e, open, org, p, kind);
    lemma_root_org(e, open, org);
    assert(p == 0);
    assert(org_ok(e2, org2));
    assert forall|k: int| 0 <= k < e2.len() implies !(#[trigger] e2[k] is Placeholder) by {
        if k < n && k != 0 {
            assert(e2[k] == e[k]);
            if e[k] is Placeholder {
                assert(open.contains(k));
            }
        }
    }
    assert forall|j: int| 0 < j < e2.len() implies #[trigger] sink_depth(e2, j) >= 1 by {}
}

/// The events of a parser that has just started the root node keep the
/// invariant.
pub proof fn lemma_inv_initial()
    ensures
        events_inv(seq![Event::Placeholder], seq![0int], seq![0int]),
{
    let e = seq![Event::Placeholder];
    let open = seq![0int];
    let org = seq![0int];
    assert forall|p: int| #[trigger] target_of(e, p) is None by {}
    assert forall|t: int| !#[trigger] claimed(e, t) by {
        if claimed(e, t) {
            let p = choose|p: int| #[trigger] target_of(e, p) == Some(t);
        }
    }
    assert(org_ok(e, org));
    assert forall|k: int| 0 <= k < e.len() && #[trigger] e[k] is Placeholder implies open.contains(k) by {
        assert(open[0] == k);
    }
    assert(open_ok(e, open));
    assert(!is_start(e, 0) && !is_finish(e, 0));
    assert(effect(e, 0) == 0);
    assert(sink_depth(e, 0) == 0);
    assert(sink_depth(e, 1) == sink_depth(e, 0) + effect(e, 0));
}

/// Forward parents only lead further on.
pub proof fn lemma_reaches_le(e: Seq<Event>, u: int, k: int)
    requires
        reaches(e, u, k),
    ensures
        u <= k,
    decreases e.len() - u,
{
    if u != k {
        let t = target_of(e, u).unwrap();
        lemma_reaches_le(e, t, k);
    }
}

/// A node reached from another node is a forward parent.
pub proof fn lemma_reaches_claimed(e: Seq<Event>, u: int, k: int)
    requires
        reaches(e, u, k),
        u != k,
    ensures
        claimed(e, k),
    decreases e.len() - u,
{
    let t = target_of(e, u).unwrap();
    if t == k {
        assert(target_of(e, u) == Some(k));
    } else {
        lemma_reaches_claimed(e, t, k);
    }
}

/// The nodes reached from `u` all come at or before the end of its chain,
/// the node reached from `u` that has no forward parent.
pub proof fn lemma_reaches_before_end(e: Seq<Event>, u: int, k: int, last: int)
    requires
        reaches(e, u, k),
        reaches(e, u, last),
        target_of(e, last) is None,
    ensures
        k <= last,
    decreases e.len() - u,
{
    if u == k {
        lemma_reaches_le(e, k, last);
    } else {
        let t = target_of(e, u).unwrap();
        lemma_reaches_before_end(e, t, k, last);
    }
}

/// The node before a forward parent on a path that leads to it is the one
/// node whose forward parent it is.
pub proof fn lemma_reaches_pred(e: Seq<Event>, k: int, t: int, p: int)
    requires
        targets_ok(e),
        reaches(e, k, t),
        k != t,
        target_of(e, p) == Some(t),
    ensures
        reaches(e, k, p),
    decreases e.len() - k,
{
    let u = target_of(e, k).unwrap();
    if u == t {
        assert(target_of(e, k) is Some);
        assert(k == p);
    } else {
        lemma_reaches_pred(e, u, t, p);
        if k != p {
            assert(reaches(e, k, p) == reaches(e, u, p));
        }
    }
}

/// Every node on a chain leads to the end of the chain.
pub proof fn lemma_reaches_to_end(e: Seq<Event>, u: int, k: int, last: int)
    requires
        reaches(e, u, k),
        reaches(e, u, last),
        target_of(e, last) is None,
    ensures
        reaches(e, k, last),
    decreases e.len() - u,
{
    if u != k {
        let w = target_of(e, u).unwrap();
        lemma_reaches_to_end(e, w, k, last);
    }
}

} // verus!
