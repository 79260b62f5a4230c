//! An arena of nodes that refer to each other by index.
//!
//! Each node of an [`Arena`] is known by its [`NodeId`], its position in the
//! arena; a node records the identifiers of its parent and of its children.

use vstd::prelude::*;

verus! {

/// The identifier of a node: its position in the arena that holds it.
#[derive(Clone, Copy, Debug, PartialEq, Eq, Structural)]
pub struct NodeId(pub usize);

impl From<usize> for NodeId {
    fn from(id: usize) -> (r: Self)
        ensures
            r == NodeId(id),
    {
        NodeId(id)
    }
}

impl vstd::std_specs::convert::FromSpecImpl<usize> for NodeId {
    open spec fn obeys_from_spec() -> bool {
        true
    }

    open spec fn from_spec(id: usize) -> NodeId {
        NodeId(id)
    }
}

/// A node of an arena: its identifier, its data, its parent and its
/// children.
#[derive(Debug, PartialEq, Eq)]
pub struct Node<T> {
    id: NodeId,
    data: T,
    parent: Option<NodeId>,
    children: Vec<NodeId>,
}

impl<T: Clone> Clone for Node<T> {
    fn clone(&self) -> (n: Self)
        ensures
            self.is_cloned_as(&n),
    {
        Node {
            id: self.id,
            data: self.data.clone(),
            parent: self.parent,
            children: self.children.clone(),
        }
    }
}

impl<T> Node<T> {
    pub closed spec fn id_spec(&self) -> NodeId {
        self.id
    }

    pub closed spec fn data_spec(&self) -> T {
        self.data
    }

    pub closed spec fn parent_spec(&self) -> Option<NodeId> {
        self.parent
    }

    pub closed spec fn children_spec(&self) -> Seq<NodeId> {
        self.children@
    }

    /// Whether `other` is a clone of this node: the same identifier, parent
    /// and children, and data that `T::clone` gives for this node's data.
    pub closed spec fn is_cloned_as(&self, other: &Self) -> bool where T: Clone {
        &&& other.id == self.id
        &&& other.parent == self.parent
        &&& other.children@ == self.children@
        &&& cloned(self.data, other.data)
    }

    /// Constructs a node with the given identifier and data, and no parent
    /// or children.
    pub fn new(id: NodeId, data: T) -> (n: Self)
        ensures
            n.id_spec() == id,
            n.data_spec() == data,
            n.parent_spec() == None::<NodeId>,
            n.children_spec() == Seq::<NodeId>::empty(),
    {
        Self::with(id, data, None, Vec::new())
    }

    /// Constructs a node with the given identifier, data, parent and
    /// children.
    pub fn with(id: NodeId, data: T, parent: Option<NodeId>, children: Vec<NodeId>) -> (n: Self)
        ensures
            n.id_spec() == id,
            n.data_spec() == data,
            n.parent_spec() == parent,
            n.children_spec() == children@,
    {
        Node { id, data, parent, children }
    }

    /// Returns the identifier of the node, its position in its arena.
    pub fn id(&self) -> (r: NodeId)
        ensures
            r == self.id_spec(),
    {
        self.id
    }

    /// Returns the data of the node.
    pub fn data(&self) -> (r: &T)
        ensures
            *r == self.data_spec(),
    {
        &self.data
    }

    /// Returns the identifier of the node's parent, if it has one.
    pub fn parent(&self) -> (r: Option<NodeId>)
        ensures
            r == self.parent_spec(),
    {
        self.parent
    }

    /// Sets the parent of the node.
    pub fn set_parent(&mut self, new_parent: Option<NodeId>)
        ensures
            final(self).parent_spec() == new_parent,
            final(self).id_spec() == old(self).id_spec(),
            final(self).data_spec() == old(self).data_spec(),
            final(self).children_spec() == old(self).children_spec(),
    {
        self.parent = new_parent;
    }

    /// Returns the identifiers of the node's children, in the order they
    /// were added.
    pub fn children(&self) -> (r: &Vec<NodeId>)
        ensures
            r@ == self.children_spec(),
    {
        &self.children
    }

    /// Adds a child to the end of the node's children.
    pub fn add_child(&mut self, child: NodeId)
        ensures
            final(self).children_spec() == old(self).children_spec().push(child),
            final(self).id_spec() == old(self).id_spec(),
            final(self).data_spec() == old(self).data_spec(),
            final(self).parent_spec() == old(self).parent_spec(),
    {
        self.children.push(child);
    }
}

/// An arena of nodes, with an optional root node.
#[derive(Debug, PartialEq, Eq)]
pub struct Arena<T> {
    nodes: Vec<Node<T>>,
    root: Option<NodeId>,
}

impl<T> Default for Arena<T> {
    fn default() -> (a: Self)
        ensures
            a.wf(),
            a.nodes_spec() == Seq::<Node<T>>::empty(),
            a.root_spec() == None::<NodeId>,
    {
        Arena { nodes: Vec::new(), root: None }
    }
}

impl<T> Arena<T> {
    pub closed spec fn nodes_spec(&self) -> Seq<Node<T>> {
        self.nodes@
    }

    pub closed spec fn root_spec(&self) -> Option<NodeId> {
        self.root
    }

    /// Every node of the arena is identified by its position.
    pub closed spec fn wf(&self) -> bool {
        forall|i: int| 0 <= i < self.nodes@.len() ==> (#[trigger] self.nodes@[i]).id.0 == i
    }

    /// Creates a new empty arena.
    pub fn new() -> (a: Self)
        ensures
            a.wf(),
            a.nodes_spec() == Seq::<Node<T>>::empty(),
            a.root_spec() == None::<NodeId>,
    {
        Self::default()
    }

    /// Returns the number of nodes in the arena.
    pub fn len(&self) -> (n: usize)
        ensures
            n == self.nodes_spec().len(),
    {
        self.nodes.len()
    }

    /// Returns the identifier of the root node, if there is one.
    pub fn root(&self) -> (r: Option<NodeId>)
        ensures
            r == self.root_spec(),
    {
        self.root
    }

    /// Sets the root node of the arena.
    pub fn set_root(&mut self, root: Option<NodeId>)
        ensures
            final(self).root_spec() == root,
            final(self).nodes_spec() == old(self).nodes_spec(),
            old(self).wf() ==> final(self).wf(),
    {
        self.root = root;
    }

    /// Returns the node with the given identifier, which must be in the
    /// arena.
    fn get(&self, id: NodeId) -> (n: &Node<T>)
        requires
            id.0 < self.nodes_spec().len(),
        ensures
            *n == self.nodes_spec()[id.0 as int],
    {
        &self.nodes[id.index()]
    }

    /// Returns the node with the given identifier, if it is in the arena.
    pub fn node_at(&self, id: NodeId) -> (r: Option<&Node<T>>)
        requires
            self.wf(),
        ensures
            id.0 < self.nodes_spec().len() ==> r == Some(&self.nodes_spec()[id.0 as int]),
            id.0 >= self.nodes_spec().len() ==> r is None,
            r matches Some(n) ==> n.id_spec() == id,
    {
        if id.index() < self.nodes.len() {
            Some(&self.nodes[id.index()])
        } else {
            None
        }
    }

    /// Returns a copy of all the nodes of the arena, in order.
    pub fn nodes(&self) -> (r: Vec<Node<T>>) where T: Clone
        ensures
            r@.len() == self.nodes_spec().len(),
            forall|i: int| 0 <= i < r@.len() ==> self.nodes_spec()[i].is_cloned_as(&r@[i]),
    {
        let mut r: Vec<Node<T>> = Vec::new();
        let mut i: usize = 0;
        while i < self.nodes.len()
            invariant
                i <= self.nodes@.len(),
                r@.len() == i,
                forall|j: int| 0 <= j < i ==> self.nodes_spec()[j].is_cloned_as(&r@[j]),
            decreases self.nodes@.len() - i,
        {
            let n = self.nodes[i].clone();
            r.push(n);
            i = i + 1;
        }
        r
    }

    /// Inserts a node with the given data at the end of the arena and returns
    /// its identifier; the first node inserted becomes the root.
    pub fn insert(&mut self, data: T) -> (id: NodeId)
        requires
            old(self).wf(),
        ensures
            final(self).wf(),
            id.0 == old(self).nodes_spec().len(),
            final(self).nodes_spec().len() == old(self).nodes_spec().len() + 1,
            final(self).nodes_spec().take(id.0 as int) == old(self).nodes_spec(),
            final(self).nodes_spec()[id.0 as int].id_spec() == id,
            final(self).nodes_spec()[id.0 as int].data_spec() == data,
            final(self).nodes_spec()[id.0 as int].parent_spec() == None::<NodeId>,
            final(self).nodes_spec()[id.0 as int].children_spec() == Seq::<NodeId>::empty(),
            final(self).root_spec() == (if id.0 == 0 {
                Some(id)
            } else {
                old(self).root_spec()
            }),
    {
        let index = self.nodes.len();
        self.nodes.push(Node::new(NodeId(index), data));
        if index == 0 {
            self.root = Some(NodeId(index));
        }
        proof {
            assert(self.nodes@.take(index as int) =~= old(self).nodes@);
        }
        NodeId(index)
    }
}

impl NodeId {
    /// Returns the position of the node in its arena.
    pub fn index(&self) -> (r: usize)
        ensures
            r == self.0,
    {
        self.0
    }

    /// Returns the parent of the node with this identifier, which must be in
    /// the arena.
    pub fn parent<T: PartialEq>(&self, arena: &Arena<T>) -> (r: Option<NodeId>)
        requires
            self.0 < arena.nodes_spec().len(),
        ensures
            r == arena.nodes_spec()[self.0 as int].parent_spec(),
    {
        arena.get(*self).parent()
    }

    /// Returns the children of the node with this identifier, which must be
    /// in the arena.
    pub fn children<'a, T: PartialEq>(&self, arena: &'a Arena<T>) -> (r: &'a Vec<NodeId>)
        requires
            self.0 < arena.nodes_spec().len(),
        ensures
            r@ == arena.nodes_spec()[self.0 as int].children_spec(),
    {
        arena.get(*self).children()
    }

    /// Sets the parent of the node with this identifier, which must be in
    /// the arena, and returns this identifier.
    ///
    /// The new parent does not get the node as a child: [`NodeId::add_child`]
    /// records both sides.
    pub fn set_parent<'s, T: PartialEq>(&'s self, arena: &mut Arena<T>, new_parent: Option<NodeId>) -> (r: &'s Self)
        requires
            self.0 < old(arena).nodes_spec().len(),
        ensures
            *r == *self,
            final(arena).root_spec() == old(arena).root_spec(),
            final(arena).nodes_spec().len() == old(arena).nodes_spec().len(),
            forall|k: int|
                0 <= k < old(arena).nodes_spec().len() && k != self.0 ==> #[trigger] final(arena).nodes_spec()[k] == old(arena).nodes_spec()[k],
            final(arena).nodes_spec()[self.0 as int].parent_spec() == new_parent,
            final(arena).nodes_spec()[self.0 as int].id_spec() == old(arena).nodes_spec()[self.0 as int].id_spec(),
            final(arena).nodes_spec()[self.0 as int].data_spec() == old(arena).nodes_spec()[self.0 as int].data_spec(),
            final(arena).nodes_spec()[self.0 as int].children_spec() == old(arena).nodes_spec()[self.0 as int].children_spec(),
            old(arena).wf() ==> final(arena).wf(),
    {
        arena.nodes[self.0].set_parent(new_parent);
        self
    }

    /// Makes the node `child` a child of the node with this identifier: the
    /// child is added at the end of this node's children, and this node
    /// becomes the child's parent. Both must be in the arena. Returns this
    /// identifier.
    pub fn add_child<'s, T: PartialEq>(&'s self, arena: &mut Arena<T>, child: NodeId) -> (r: &'s Self)
        requires
            self.0 < old(arena).nodes_spec().len(),
            child.0 < old(arena).nodes_spec().len(),
        ensures
            *r == *self,
            final(arena).root_spec() == old(arena).root_spec(),
            final(arena).nodes_spec().len() == old(arena).nodes_spec().len(),
            forall|k: int|
                0 <= k < old(arena).nodes_spec().len() && k != self.0 && k != child.0
                    ==> #[trigger] final(arena).nodes_spec()[k] == old(arena).nodes_spec()[k],
            final(arena).nodes_spec()[self.0 as int].children_spec() == old(arena).nodes_spec()[self.0 as int].children_spec().push(child),
            final(arena).nodes_spec()[child.0 as int].parent_spec() == Some(*self),
            self.0 != child.0 ==> final(arena).nodes_spec()[self.0 as int].parent_spec() == old(arena).nodes_spec()[self.0 as int].parent_spec(),
            self.0 != child.0 ==> final(arena).nodes_spec()[child.0 as int].children_spec() == old(arena).nodes_spec()[child.0 as int].children_spec(),
            forall|k: int|
                0 <= k < old(arena).nodes_spec().len() ==> #[trigger] final(arena).nodes_spec()[k].id_spec()
                    == old(arena).nodes_spec()[k].id_spec() && final(arena).nodes_spec()[k].data_spec()
                    == old(arena).nodes_spec()[k].data_spec(),
            old(arena).wf() ==> final(arena).wf(),
    {
        arena.nodes[self.0].add_child(child);
        arena.nodes[child.0].set_parent(Some(*self));
        self
    }
}

} // verus!
