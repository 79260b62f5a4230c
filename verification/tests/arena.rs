use helios::arena::{Arena, Node, NodeId};

#[test]
fn test_syntax_arena_internal() {
    //     1
    //    / \
    //   2   3
    //       |
    //       4
    let arena = &mut Arena::new();

    let str_one = arena.insert("1");
    let str_two = arena.insert("2");
    let str_three = arena.insert("3");
    let str_four = arena.insert("4");

    str_one.add_child(arena, str_two).add_child(arena, str_three);

    str_three.add_child(arena, str_four);

    assert_eq!(
        arena.nodes(),
        vec![
            Node::with(NodeId(0), "1", None, vec![NodeId(1), NodeId(2)]),
            Node::with(NodeId(1), "2", Some(NodeId(0)), vec![]),
            Node::with(NodeId(2), "3", Some(NodeId(0)), vec![NodeId(3)]),
            Node::with(NodeId(3), "4", Some(NodeId(2)), vec![]),
        ]
    );
    assert_eq!(arena.root(), Some(NodeId(0)));
}

#[test]
fn test_syntax_arena() {
    //     1
    //    / \
    //   2   3
    //       |
    //       4
    let arena = &mut Arena::new();

    let str_1 = arena.insert("1");
    let str_2 = arena.insert("2");
    let str_3 = arena.insert("3");
    let str_4 = arena.insert("4");

    str_1.add_child(arena, str_2).add_child(arena, str_3);

    str_3.add_child(arena, str_4);

    assert_eq!(str_1.parent(arena), None);
    assert_eq!(str_2.parent(arena), Some(str_1));
    assert_eq!(str_3.parent(arena), Some(str_1));
    assert_eq!(str_4.parent(arena), Some(str_3));

    assert_eq!(str_1.children(arena), &vec![str_2, str_3]);
    assert_eq!(str_2.children(arena), &vec![]);
    assert_eq!(str_3.children(arena), &vec![str_4]);
    assert_eq!(str_4.children(arena), &vec![]);
}

#[test]
fn test_arena_set_parent_only_one_side() {
    let arena = &mut Arena::new();
    let root_node = arena.insert("1");
    let second_node = arena.insert("2");

    second_node.set_parent(arena, Some(root_node));
    assert_eq!(second_node.parent(arena), Some(NodeId::from(0)));
    assert_eq!(root_node.children(arena), &vec![]);

    root_node.add_child(arena, second_node);
    assert_eq!(root_node.children(arena), &vec![NodeId::from(1)]);
}

#[test]
fn test_arena_node_at_and_root() {
    let mut arena = Arena::new();
    assert_eq!(arena.root(), None);
    assert_eq!(arena.len(), 0);
    let a = arena.insert(10u32);
    let b = arena.insert(20u32);
    assert_eq!(arena.len(), 2);
    assert_eq!(arena.root(), Some(a));
    assert_eq!(arena.node_at(b).map(|n| *n.data()), Some(20));
    assert_eq!(arena.node_at(b).map(|n| n.id()), Some(b));
    assert!(arena.node_at(NodeId(5)).is_none());
    arena.set_root(Some(b));
    assert_eq!(arena.root(), Some(b));
    assert_eq!(b.index(), 1);
}

#[test]
fn test_node_mutation() {
    let mut node = Node::new(NodeId(2), 'x');
    assert_eq!(node.parent(), None);
    node.set_parent(Some(NodeId(0)));
    node.add_child(NodeId(5));
    assert_eq!(node.parent(), Some(NodeId(0)));
    assert_eq!(node.children(), &vec![NodeId(5)]);
    assert_eq!(*node.data(), 'x');
    assert_eq!(node.id(), NodeId(2));
}
