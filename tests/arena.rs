use scenegraph::arena::{Node, NodeKey, Scenegraph};
use slotmap::Key;

fn walk_keys(g: &Scenegraph, from: NodeKey, names: &[(NodeKey, &str)]) -> Vec<String> {
    let mut it = g.iter_from_node(from).expect("stored");
    let mut out = Vec::new();
    while let Some(n) = it.next() {
        let found = names
            .iter()
            .find(|(k, _)| std::ptr::eq(g.get_node(*k).unwrap(), n))
            .map(|(_, s)| s.to_string())
            .unwrap();
        out.push(found);
    }
    out
}

#[test]
fn new_graph_walks_nothing() {
    let g = Scenegraph::new();
    let mut it = g.iter();
    assert!(it.next().is_none());
    assert!(it.next().is_none());
    let g2 = Scenegraph::with_capacity(16);
    assert!(g2.iter().next().is_none());
}

#[test]
fn arena_walk_is_pre_order_over_descendants() {
    let mut g = Scenegraph::new();
    let a = g.insert_node(Node::new());
    let b = g.insert_node(Node::new());
    let a1 = g.insert_node(Node::new());
    let a2 = g.insert_node(Node::new());
    g.get_node_mut(a).unwrap().add_child(a1);
    g.get_node_mut(a).unwrap().add_child(a2);
    let root = g.root_key();
    g.get_node_mut(root).unwrap().add_child(a);
    g.get_node_mut(root).unwrap().add_child(b);
    let names = [(a, "a"), (b, "b"), (a1, "a1"), (a2, "a2")];
    assert_eq!(walk_keys(&g, root, &names), vec!["a", "a1", "a2", "b"]);
    assert_eq!(walk_keys(&g, a, &names), vec!["a1", "a2"]);
    assert_eq!(walk_keys(&g, b, &names), Vec::<String>::new());
    let mut it = g.iter();
    let mut count = 0;
    while it.next().is_some() {
        count += 1;
    }
    assert_eq!(count, 4);
}

#[test]
fn arena_walk_from_root_and_stale_child() {
    let mut g = Scenegraph::new();
    let x = g.insert_node(Node::new());
    let y = g.insert_node(Node::new());
    let z = g.insert_node(Node::new());
    g.get_node_mut(x).unwrap().add_child(NodeKey::null());
    g.get_node_mut(x).unwrap().add_child(y);
    g.get_node_mut(y).unwrap().add_child(z);
    g.get_node_mut(x).unwrap().add_child(z);
    let names = [(x, "x"), (y, "y"), (z, "z")];
    assert_eq!(walk_keys(&g, x, &names), vec!["y", "z", "z"]);
    let mut it = g.iter_from_node(x).unwrap();
    for _ in 0..3 {
        assert!(it.next().is_some());
    }
    assert!(it.next().is_none());
    assert!(it.next().is_none());
}

#[test]
fn arena_lookup_of_unknown_key_is_absent() {
    let mut g = Scenegraph::new();
    assert!(g.get_node(NodeKey::null()).is_none());
    assert!(g.get_node_mut(NodeKey::null()).is_none());
    assert!(g.iter_from_node(NodeKey::null()).is_none());
    let k = g.insert_node(Node::new());
    assert!(g.get_node(k).is_some());
    assert!(g.iter_from_node(k).is_some());
}
