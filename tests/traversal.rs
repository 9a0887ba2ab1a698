use std::sync::Arc;

use scenegraph::{ContentIterator, Node, NodeIterator};

fn sample_tree() -> Arc<Node<i32>> {
    Arc::new(Node::new(0, vec![
        Arc::new(Node::new(1, vec![])),
        Arc::new(Node::new(2, vec![])),
        Arc::new(Node::new(3, vec![])),
        Arc::new(Node::new(4, vec![
            Arc::new(Node::new(40, vec![])),
            Arc::new(Node::new(41, vec![])),
            Arc::new(Node::new(42, vec![
                Arc::new(Node::new(420, vec![])),
                Arc::new(Node::new(421, vec![])),
            ])),
        ])),
        Arc::new(Node::new(5, vec![])),
        Arc::new(Node::new(6, vec![
            Arc::new(Node::new(60, vec![])),
            Arc::new(Node::new(61, vec![])),
            Arc::new(Node::new(62, vec![
                Arc::new(Node::new(620, vec![])),
                Arc::new(Node::new(621, vec![])),
            ])),
        ])),
        Arc::new(Node::new(7, vec![])),
    ]))
}

fn drain_contents(mut it: ContentIterator<i32>) -> Vec<i32> {
    let mut out = Vec::new();
    while let Some(x) = it.next() {
        out.push(x);
    }
    out
}

fn drain_nodes(mut it: NodeIterator<i32>) -> Vec<Arc<Node<i32>>> {
    let mut out = Vec::new();
    while let Some(n) = it.next() {
        out.push(n);
    }
    out
}

const PREORDER: [i32; 18] = [0, 1, 2, 3, 4, 40, 41, 42, 420, 421, 5, 6, 60, 61, 62, 620, 621, 7];

#[test]
fn iteration() {
    let tree = sample_tree();
    let nums: Vec<i32> = drain_contents(tree.iter_contents());
    assert_eq!(nums, vec![0, 1, 2, 3, 4, 40, 41, 42, 420, 421, 5, 6, 60, 61, 62, 620, 621, 7]);
}

#[test]
fn it_works() {
    assert_eq!(2 + 2, 4);
}

#[test]
fn many_engines_interleaved_yield_the_same_sequence() {
    let tree = sample_tree();
    let mut engines: Vec<ContentIterator<i32>> = (0..10).map(|_| Arc::clone(&tree).iter_contents()).collect();
    let mut outs: Vec<Vec<i32>> = vec![Vec::new(); 10];
    loop {
        let mut any = false;
        for (e, out) in engines.iter_mut().zip(outs.iter_mut()) {
            if let Some(x) = e.next() {
                out.push(x);
                any = true;
            }
        }
        if !any {
            break;
        }
    }
    for out in outs {
        assert_eq!(out, PREORDER.to_vec());
    }
}

#[test]
fn node_walk_matches_content_walk() {
    let tree = sample_tree();
    let nodes = drain_nodes(Arc::clone(&tree).iter_nodes());
    let contents: Vec<i32> = nodes.iter().map(|n| n.contents).collect();
    assert_eq!(contents, drain_contents(tree.iter_contents()));
    assert_eq!(contents, PREORDER.to_vec());
}

#[test]
fn node_walk_yields_the_root_handle_first() {
    let tree = sample_tree();
    let nodes = drain_nodes(Arc::clone(&tree).iter_nodes());
    assert_eq!(nodes.len(), 18);
    assert!(Arc::ptr_eq(&nodes[0], &tree));
    assert!(Arc::ptr_eq(&nodes[1], &tree.children[0]));
}

#[test]
fn finished_walk_stays_finished() {
    let mut it = Arc::new(Node::new(9, vec![Arc::new(Node::new(10, vec![]))])).iter_contents();
    assert_eq!(it.next(), Some(9));
    assert_eq!(it.next(), Some(10));
    for _ in 0..5 {
        assert_eq!(it.next(), None);
    }
    let mut nodes = Arc::new(Node::new(1u8, vec![])).iter_nodes();
    assert!(nodes.next().is_some());
    assert!(nodes.next().is_none());
    assert!(nodes.next().is_none());
}

#[test]
fn each_node_visited_once() {
    let shared = Arc::new(Node::new(5, vec![Arc::new(Node::new(6, vec![]))]));
    let tree = Arc::new(Node::new(1, vec![Arc::clone(&shared), Arc::new(Node::new(2, vec![])), shared]));
    assert_eq!(drain_contents(tree.iter_contents()), vec![1, 5, 6, 2, 5, 6]);
}

#[test]
fn empty_tree_yields_its_root() {
    let tree = Arc::new(Node::new(42, vec![]));
    assert_eq!(drain_contents(tree.iter_contents()), vec![42]);
}

#[test]
fn add_child_appends_at_the_end() {
    let mut n = Node::new(1, vec![Arc::new(Node::new(2, vec![]))]);
    n.add_child(Arc::new(Node::new(3, vec![Arc::new(Node::new(30, vec![]))])));
    assert_eq!(n.contents, 1);
    assert_eq!(n.children.len(), 2);
    assert_eq!(drain_contents(Arc::new(n).iter_contents()), vec![1, 2, 3, 30]);
}

#[test]
fn add_child_leaves_an_in_flight_walk_untouched() {
    let mut inner = Arc::new(Node::new(4, vec![
        Arc::new(Node::new(40, vec![])),
        Arc::new(Node::new(41, vec![])),
    ]));
    let root = Arc::new(Node::new(0, vec![Arc::clone(&inner)]));
    let mut walk = Arc::clone(&root).iter_contents();
    assert_eq!(walk.next(), Some(0));
    assert_eq!(walk.next(), Some(4));
    // the walk now holds the children list of `inner`
    let before = Arc::clone(&inner.children);
    Arc::make_mut(&mut inner).add_child(Arc::new(Node::new(42, vec![])));
    assert_eq!(before.len(), 2);
    assert_eq!(inner.children.len(), 3);
    assert_eq!(drain_contents(walk), vec![40, 41]);
    assert_eq!(drain_contents(Arc::clone(&inner).iter_contents()), vec![4, 40, 41, 42]);
    assert_eq!(drain_contents(root.iter_contents()), vec![0, 4, 40, 41]);
}

#[test]
fn add_child_in_place_when_unshared() {
    let mut n = Node::new(7, vec![]);
    n.add_child(Arc::new(Node::new(8, vec![])));
    n.add_child(Arc::new(Node::new(9, vec![])));
    let walk = Arc::new(n).iter_contents();
    assert_eq!(drain_contents(walk), vec![7, 8, 9]);
}

#[test]
fn content_iterator_over_a_list() {
    let list = Arc::new(vec![
        Arc::new(Node::new(1, vec![Arc::new(Node::new(11, vec![]))])),
        Arc::new(Node::new(2, vec![])),
    ]);
    assert_eq!(drain_contents(ContentIterator::new(Arc::clone(&list))), vec![1, 11, 2]);
    let nodes = drain_nodes(NodeIterator::new(list));
    assert_eq!(nodes.iter().map(|n| n.contents).collect::<Vec<i32>>(), vec![1, 11, 2]);
    assert_eq!(drain_contents(ContentIterator::default()), Vec::<i32>::new());
    assert!(drain_nodes(NodeIterator::default()).is_empty());
}

#[test]
fn deep_chain_walks_in_order() {
    let mut node = Arc::new(Node::new(1999, vec![]));
    for v in (0..1999).rev() {
        node = Arc::new(Node::new(v, vec![node]));
    }
    let got = drain_contents(node.iter_contents());
    assert_eq!(got, (0..2000).collect::<Vec<i32>>());
}
