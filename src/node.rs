use std::sync::Arc;
use vstd::multiset::Multiset;
use vstd::prelude::*;

use crate::content_iterator::ContentIterator;
use crate::node_iterator::NodeIterator;

verus! {

/// A tree vertex: contents fixed at construction and a shared, ordered list of children.
#[derive(Clone, Debug)]
pub struct Node<T: Copy> {
    pub contents: T,
    pub children: Arc<Vec<Arc<Node<T>>>>,
}

/// The contents of the subtree rooted at `n`, in depth-first pre-order.
pub open spec fn subtree_contents<T: Copy>(n: Node<T>) -> Seq<T>
    decreases n,
{
    seq![n.contents] + forest_contents(n.children@)
}

/// The contents of the subtrees rooted at `s`, one after another, each in pre-order.
pub open spec fn forest_contents<T: Copy>(s: Seq<Arc<Node<T>>>) -> Seq<T>
    decreases s,
{
    if s.len() == 0 {
        seq![]
    } else {
        subtree_contents(*s[0]) + forest_contents(s.drop_first())
    }
}

/// The nodes of the subtree rooted at `n`, in depth-first pre-order.
pub open spec fn subtree_nodes<T: Copy>(n: Node<T>) -> Seq<Node<T>>
    decreases n,
{
    seq![n] + forest_nodes(n.children@)
}

/// The nodes of the subtrees rooted at `s`, one after another, each in pre-order.
pub open spec fn forest_nodes<T: Copy>(s: Seq<Arc<Node<T>>>) -> Seq<Node<T>>
    decreases s,
{
    if s.len() == 0 {
        seq![]
    } else {
        subtree_nodes(*s[0]) + forest_nodes(s.drop_first())
    }
}

/// The number of nodes on the longest downward path from `n`, `n` included.
pub open spec fn height<T: Copy>(n: Node<T>) -> nat
    decreases n,
{
    1 + forest_height(n.children@)
}

/// The greatest height among the subtrees rooted at `s`, or 0 when `s` is empty.
pub open spec fn forest_height<T: Copy>(s: Seq<Arc<Node<T>>>) -> nat
    decreases s,
{
    if s.len() == 0 {
        0
    } else {
        let a = height(*s[0]);
        let b = forest_height(s.drop_first());
        if a >= b {
            a
        } else {
            b
        }
    }
}

/// No subtree of a list is higher than the list.
pub proof fn lemma_forest_height_bounds<T: Copy>(s: Seq<Arc<Node<T>>>, i: int)
    requires
        0 <= i < s.len(),
    ensures
        height(*s[i]) <= forest_height(s),
    decreases s.len(),
{
    if i > 0 {
        assert(s.drop_first()[i - 1] == s[i]);
        lemma_forest_height_bounds(s.drop_first(), i - 1);
    }
}

/// The contents of a sequence of nodes, in the same order.
pub open spec fn contents_of<T: Copy>(s: Seq<Node<T>>) -> Seq<T> {
    s.map_values(|n: Node<T>| n.contents)
}

impl<T: Copy> Node<T> {
    /// A node with `contents` that owns a fresh list made of `children`.
    pub fn new(contents: T, children: Vec<Arc<Node<T>>>) -> (r: Self)
        ensures
            r.contents == contents,
            r.children@ == children@,
    {
        Node { contents, children: Arc::new(children) }
    }

    /// Appends `child` to the children. When the current list is shared (a traversal
    /// holds it), the list is copied first, so every earlier holder keeps its view.
    pub fn add_child(&mut self, child: Arc<Node<T>>)
        ensures
            final(self).contents == old(self).contents,
            final(self).children@ == old(self).children@.push(child),
            subtree_contents(*final(self)) == subtree_contents(*old(self)) + subtree_contents(*child),
    {
        let children = make_mut_list(&mut self.children);
        children.push(child);
        proof {
            lemma_forest_push(old(self).children@, child);
        }
    }
}

impl<T: Copy> Node<T> {
    /// A walk over `self` and its descendants that yields node handles in pre-order.
    pub fn iter_nodes(self: Arc<Node<T>>) -> (r: NodeIterator<T>)
        ensures
            r.wf(),
            r.remaining() == subtree_nodes(*self),
            r.depth() == 0,
            r.base_height() == height(*self),
    {
        let top: Arc<Vec<Arc<Node<T>>>> = Arc::new(vec![self.clone()]);
        let r = NodeIterator::new(top);
        proof {
            assert(top@.drop_first() =~= Seq::<Arc<Node<T>>>::empty());
            assert(forest_nodes(top@.drop_first()) == Seq::<Node<T>>::empty());
            assert(forest_nodes(top@) =~= subtree_nodes(*self));
            assert(forest_height(top@.drop_first()) == 0);
        }
        r
    }

    /// A walk over `self` and its descendants that yields their contents in pre-order.
    pub fn iter_contents(self: Arc<Node<T>>) -> (r: ContentIterator<T>)
        ensures
            r.wf(),
            r.remaining() == subtree_contents(*self),
            r.depth() == 0,
            r.base_height() == height(*self),
    {
        let top: Arc<Vec<Arc<Node<T>>>> = Arc::new(vec![self.clone()]);
        let r = ContentIterator::new(top);
        proof {
            assert(top@.drop_first() =~= Seq::<Arc<Node<T>>>::empty());
            assert(forest_contents(top@.drop_first()) == Seq::<T>::empty());
            assert(forest_contents(top@) =~= subtree_contents(*self));
            assert(forest_height(top@.drop_first()) == 0);
        }
        r
    }
}

/// Walking a tree by nodes and keeping each node's contents gives exactly the walk
/// by contents, element for element.
pub proof fn lemma_node_walk_projects_to_content_walk<T: Copy>(n: Node<T>)
    ensures
        contents_of(subtree_nodes(n)) == subtree_contents(n),
    decreases n,
{
    lemma_forest_walk_projection(n.children@);
    assert(contents_of(subtree_nodes(n)) =~= seq![n.contents] + contents_of(forest_nodes(n.children@)));
}

/// The walk over a list of subtrees by nodes, projected to contents, is the walk by contents.
pub proof fn lemma_forest_walk_projection<T: Copy>(s: Seq<Arc<Node<T>>>)
    ensures
        contents_of(forest_nodes(s)) == forest_contents(s),
    decreases s,
{
    if s.len() == 0 {
        assert(contents_of(forest_nodes(s)) =~= Seq::<T>::empty());
    } else {
        let ghost first: Node<T> = *s[0];
        lemma_node_walk_projects_to_content_walk(first);
        lemma_forest_walk_projection(s.drop_first());
        assert(contents_of(forest_nodes(s)) =~= contents_of(subtree_nodes(*s[0])) + contents_of(
            forest_nodes(s.drop_first()),
        ));
    }
}

/// A node without children walks to its own contents alone.
pub proof fn lemma_leaf_walk<T: Copy>(n: Node<T>)
    requires
        n.children@.len() == 0,
    ensures
        subtree_contents(n) == seq![n.contents],
        subtree_nodes(n) == seq![n],
{
    assert(subtree_contents(n) =~= seq![n.contents]);
    assert(subtree_nodes(n) =~= seq![n]);
}

/// Every place in the subtree rooted at `n`, `n` included, by the node that stands there:
/// a node hung under two parents counts twice.
pub open spec fn subtree_occurrences<T: Copy>(n: Node<T>) -> Multiset<Node<T>>
    decreases n,
{
    Multiset::singleton(n).add(forest_occurrences(n.children@))
}

/// Every place in the subtrees rooted at `s`, by the node that stands there.
pub open spec fn forest_occurrences<T: Copy>(s: Seq<Arc<Node<T>>>) -> Multiset<Node<T>>
    decreases s,
{
    if s.len() == 0 {
        Multiset::empty()
    } else {
        subtree_occurrences(*s[0]).add(forest_occurrences(s.drop_first()))
    }
}

/// A full walk by nodes visits each place of the tree exactly once: every node is
/// yielded as many times as it stands in the tree, and nothing else is yielded.
pub proof fn lemma_walk_visits_each_place_once<T: Copy>(n: Node<T>)
    ensures
        subtree_nodes(n).to_multiset() == subtree_occurrences(n),
    decreases n,
{
    broadcast use vstd::seq_lib::lemma_multiset_commutative;

    lemma_forest_walk_visits_each_place_once(n.children@);
    assert(seq![n].to_multiset() =~= Multiset::singleton(n)) by {
        broadcast use vstd::seq_lib::group_to_multiset_ensures;

        assert(seq![n] =~= Seq::<Node<T>>::empty().push(n));
    }
}

/// A walk over a list of subtrees visits each of their places exactly once.
pub proof fn lemma_forest_walk_visits_each_place_once<T: Copy>(s: Seq<Arc<Node<T>>>)
    ensures
        forest_nodes(s).to_multiset() == forest_occurrences(s),
    decreases s,
{
    broadcast use vstd::seq_lib::lemma_multiset_commutative;

    if s.len() == 0 {
        assert(forest_nodes(s).to_multiset() =~= Multiset::empty()) by {
            broadcast use vstd::seq_lib::group_to_multiset_ensures;

        }
    } else {
        let ghost first: Node<T> = *s[0];
        lemma_walk_visits_each_place_once(first);
        lemma_forest_walk_visits_each_place_once(s.drop_first());
    }
}

/// The contents of every place in the subtree rooted at `n`, `n` included.
pub open spec fn subtree_content_occurrences<T: Copy>(n: Node<T>) -> Multiset<T>
    decreases n,
{
    Multiset::singleton(n.contents).add(forest_content_occurrences(n.children@))
}

/// The contents of every place in the subtrees rooted at `s`.
pub open spec fn forest_content_occurrences<T: Copy>(s: Seq<Arc<Node<T>>>) -> Multiset<T>
    decreases s,
{
    if s.len() == 0 {
        Multiset::empty()
    } else {
        subtree_content_occurrences(*s[0]).add(forest_content_occurrences(s.drop_first()))
    }
}

/// A full walk by contents yields one value for each place of the tree, and yields
/// the contents of each place exactly once.
pub proof fn lemma_content_walk_visits_each_place_once<T: Copy>(n: Node<T>)
    ensures
        subtree_contents(n).len() == subtree_occurrences(n).len(),
        subtree_contents(n).to_multiset() == subtree_content_occurrences(n),
{
    broadcast use vstd::seq_lib::group_to_multiset_ensures;

    lemma_walk_visits_each_place_once(n);
    lemma_node_walk_projects_to_content_walk(n);
    assert(subtree_nodes(n).to_multiset().len() == subtree_nodes(n).len());
    lemma_content_walk_multiset(n);
}

proof fn lemma_content_walk_multiset<T: Copy>(n: Node<T>)
    ensures
        subtree_contents(n).to_multiset() == subtree_content_occurrences(n),
    decreases n,
{
    broadcast use vstd::seq_lib::lemma_multiset_commutative;

    lemma_forest_content_walk_multiset(n.children@);
    assert(seq![n.contents].to_multiset() =~= Multiset::singleton(n.contents)) by {
        broadcast use vstd::seq_lib::group_to_multiset_ensures;

        assert(seq![n.contents] =~= Seq::<T>::empty().push(n.contents));
    }
}

proof fn lemma_forest_content_walk_multiset<T: Copy>(s: Seq<Arc<Node<T>>>)
    ensures
        forest_contents(s).to_multiset() == forest_content_occurrences(s),
    decreases s,
{
    broadcast use vstd::seq_lib::lemma_multiset_commutative;

    if s.len() == 0 {
        assert(forest_contents(s).to_multiset() =~= Multiset::empty()) by {
            broadcast use vstd::seq_lib::group_to_multiset_ensures;

        }
    } else {
        let ghost first: Node<T> = *s[0];
        lemma_content_walk_multiset(first);
        lemma_forest_content_walk_multiset(s.drop_first());
    }
}

/// Relies on `Arc::make_mut`: it hands out the list behind `list` for writing,
/// first replacing `list` by a fresh copy when another handle shares it.
#[verifier::external_body]
fn make_mut_list<T: Copy>(list: &mut Arc<Vec<Arc<Node<T>>>>) -> (r: &mut Vec<Arc<Node<T>>>)
    ensures
        (*r)@ == (**old(list))@,
        (**final(list))@ == (*final(r))@,
{
    Arc::make_mut(list)
}

/// Appending a subtree to a list of subtrees appends its pre-order contents.
pub proof fn lemma_forest_push<T: Copy>(s: Seq<Arc<Node<T>>>, c: Arc<Node<T>>)
    ensures
        forest_contents(s.push(c)) == forest_contents(s) + subtree_contents(*c),
    decreases s.len(),
{
    if s.len() == 0 {
        assert(s.push(c).drop_first() =~= Seq::<Arc<Node<T>>>::empty());
        assert(forest_contents(s.push(c).drop_first()) =~= Seq::<T>::empty());
        assert(forest_contents(s.push(c)) =~= subtree_contents(*c));
    } else {
        assert(s.push(c).drop_first() =~= s.drop_first().push(c));
        lemma_forest_push(s.drop_first(), c);
        assert(forest_contents(s.push(c)) =~= forest_contents(s) + subtree_contents(*c));
    }
}

} // verus!
