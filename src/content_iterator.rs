use std::sync::Arc;
use vstd::prelude::*;

use crate::node::{Node, contents_of, forest_contents, forest_height, lemma_forest_walk_projection};
use crate::node_iterator::NodeIterator;

verus! {

/// A pull-based depth-first pre-order walk that yields the contents of the nodes.
///
/// It runs the node walk and hands out each node's contents.
pub struct ContentIterator<T: Copy> {
    nodes: NodeIterator<T>,
}

impl<T: Copy> ContentIterator<T> {
    /// The underlying node walk is well formed.
    pub closed spec fn wf(self) -> bool {
        self.nodes.wf()
    }

    /// The contents that the walk has still to yield, in order.
    pub closed spec fn remaining(self) -> Seq<T> {
        contents_of(self.nodes.remaining())
    }

    /// The number of enclosing frames that the walk holds.
    pub closed spec fn depth(self) -> nat {
        self.nodes.depth()
    }

    /// The height of the list that the walk began with.
    pub closed spec fn base_height(self) -> nat {
        self.nodes.base_height()
    }

    /// A walk never holds more enclosing frames than the height of the list it began
    /// with, whatever the number of nodes.
    pub proof fn lemma_depth_within_height(self)
        requires
            self.wf(),
        ensures
            self.depth() <= self.base_height(),
    {
        self.nodes.lemma_depth_within_height();
    }

    /// A walk over the subtrees of `children`, one after another.
    pub fn new(children: Arc<Vec<Arc<Node<T>>>>) -> (r: Self)
        ensures
            r.wf(),
            r.remaining() == forest_contents(children@),
            r.depth() == 0,
            r.base_height() == forest_height(children@),
    {
        let r = ContentIterator { nodes: NodeIterator::new(children) };
        proof {
            lemma_forest_walk_projection(children@);
        }
        r
    }

    /// Yields the next contents in pre-order, or `None` once the walk is over, and on
    /// every later call too.
    pub fn next(&mut self) -> (r: Option<T>)
        requires
            old(self).wf(),
        ensures
            final(self).wf(),
            final(self).base_height() == old(self).base_height(),
            final(self).depth() <= old(self).depth() + 1,
            old(self).remaining().len() == 0 ==> r is None && final(self).remaining().len() == 0,
            old(self).remaining().len() > 0 ==> {
                &&& r == Some(old(self).remaining()[0])
                &&& final(self).remaining() == old(self).remaining().drop_first()
            },
    {
        let ghost before = self.nodes.remaining();
        let r = match self.nodes.next() {
            Some(node) => Some(node.contents),
            None => None,
        };
        assert(contents_of(before).len() == before.len());
        proof {
            if before.len() > 0 {
                assert(contents_of(before.drop_first()) =~= contents_of(before).drop_first());
            }
        }
        r
    }
}

impl<T: Copy> Default for ContentIterator<T> {
    /// A walk that has nothing to yield.
    fn default() -> (r: Self)
        ensures
            r.wf(),
            r.remaining() == Seq::<T>::empty(),
            r.depth() == 0,
            r.base_height() == 0,
    {
        let r = ContentIterator::new(Arc::new(Vec::new()));
        assert(forest_contents(Seq::<Arc<Node<T>>>::empty()) == Seq::<T>::empty());
        r
    }
}

} // verus!
