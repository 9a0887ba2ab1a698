use std::sync::Arc;
use vstd::prelude::*;

use crate::node::{Node, forest_height, forest_nodes, lemma_forest_height_bounds, subtree_nodes};

verus! {

/// Walking the list `s` from position `i` visits the subtree at `i`, then the rest.
pub proof fn lemma_forest_nodes_step<T: Copy>(s: Seq<Arc<Node<T>>>, i: int)
    requires
        0 <= i < s.len(),
    ensures
        forest_nodes(s.subrange(i, s.len() as int)) == seq![*s[i]] + forest_nodes((*s[i]).children@)
            + forest_nodes(s.subrange(i + 1, s.len() as int)),
{
    let t = s.subrange(i, s.len() as int);
    assert(t.drop_first() =~= s.subrange(i + 1, s.len() as int));
    assert(t[0] == s[i]);
    let n = *s[i];
    assert(subtree_nodes(n) == seq![n] + forest_nodes(n.children@));
    assert(forest_nodes(t) == subtree_nodes(n) + forest_nodes(t.drop_first()));
    assert(forest_nodes(t) =~= seq![*s[i]] + forest_nodes((*s[i]).children@) + forest_nodes(
        s.subrange(i + 1, s.len() as int),
    ));
}

/// A pull-based depth-first pre-order walk that yields node handles.
///
/// Each frame walks one shared sibling list from a cursor, and owns the frame of the
/// enclosing list, so the walk needs no native recursion.
pub struct NodeIterator<T: Copy> {
    children: Arc<Vec<Arc<Node<T>>>>,
    child_index: usize,
    parent: Option<Box<NodeIterator<T>>>,
}

impl<T: Copy> NodeIterator<T> {
    /// Every frame's cursor lies within its list, and every frame's list is lower
    /// than the list of the frame that encloses it: the frames follow one downward path.
    pub closed spec fn wf(self) -> bool
        decreases self,
    {
        &&& self.child_index <= self.children@.len()
        &&& match self.parent {
            Some(p) => p.wf() && forest_height(self.children@) < forest_height(p.children@),
            None => true,
        }
    }

    /// The height of the list that the walk began with.
    pub closed spec fn base_height(self) -> nat
        decreases self,
    {
        match self.parent {
            Some(p) => p.base_height(),
            None => forest_height(self.children@),
        }
    }

    proof fn lemma_frames_within_height(self)
        requires
            self.wf(),
        ensures
            self.depth() + forest_height(self.children@) <= self.base_height(),
        decreases self,
    {
        if let Some(p) = self.parent {
            p.lemma_frames_within_height();
        }
    }

    /// A walk never holds more enclosing frames than the height of the list it began
    /// with, whatever the number of nodes.
    pub proof fn lemma_depth_within_height(self)
        requires
            self.wf(),
        ensures
            self.depth() <= self.base_height(),
    {
        self.lemma_frames_within_height();
    }

    /// The nodes that the walk has still to yield, in order.
    pub closed spec fn remaining(self) -> Seq<Node<T>>
        decreases self,
    {
        forest_nodes(self.children@.subrange(self.child_index as int, self.children@.len() as int))
            + match self.parent {
            Some(p) => p.remaining(),
            None => Seq::empty(),
        }
    }

    /// The number of enclosing frames.
    pub closed spec fn depth(self) -> nat
        decreases self,
    {
        match self.parent {
            Some(p) => 1 + p.depth(),
            None => 0,
        }
    }

    /// A walk over the subtrees of `children`, one after another.
    pub fn new(children: Arc<Vec<Arc<Node<T>>>>) -> (r: Self)
        ensures
            r.wf(),
            r.remaining() == forest_nodes(children@),
            r.depth() == 0,
            r.base_height() == forest_height(children@),
    {
        let r = NodeIterator { children, child_index: 0, parent: None };
        assert(children@.subrange(0, children@.len() as int) =~= children@);
        assert(r.remaining() =~= forest_nodes(children@));
        r
    }

    /// Yields the next node in pre-order, or `None` once the walk is over, and on
    /// every later call too.
    pub fn next(&mut self) -> (r: Option<Arc<Node<T>>>)
        requires
            old(self).wf(),
        ensures
            final(self).wf(),
            final(self).base_height() == old(self).base_height(),
            final(self).depth() <= old(self).depth() + 1,
            old(self).remaining().len() == 0 ==> r is None && final(self).remaining().len() == 0,
            old(self).remaining().len() > 0 ==> {
                &&& r is Some
                &&& *r->Some_0 == old(self).remaining()[0]
                &&& final(self).remaining() == old(self).remaining().drop_first()
            },
    {
        loop
            invariant
                self.wf(),
                self.remaining() == old(self).remaining(),
                self.base_height() == old(self).base_height(),
                self.depth() <= old(self).depth(),
            ensures
                self.wf(),
                self.remaining() == old(self).remaining(),
                self.base_height() == old(self).base_height(),
                self.depth() <= old(self).depth(),
                self.child_index < self.children@.len(),
            decreases self.depth(),
        {
            if self.child_index < self.children.len() {
                break;
            }
            assert(self.children@.subrange(self.child_index as int, self.children@.len() as int)
                =~= Seq::<Arc<Node<T>>>::empty());
            match self.parent.take() {
                Some(p) => {
                    *self = *p;
                },
                None => {
                    assert(self.remaining() =~= Seq::<Node<T>>::empty());
                    return None;
                },
            }
        }
        let ghost before = *self;
        let len: usize = self.children.len();
        let node: Arc<Node<T>> = self.children[self.child_index].clone();
        self.child_index = self.child_index + 1;
        let mut frame = NodeIterator { children: node.children.clone(), child_index: 0, parent: None };
        core::mem::swap(self, &mut frame);
        self.parent = Some(Box::new(frame));
        proof {
            lemma_forest_nodes_step(before.children@, before.child_index as int);
            lemma_forest_height_bounds(before.children@, before.child_index as int);
            assert(node.children@.subrange(0, node.children@.len() as int) =~= node.children@);
            let rest = match before.parent {
                Some(p) => p.remaining(),
                None => Seq::empty(),
            };
            assert(before.remaining() == forest_nodes(
                before.children@.subrange(before.child_index as int, len as int),
            ) + rest);
            assert(frame.remaining() == forest_nodes(
                before.children@.subrange(before.child_index + 1, len as int),
            ) + rest);
            assert(frame.wf());
            assert(frame.base_height() == before.base_height());
            assert(frame.depth() == before.depth());
            assert(self.base_height() == frame.base_height());
            assert(self.depth() == frame.depth() + 1);
            assert(self.remaining() =~= before.remaining().drop_first());
        }
        Some(node)
    }
}

impl<T: Copy> Default for NodeIterator<T> {
    /// A walk that has nothing to yield.
    fn default() -> (r: Self)
        ensures
            r.wf(),
            r.remaining() == Seq::<Node<T>>::empty(),
            r.depth() == 0,
            r.base_height() == 0,
    {
        let r = NodeIterator::new(Arc::new(Vec::new()));
        assert(forest_nodes(Seq::<Arc<Node<T>>>::empty()) == Seq::<Node<T>>::empty());
        r
    }
}

} // verus!
