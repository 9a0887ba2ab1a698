use slotmap::{DefaultKey, SlotMap};
use vstd::prelude::*;

verus! {

#[verifier::external_type_specification]
#[verifier::external_body]
pub struct ExDefaultKey(DefaultKey);

/// The key under which a scene graph stores a node.
pub type NodeKey = DefaultKey;

/// A node of a scene graph: the keys of its children, in order.
pub struct Node {
    child_keys: Vec<NodeKey>,
}

impl View for Node {
    type V = Seq<NodeKey>;

    closed spec fn view(&self) -> Seq<NodeKey> {
        self.child_keys@
    }
}

impl Node {
    /// A node with no children.
    pub fn new() -> (r: Self)
        ensures
            r@ == Seq::<NodeKey>::empty(),
    {
        Node { child_keys: Vec::new() }
    }

    /// Appends `key` to the keys of the children.
    pub fn add_child(&mut self, key: NodeKey)
        ensures
            final(self)@ == old(self)@.push(key),
    {
        self.child_keys.push(key);
    }
}

/// The table that holds the nodes of a scene graph: a `SlotMap`, which Verus sees only
/// through `slot_contents`.
#[verifier::external_body]
pub struct NodeSlots {
    map: SlotMap<NodeKey, Node>,
}

/// The nodes that a slot map holds, by key.
pub uninterp spec fn slot_contents(m: NodeSlots) -> Map<NodeKey, Node>;

/// Relies on `SlotMap::with_capacity_and_key`: an empty map with room for `capacity`
/// nodes. It allocates `capacity + 1` slots, so the bound keeps that sum and the
/// allocation's size in range.
#[verifier::external_body]
fn slot_map_with_capacity(capacity: usize) -> (r: NodeSlots)
    requires
        capacity < u32::MAX,
    ensures
        slot_contents(r).dom() == Set::<NodeKey>::empty(),
{
    NodeSlots { map: SlotMap::with_capacity_and_key(capacity) }
}

/// Relies on `SlotMap::insert`: stores `value` under a key that no stored value had,
/// and panics only when the map already holds `u32::MAX - 1` values.
#[verifier::external_body]
fn slot_map_insert(m: &mut NodeSlots, value: Node) -> (r: NodeKey)
    requires
        slot_contents(*old(m)).dom().finite(),
        slot_contents(*old(m)).len() + 1 < u32::MAX,
    ensures
        !slot_contents(*old(m)).contains_key(r),
        slot_contents(*final(m)) == slot_contents(*old(m)).insert(r, value),
{
    m.map.insert(value)
}

/// Relies on `SlotMap::get`: the value stored under `key`, if any.
#[verifier::external_body]
fn slot_map_get(m: &NodeSlots, key: NodeKey) -> (r: Option<&Node>)
    ensures
        r is Some <==> slot_contents(*m).contains_key(key),
        r is Some ==> *r->Some_0 == slot_contents(*m)[key],
{
    m.map.get(key)
}

/// Relies on `SlotMap::get_mut`: the value stored under `key`, for writing, if any.
#[verifier::external_body]
fn slot_map_get_mut(m: &mut NodeSlots, key: NodeKey) -> (r: Option<&mut Node>)
    ensures
        r is Some <==> slot_contents(*old(m)).contains_key(key),
        r is Some ==> *r->Some_0 == slot_contents(*old(m))[key],
        r is Some ==> slot_contents(*final(m)) == slot_contents(*old(m)).insert(key, *final(r->Some_0)),
        r is None ==> slot_contents(*final(m)) == slot_contents(*old(m)),
{
    m.map.get_mut(key)
}

/// A tree kept in a slot map: nodes name their children by key, and one node is the root.
pub struct Scenegraph {
    root_key: NodeKey,
    slot_map: NodeSlots,
}

impl Scenegraph {
    /// The stored nodes, by key.
    pub closed spec fn nodes(self) -> Map<NodeKey, Node> {
        slot_contents(self.slot_map)
    }

    /// The key of the root node.
    pub closed spec fn root(self) -> NodeKey {
        self.root_key
    }

    /// The root is stored, and finitely many nodes are.
    pub open spec fn wf(self) -> bool {
        &&& self.nodes().contains_key(self.root())
        &&& self.nodes().dom().finite()
    }

    /// A graph that holds just an empty root node.
    pub fn new() -> (r: Self)
        ensures
            r.wf(),
            r.nodes().dom() == set![r.root()],
            r.nodes()[r.root()]@ == Seq::<NodeKey>::empty(),
    {
        Self::with_capacity(0)
    }

    /// A graph that holds just an empty root node, with room for `capacity` nodes.
    pub fn with_capacity(capacity: usize) -> (r: Self)
        requires
            capacity < u32::MAX,
        ensures
            r.wf(),
            r.nodes().dom() == set![r.root()],
            r.nodes()[r.root()]@ == Seq::<NodeKey>::empty(),
    {
        let mut sm = slot_map_with_capacity(capacity);
        let root_key = slot_map_insert(&mut sm, Node::new());
        let r = Scenegraph { root_key, slot_map: sm };
        assert(r.nodes().dom() =~= set![r.root()]);
        r
    }

    /// The key of the root node.
    pub fn root_key(&self) -> (r: NodeKey)
        ensures
            r == self.root(),
    {
        self.root_key
    }

    /// Stores `node` under a fresh key and returns that key.
    pub fn insert_node(&mut self, node: Node) -> (r: NodeKey)
        requires
            old(self).wf(),
            old(self).nodes().len() + 1 < u32::MAX,
        ensures
            final(self).wf(),
            final(self).root() == old(self).root(),
            !old(self).nodes().contains_key(r),
            final(self).nodes() == old(self).nodes().insert(r, node),
    {
        slot_map_insert(&mut self.slot_map, node)
    }

    /// The node stored under `key`, or `None` where no node is.
    pub fn get_node(&self, key: NodeKey) -> (r: Option<&Node>)
        ensures
            r is Some <==> self.nodes().contains_key(key),
            r is Some ==> *r->Some_0 == self.nodes()[key],
    {
        slot_map_get(&self.slot_map, key)
    }

    /// The node stored under `key`, for writing, or `None` where no node is.
    pub fn get_node_mut(&mut self, key: NodeKey) -> (r: Option<&mut Node>)
        requires
            old(self).wf(),
        ensures
            final(self).wf(),
            final(self).root() == old(self).root(),
            r is Some <==> old(self).nodes().contains_key(key),
            r is Some ==> {
                &&& *r->Some_0 == old(self).nodes()[key]
                &&& final(self).nodes() == old(self).nodes().insert(key, *final(r->Some_0))
            },
            r is None ==> final(self).nodes() == old(self).nodes(),
    {
        slot_map_get_mut(&mut self.slot_map, key)
    }

    /// A walk over the descendants of the node stored under `from`, or `None` where no
    /// node is.
    pub fn iter_from_node(&self, from: NodeKey) -> (r: Option<NodeIterator<'_>>)
        ensures
            r is Some <==> self.nodes().contains_key(from),
            r is Some ==> {
                &&& r->Some_0.wf()
                &&& r->Some_0.graph() == *self
                &&& r->Some_0.pending() == seq![self.nodes()[from]@]
            },
    {
        match self.get_node(from) {
            Some(from_node) => {
                let r = NodeIterator {
                    child_keys: from_node.child_keys.as_slice(),
                    index: 0,
                    parent: None,
                    scene_graph: self,
                };
                assert(from_node.child_keys@.subrange(0, from_node.child_keys@.len() as int)
                    =~= from_node@);
                assert(r.pending() =~= seq![self.nodes()[from]@]);
                Some(r)
            },
            None => None,
        }
    }

    /// A walk over the descendants of the root.
    pub fn iter(&self) -> (r: NodeIterator<'_>)
        requires
            self.wf(),
        ensures
            r.wf(),
            r.graph() == *self,
            r.pending() == seq![self.nodes()[self.root()]@],
    {
        match self.iter_from_node(self.root_key) {
            Some(r) => r,
            None => NodeIterator { child_keys: &[], index: 0, parent: None, scene_graph: self },
        }
    }
}

/// What is left of a walk whose frames hold the key lists `stack`, top first, once the
/// finished lists and the keys that name no stored node have been dropped from its front.
pub open spec fn settle(nodes: Map<NodeKey, Node>, stack: Seq<Seq<NodeKey>>) -> Seq<Seq<NodeKey>>
    decreases stack.len(), if stack.len() > 0 { stack[0].len() } else { 0 },
{
    if stack.len() == 0 {
        stack
    } else if stack[0].len() == 0 {
        settle(nodes, stack.drop_first())
    } else if !nodes.contains_key(stack[0][0]) {
        settle(nodes, stack.update(0, stack[0].drop_first()))
    } else {
        stack
    }
}

/// A pull-based depth-first pre-order walk over the descendants of a node of a scene
/// graph, which yields the nodes themselves. A child key that names no stored node is
/// passed over.
pub struct NodeIterator<'a> {
    child_keys: &'a [NodeKey],
    index: usize,
    parent: Option<Box<NodeIterator<'a>>>,
    scene_graph: &'a Scenegraph,
}

impl<'a> NodeIterator<'a> {
    /// The graph that the walk reads.
    pub closed spec fn graph(self) -> Scenegraph {
        *self.scene_graph
    }

    /// Every frame's cursor lies within its list, and all frames read one graph.
    pub closed spec fn wf(self) -> bool
        decreases self,
    {
        &&& self.index <= self.child_keys@.len()
        &&& match self.parent {
            Some(p) => p.wf() && p.graph() == self.graph(),
            None => true,
        }
    }

    /// The keys that each frame has still to visit, innermost frame first.
    pub closed spec fn pending(self) -> Seq<Seq<NodeKey>>
        decreases self,
    {
        seq![self.child_keys@.subrange(self.index as int, self.child_keys@.len() as int)]
            + match self.parent {
            Some(p) => p.pending(),
            None => Seq::empty(),
        }
    }

    /// The number of enclosing frames.
    pub closed spec fn depth(self) -> nat
        decreases self,
    {
        match self.parent {
            Some(p) => 1 + p.depth(),
            None => 0,
        }
    }

    /// Yields the next node in pre-order, or `None` once the walk is over, and on every
    /// later call too.
    pub fn next(&mut self) -> (r: Option<&'a Node>)
        requires
            old(self).wf(),
        ensures
            final(self).wf(),
            final(self).graph() == old(self).graph(),
            ({
                let nodes = old(self).graph().nodes();
                let s = settle(nodes, old(self).pending());
                &&& s.len() == 0 ==> r is None && settle(nodes, final(self).pending()).len() == 0
                &&& s.len() > 0 ==> {
                    &&& r is Some
                    &&& *r->Some_0 == nodes[s[0][0]]
                    &&& final(self).pending() == seq![nodes[s[0][0]]@] + s.update(0, s[0].drop_first())
                }
            }),
    {
        let ghost start = *self;
        let ghost nodes = start.graph().nodes();
        let graph: &'a Scenegraph = self.scene_graph;
        let mut found: Option<&'a Node> = None;
        loop
            invariant_except_break
                found is None,
            invariant
                start == *old(self),
                nodes == start.graph().nodes(),
                self.wf(),
                self.graph() == start.graph(),
                *graph == start.graph(),
                settle(nodes, self.pending()) == settle(nodes, start.pending()),
            ensures
                self.wf(),
                self.graph() == start.graph(),
                settle(nodes, self.pending()) == settle(nodes, start.pending()),
                self.index < self.child_keys@.len() <= usize::MAX,
                found is Some,
                nodes.contains_key(self.child_keys@[self.index as int]),
                *found->Some_0 == nodes[self.child_keys@[self.index as int]],
            decreases self.depth(), self.child_keys@.len() - self.index,
        {
            if self.index < self.child_keys.len() {
                let key = self.child_keys[self.index];
                found = graph.get_node(key);
                if found.is_some() {
                    break;
                }
                proof {
                    let p = self.pending();
                    assert(p[0].drop_first() =~= self.child_keys@.subrange(
                        self.index + 1,
                        self.child_keys@.len() as int,
                    ));
                }
                let ghost before = self.pending();
                self.index = self.index + 1;
                assert(self.pending() =~= before.update(0, before[0].drop_first()));
            } else {
                let ghost before = self.pending();
                assert(before[0] =~= Seq::<NodeKey>::empty());
                match self.parent.take() {
                    Some(p) => {
                        *self = *p;
                        assert(self.pending() =~= before.drop_first());
                    },
                    None => {
                        assert(before.drop_first() =~= Seq::<Seq<NodeKey>>::empty());
                        assert(settle(nodes, before) == settle(nodes, before.drop_first()));
                        assert(self.pending() == before);
                        assert(settle(nodes, Seq::<Seq<NodeKey>>::empty()).len() == 0);
                        assert(settle(nodes, before).len() == 0);
                        return None;
                    },
                }
            }
        }
        let ghost before = *self;
        let node: &'a Node = found.unwrap();
        self.index = self.index + 1;
        let mut frame = NodeIterator {
            child_keys: node.child_keys.as_slice(),
            index: 0,
            parent: None,
            scene_graph: graph,
        };
        core::mem::swap(self, &mut frame);
        self.parent = Some(Box::new(frame));
        proof {
            let bp = before.pending();
            assert(bp[0].drop_first() =~= before.child_keys@.subrange(
                before.index + 1,
                before.child_keys@.len() as int,
            ));
            assert(node.child_keys@.subrange(0, node.child_keys@.len() as int) =~= node@);
            assert(frame.pending() =~= bp.update(0, bp[0].drop_first()));
            assert(frame.wf());
            assert(self.pending() =~= seq![node@] + bp.update(0, bp[0].drop_first()));
        }
        Some(node)
    }
}

} // verus!
