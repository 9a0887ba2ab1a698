//! A shared tree whose nodes hold copyable contents and reference-counted child
//! lists, with a non-recursive, resumable pre-order traversal engine, and a variant
//! that keeps its nodes in a slot map and names children by key (`arena`).
pub mod arena;
pub mod content_iterator;
pub mod node;
pub mod node_iterator;

pub use content_iterator::ContentIterator;
pub use node::Node;
pub use node_iterator::NodeIterator;
