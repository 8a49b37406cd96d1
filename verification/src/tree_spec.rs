//! The tree spec: an immutable, arena-allocated node graph describing the
//! expected document shape and per-node projection options.
//!
//! Node 0 is a sentinel whose root child points at node 1, the user root.
//! Parent back-edges are arena indices, so the walker can climb back on
//! container exit without self-referential pointers.

use vstd::prelude::*;

use crate::value::bytes_eq;

verus! {

/// The JSON type of an incoming value, as the walker sees it.
#[derive(Debug, Clone, Copy, PartialEq, Eq, Structural)]
pub enum ValueType {
    Object,
    Array,
    String,
    Number,
    Boolean,
    Null,
}

/// An index into the spec arena.
#[derive(Debug, Clone, Copy, PartialEq, Eq, Structural)]
pub struct NodeId(pub usize);

/// What shapes a node accepts and how its children are found.
#[derive(Debug, Clone, PartialEq, Eq)]
pub enum NodeVariant {
    /// The arena's node 0: matches nothing, its root child is node 1.
    Sentinel,
    /// Matches any value; has no children.
    Any,
    /// Matches an array; every element goes to `child`.
    Array { child: NodeId },
    /// Matches a map; every value goes to `child`, whatever its key.
    MapValues { child: NodeId },
    /// Matches a map; values go to the child registered under their key.
    MapKeys { children: Vec<(Vec<u8>, NodeId)> },
}

/// Per-node projection options.
#[derive(Debug, Clone, PartialEq, Eq)]
pub struct NodeOptions {
    /// Emit this subtree's completions as yields instead of collecting.
    pub stream: bool,
    /// Some ancestor (or this node) has `stream` set.
    pub stream_collect: bool,
    /// On map exit, set the `__struct__` key to this atom.
    pub struct_atom: Option<Vec<u8>>,
    /// For map keys: replace the binary key by the mapped atom.
    pub atom_mappings: Option<Vec<(Vec<u8>, Vec<u8>)>>,
    /// Recognized by the spec grammar; no code path consults it.
    pub ignore_not_mapped: bool,
}

impl Default for NodeOptions {
    /// All options off.
    fn default() -> (r: NodeOptions)
        ensures
            r.stream == false,
            r.stream_collect == false,
            r.struct_atom is None,
            r.atom_mappings is None,
            r.ignore_not_mapped == false,
    {
        NodeOptions {
            stream: false,
            stream_collect: false,
            struct_atom: None,
            atom_mappings: None,
            ignore_not_mapped: false,
        }
    }
}

/// One spec node.
#[derive(Debug, Clone, PartialEq, Eq)]
pub struct Node {
    pub variant: NodeVariant,
    pub options: NodeOptions,
    pub parent: Option<NodeId>,
}

/// The first value in an association list under a byte-string key.
pub open spec fn assoc_lookup<T>(pairs: Seq<(Vec<u8>, T)>, key: Seq<u8>) -> Option<T>
    decreases pairs.len(),
{
    if pairs.len() == 0 {
        None
    } else if pairs[0].0@ == key {
        Some(pairs[0].1)
    } else {
        assoc_lookup(pairs.drop_first(), key)
    }
}

/// Whether a node variant accepts an incoming value of the given type.
pub open spec fn matches_spec(v: NodeVariant, value: ValueType) -> bool {
    match v {
        NodeVariant::Sentinel => false,
        NodeVariant::Any => true,
        NodeVariant::MapValues { .. } => value == ValueType::Object,
        NodeVariant::MapKeys { .. } => value == ValueType::Object,
        NodeVariant::Array { .. } => value == ValueType::Array,
    }
}

/// The child a variant offers for the document root.
pub open spec fn child_root_spec(v: NodeVariant) -> Option<NodeId> {
    match v {
        NodeVariant::Sentinel => Some(NodeId(1)),
        _ => None,
    }
}

/// The child a variant offers under a map key.
pub open spec fn child_key_spec(v: NodeVariant, key: Seq<u8>) -> Option<NodeId> {
    match v {
        NodeVariant::MapValues { child } => Some(child),
        NodeVariant::MapKeys { children } => assoc_lookup(children@, key),
        _ => None,
    }
}

/// The child a variant offers at an array index.
pub open spec fn child_index_spec(v: NodeVariant) -> Option<NodeId> {
    match v {
        NodeVariant::Array { child } => Some(child),
        _ => None,
    }
}

impl NodeVariant {
    /// Whether this node accepts an incoming value of the given type.
    pub fn matches(&self, value: ValueType) -> (r: bool)
        ensures
            r == matches_spec(*self, value),
    {
        match self {
            NodeVariant::Sentinel => false,
            NodeVariant::Any => true,
            NodeVariant::MapValues { .. } => matches!(value, ValueType::Object),
            NodeVariant::MapKeys { .. } => matches!(value, ValueType::Object),
            NodeVariant::Array { .. } => matches!(value, ValueType::Array),
        }
    }

    /// The child for the document root: only the sentinel has one, the
    /// user root at node 1.
    pub fn child_root(&self) -> (r: Option<NodeId>)
        ensures
            r == child_root_spec(*self),
    {
        match self {
            NodeVariant::Sentinel => Some(NodeId(1)),
            _ => None,
        }
    }

    /// The child under a map key, if this node offers one for it.
    pub fn child_key(&self, key: &Vec<u8>) -> (r: Option<NodeId>)
        ensures
            r == child_key_spec(*self, key@),
    {
        match self {
            NodeVariant::MapValues { child } => Some(*child),
            NodeVariant::MapKeys { children } => {
                let n = children.len();
                proof {
                    assert(child_key_spec(*self, key@) == assoc_lookup(children@, key@));
                    assert(children@.skip(0) =~= children@);
                }
                let mut i: usize = 0;
                while i < n
                    invariant
                        n == children@.len(),
                        0 <= i <= n,
                        child_key_spec(*self, key@) == assoc_lookup(children@, key@),
                        assoc_lookup(children@, key@) == assoc_lookup(
                            children@.skip(i as int),
                            key@,
                        ),
                    decreases n - i,
                {
                    proof {
                        assert(children@.skip(i as int)[0] == children@[i as int]);
                        assert(children@.skip(i as int).drop_first() =~= children@.skip(
                            i as int + 1,
                        ));
                    }
                    if bytes_eq(&children[i].0, key) {
                        proof {
                            assert(children@.skip(i as int)[0].0@ == key@);
                            assert(assoc_lookup(children@.skip(i as int), key@) == Some(
                                children@[i as int].1,
                            ));
                        }
                        return Some(children[i].1);
                    }
                    i += 1;
                }
                proof {
                    assert(children@.skip(n as int) =~= Seq::<(Vec<u8>, NodeId)>::empty());
                }
                None
            },
            _ => None,
        }
    }

    /// The child at an array index, if this node offers one.
    pub fn child_index(&self, _index: usize) -> (r: Option<NodeId>)
        ensures
            r == child_index_spec(*self),
    {
        match self {
            NodeVariant::Array { child } => Some(*child),
            _ => None,
        }
    }
}

/// The distance from a node to the arena root along parent edges.
pub open spec fn node_depth(nodes: Seq<Node>, id: int) -> nat
    decreases id,
{
    if id <= 0 || id >= nodes.len() {
        0
    } else {
        match nodes[id].parent {
            Some(p) => if p.0 < id {
                (1 + node_depth(nodes, p.0 as int)) as nat
            } else {
                0
            },
            None => 0,
        }
    }
}

/// A spec node's children point into the arena, below their parent's
/// index, and carry the correct back-edge.
pub open spec fn node_children_wf(nodes: Seq<Node>, i: int) -> bool {
    match nodes[i].variant {
        NodeVariant::Sentinel => i == 0,
        NodeVariant::Any => true,
        NodeVariant::Array { child } => i < child.0 < nodes.len() && nodes[child.0 as int].parent
            == Some(NodeId(i as usize)),
        NodeVariant::MapValues { child } => i < child.0 < nodes.len() && nodes[
            child.0 as int
        ].parent == Some(NodeId(i as usize)),
        NodeVariant::MapKeys { children } => forall|j: int|
            0 <= j < children@.len() ==> i < (#[trigger] children@[j]).1.0 < nodes.len()
                && nodes[children@[j].1.0 as int].parent == Some(NodeId(i as usize)),
    }
}

/// The immutable spec arena.
#[derive(Debug, Clone, PartialEq, Eq)]
pub struct Spec {
    pub nodes: Vec<Node>,
    pub root: NodeId,
}

impl Spec {
    /// Arena well-formedness: node 0 is the sentinel, node 1 the user
    /// root, every later node has a parent below its own index, and all
    /// child edges agree with the parent back-edges.
    pub open spec fn wf(&self) -> bool {
        &&& self.nodes@.len() >= 2
        &&& self.root == NodeId(0usize)
        &&& self.nodes@[0].variant is Sentinel
        &&& self.nodes@[0].parent is None
        &&& self.nodes@[1].parent == Some(NodeId(0usize))
        &&& forall|i: int|
            1 <= i < self.nodes@.len() ==> ((#[trigger] self.nodes@[i].parent) matches Some(p)
                && p.0 < i)
        &&& forall|i: int| 0 <= i < self.nodes@.len() ==> node_children_wf(self.nodes@, i)
    }

    /// The arena's nodes, for specification purposes.
    pub open spec fn nodes_view(&self) -> Seq<Node> {
        self.nodes@
    }

    /// Assemble a spec from its arena; used by the spec-term reader.
    pub fn from_nodes(nodes: Vec<Node>) -> (r: Spec)
        ensures
            r.nodes_view() == nodes@,
            r.root_id_spec() == NodeId(0usize),
    {
        Spec { nodes, root: NodeId(0) }
    }

    /// The node behind an id.
    pub fn get(&self, id: NodeId) -> (r: &Node)
        requires
            id.0 < self.nodes_view().len(),
        ensures
            *r == self.nodes_view()[id.0 as int],
    {
        &self.nodes[id.0]
    }

    /// The id the walker starts from: the sentinel.
    pub open spec fn root_id_spec(&self) -> NodeId {
        self.root
    }

    /// The id the walker starts from: the sentinel.
    pub fn root_id(&self) -> (r: NodeId)
        ensures
            r == self.root_id_spec(),
    {
        self.root
    }
}

} // verus!
