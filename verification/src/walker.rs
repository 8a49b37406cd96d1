//! The spec walker: a stateful cursor that follows structural events down
//! and back up the spec tree.
//!
//! `current` is the deepest matched spec node; `height_off_current` is the
//! depth of JSON structure below the last spec match — non-zero means the
//! cursor is inside a region the spec does not describe.

use vstd::prelude::*;

use vstd::pervasive::unreached;

use crate::tree_spec::{
    assoc_lookup, child_index_spec, child_key_spec, child_root_spec, matches_spec, node_depth,
    Node, NodeId, NodeVariant, Spec, ValueType,
};

verus! {

/// One step of the JSON navigation path: an object key or a 0-based array
/// index.
#[derive(Debug, Clone, PartialEq, Eq)]
pub enum PathEntry {
    Key(Vec<u8>),
    Index(usize),
}

impl PathEntry {
    /// The key bytes; only for `Key` entries.
    pub fn key(&self) -> (r: &Vec<u8>)
        requires
            self is Key,
        ensures
            *self == PathEntry::Key(*r),
    {
        match self {
            PathEntry::Key(data) => data,
            _ => unreached(),
        }
    }

    /// The array index; only for `Index` entries.
    pub fn index(&self) -> (r: usize)
        requires
            self is Index,
        ensures
            *self == PathEntry::Index(r),
    {
        match self {
            PathEntry::Index(index) => *index,
            _ => unreached(),
        }
    }
}

/// The walker's answer at an event: the spec node matching the value (if
/// any), and the matched node enclosing it (if the cursor is at most one
/// level off the spec).
#[derive(Debug, Clone, Copy, PartialEq, Eq, Structural)]
pub struct PathPosition {
    pub current: Option<NodeId>,
    pub parent: Option<NodeId>,
}

/// The stateful cursor over a spec tree.
#[derive(Debug, Clone)]
pub struct SpecWalker {
    pub tree: Spec,
    pub current: NodeId,
    pub depth: usize,
    pub height_off_current: usize,
}

/// The child the current node offers for an incoming value identified by
/// the last path entry (or the root, when there is none).
pub open spec fn child_for(w: SpecWalker, key: Option<PathEntry>) -> Option<NodeId> {
    let v = w.tree.nodes_view()[w.current.0 as int].variant;
    match key {
        None => child_root_spec(v),
        Some(PathEntry::Index(_)) => child_index_spec(v),
        Some(PathEntry::Key(name)) => child_key_spec(v, name@),
    }
}

/// What `try_child` answers: at height 0, the offered child if it also
/// matches the value type; otherwise nothing.
pub open spec fn try_child_spec(w: SpecWalker, typ: ValueType, key: Option<PathEntry>) -> PathPosition {
    if w.height_off_current == 0 {
        let child = match child_for(w, key) {
            Some(c) => if matches_spec(w.tree.nodes_view()[c.0 as int].variant, typ) {
                Some(c)
            } else {
                None
            },
            None => None,
        };
        PathPosition { current: child, parent: Some(w.current) }
    } else {
        PathPosition { current: None, parent: None }
    }
}

impl SpecWalker {
    /// Internal consistency: the arena is well-formed, the cursor is in
    /// bounds, and `depth` is the cursor's distance from the sentinel.
    pub open spec fn wf(&self) -> bool {
        &&& self.tree.wf()
        &&& self.current.0 < self.tree.nodes_view().len()
        &&& self.depth == node_depth(self.tree.nodes_view(), self.current.0 as int)
    }

    /// A fresh walker at the sentinel.
    pub fn new(tree: Spec) -> (r: SpecWalker)
        requires
            tree.wf(),
        ensures
            r.wf(),
            r.tree == tree,
            r.current == tree.root_id_spec(),
            r.depth == 0,
            r.height_off_current == 0,
    {
        let root = tree.root_id();
        SpecWalker { current: root, tree, depth: 0, height_off_current: 0 }
    }

    fn try_child(&self, typ: ValueType, key: Option<&PathEntry>) -> (r: PathPosition)
        requires
            self.wf(),
        ensures
            r == try_child_spec(
                *self,
                typ,
                match key {
                    Some(k) => Some(*k),
                    None => None,
                },
            ),
            r.current matches Some(c) ==> c.0 < self.tree.nodes_view().len() && node_depth(
                self.tree.nodes_view(),
                c.0 as int,
            ) == self.depth + 1,
    {
        if self.height_off_current != 0 {
            return PathPosition { current: None, parent: None };
        }
        let ghost key_spec: Option<PathEntry> = match key {
            Some(k) => Some(*k),
            None => None,
        };
        let current = self.tree.get(self.current);
        let child_node_id = match key {
            None => current.variant.child_root(),
            Some(PathEntry::Index(_)) => current.variant.child_index(0),
            Some(PathEntry::Key(name)) => current.variant.child_key(name),
        };
        let child_node_match = match child_node_id {
            Some(child_id) => {
                proof {
                    lemma_child_edge(*self, key_spec, child_id);
                }
                let child = self.tree.get(child_id);
                if child.variant.matches(typ) {
                    Some(child_id)
                } else {
                    None
                }
            },
            None => None,
        };
        PathPosition { current: child_node_match, parent: Some(self.current) }
    }

    /// The matched node (if any) for a terminal value at the given path
    /// position; the cursor does not move.
    pub fn visit_terminal(&self, typ: ValueType, key: Option<&PathEntry>) -> (r: PathPosition)
        requires
            self.wf(),
        ensures
            r == try_child_spec(
                *self,
                typ,
                match key {
                    Some(k) => Some(*k),
                    None => None,
                },
            ),
            r.current matches Some(c) ==> c.0 < self.tree.nodes_view().len(),
            r.parent matches Some(p) ==> p.0 < self.tree.nodes_view().len(),
    {
        self.try_child(typ, key)
    }

    /// The node whose options govern the key about to be finalized: the
    /// current node, when the cursor is on the spec.
    pub fn visit_key(&self) -> (r: Option<NodeId>)
        requires
            self.wf(),
        ensures
            r == if self.height_off_current == 0 {
                Some(self.current)
            } else {
                None::<NodeId>
            },
            r matches Some(c) ==> c.0 < self.tree.nodes_view().len(),
    {
        if self.height_off_current == 0 {
            Some(self.current)
        } else {
            None
        }
    }

    /// Enter a container: descend to the matched child, or record one more
    /// level of unmatched structure.
    pub fn enter_nonterminal(&mut self, typ: ValueType, key: Option<&PathEntry>) -> (r:
        PathPosition)
        requires
            old(self).wf(),
            old(self).depth + old(self).height_off_current < usize::MAX,
        ensures
            final(self).wf(),
            final(self).tree == old(self).tree,
            r == try_child_spec(
                *old(self),
                typ,
                match key {
                    Some(k) => Some(*k),
                    None => None,
                },
            ),
            match r.current {
                Some(c) => final(self).current == c && final(self).depth == old(self).depth + 1
                    && final(self).height_off_current == old(self).height_off_current,
                None => final(self).current == old(self).current && final(self).depth == old(
                    self,
                ).depth && final(self).height_off_current == old(self).height_off_current + 1,
            },
            final(self).depth + final(self).height_off_current == old(self).depth + old(
                self,
            ).height_off_current + 1,
            r.current matches Some(c) ==> c.0 < old(self).tree.nodes_view().len(),
            r.parent matches Some(p) ==> p.0 < old(self).tree.nodes_view().len(),
    {
        proof {
            lemma_node_depth_bound(self.tree.nodes_view(), self.current.0 as int);
        }
        let resp = self.try_child(typ, key);
        match resp.current {
            Some(child_id) => {
                self.current = child_id;
                self.depth += 1;
            },
            None => {
                self.height_off_current += 1;
            },
        }
        resp
    }

    /// Exit a container: climb one level, consuming unmatched height
    /// first. The answer reports the node that was current (when the exit
    /// leaves the spec frontier) and the node now enclosing.
    pub fn exit_nonterminal(&mut self) -> (r: PathPosition)
        requires
            old(self).wf(),
            old(self).depth + old(self).height_off_current >= 1,
        ensures
            final(self).wf(),
            final(self).tree == old(self).tree,
            old(self).height_off_current == 0 ==> {
                &&& r == (PathPosition {
                    current: Some(old(self).current),
                    parent: Some(final(self).current),
                })
                &&& final(self).depth == old(self).depth - 1
                &&& final(self).height_off_current == 0
                &&& old(self).tree.nodes_view()[old(self).current.0 as int].parent == Some(
                    final(self).current,
                )
            },
            old(self).height_off_current == 1 ==> r == (PathPosition {
                current: None,
                parent: Some(old(self).current),
            }),
            old(self).height_off_current > 1 ==> r == (PathPosition {
                current: None,
                parent: None,
            }),
            old(self).height_off_current > 0 ==> final(self).current == old(self).current
                && final(self).depth == old(self).depth && final(self).height_off_current == old(
                self,
            ).height_off_current - 1,
            final(self).depth + final(self).height_off_current == old(self).depth + old(
                self,
            ).height_off_current - 1,
            r.current matches Some(c) ==> c.0 < old(self).tree.nodes_view().len(),
            r.parent matches Some(p) ==> p.0 < old(self).tree.nodes_view().len(),
    {
        if self.height_off_current == 0 {
            let current_id = self.current;
            proof {
                lemma_depth_positive(self.tree.nodes_view(), self.current.0 as int);
            }
            let node = self.tree.get(current_id);
            let parent = match node.parent {
                Some(p) => p,
                None => unreached(),
            };
            self.current = parent;
            self.depth -= 1;
            PathPosition { current: Some(current_id), parent: Some(parent) }
        } else if self.height_off_current == 1 {
            self.height_off_current -= 1;
            PathPosition { current: None, parent: Some(self.current) }
        } else {
            self.height_off_current -= 1;
            PathPosition { current: None, parent: None }
        }
    }
}

/// A hit in an association list names one of its pairs.
proof fn lemma_assoc_member<T>(pairs: Seq<(Vec<u8>, T)>, key: Seq<u8>, x: T)
    requires
        crate::tree_spec::assoc_lookup(pairs, key) == Some(x),
    ensures
        exists|j: int| 0 <= j < pairs.len() && (#[trigger] pairs[j]).1 == x,
    decreases pairs.len(),
{
    if pairs.len() > 0 {
        if pairs[0].0@ == key {
            assert(pairs[0].1 == x);
        } else {
            lemma_assoc_member(pairs.drop_first(), key, x);
            let j = choose|j: int|
                0 <= j < pairs.drop_first().len() && (#[trigger] pairs.drop_first()[j]).1 == x;
            assert(pairs[j + 1].1 == x);
        }
    }
}

/// Any child edge a well-formed arena offers points into the arena, one
/// level deeper than its parent.
proof fn lemma_child_edge(w: SpecWalker, key: Option<PathEntry>, child: NodeId)
    requires
        w.wf(),
        child_for(w, key) == Some(child),
    ensures
        child.0 < w.tree.nodes_view().len(),
        node_depth(w.tree.nodes_view(), child.0 as int) == node_depth(
            w.tree.nodes_view(),
            w.current.0 as int,
        ) + 1,
{
    let nodes = w.tree.nodes_view();
    let i = w.current.0 as int;
    assert(crate::tree_spec::node_children_wf(nodes, i));
    match nodes[i].variant {
        NodeVariant::Sentinel => {
            assert(i == 0);
            assert(child == NodeId(1usize));
            assert(node_depth(nodes, 1) == 1 + node_depth(nodes, 0));
        },
        NodeVariant::Any => {
            assert(false);
        },
        NodeVariant::Array { .. } => {},
        NodeVariant::MapValues { .. } => {},
        NodeVariant::MapKeys { children } => {
            match key {
                Some(PathEntry::Key(name)) => {
                    lemma_assoc_member(children@, name@, child);
                },
                _ => {
                    assert(false);
                },
            }
        },
    }
}

/// `node_depth` never exceeds the node's own index.
proof fn lemma_node_depth_bound(nodes: Seq<Node>, i: int)
    ensures
        node_depth(nodes, i) <= if i >= 0 {
            i
        } else {
            0
        },
    decreases i,
{
    if 0 < i < nodes.len() {
        match nodes[i].parent {
            Some(p) => {
                if p.0 < i {
                    lemma_node_depth_bound(nodes, p.0 as int);
                }
            },
            None => {},
        }
    }
}

/// A node at positive depth has a parent one level up.
proof fn lemma_depth_positive(nodes: Seq<Node>, i: int)
    requires
        0 <= i < nodes.len(),
        node_depth(nodes, i) >= 1,
    ensures
        nodes[i].parent matches Some(p) && p.0 < i && node_depth(nodes, p.0 as int) == node_depth(
            nodes,
            i,
        ) - 1,
{
}

} // verus!
