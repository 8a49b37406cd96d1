//! The path tracker: couples the spec walker with a stack of path entries
//! recording, for each open container, the current array index (0-based)
//! or the current key's bytes.
//!
//! Keys are pushed on key entry and popped once their value has been
//! visited; array indices are pushed on array entry and advanced after
//! each element.

use vstd::prelude::*;

use crate::tree_spec::{NodeId, ValueType};
use crate::walker::{try_child_spec, PathEntry, PathPosition, SpecWalker};

verus! {

/// The last path entry, if any.
pub open spec fn last_entry(path: Seq<PathEntry>) -> Option<PathEntry> {
    if path.len() == 0 {
        None
    } else {
        Some(path.last())
    }
}

/// What `update_path` leaves behind: a trailing index advances (saturating
/// at the machine limit), a trailing key is popped, an empty path stays.
pub open spec fn bump_path(path: Seq<PathEntry>) -> Seq<PathEntry> {
    if path.len() == 0 {
        path
    } else {
        match path.last() {
            PathEntry::Index(i) => path.update(
                path.len() - 1,
                PathEntry::Index(
                    if i < usize::MAX {
                        (i + 1) as usize
                    } else {
                        i
                    },
                ),
            ),
            PathEntry::Key(_) => path.drop_last(),
        }
    }
}

/// The walker plus the path stack.
pub struct PathTracker {
    pub path: Vec<PathEntry>,
    pub walker: SpecWalker,
}

impl PathTracker {
    /// Internal consistency: the walker is.
    pub open spec fn wf(&self) -> bool {
        self.walker.wf()
    }

    /// A fresh tracker over a walker, with an empty path.
    pub fn new(walker: SpecWalker) -> (r: PathTracker)
        requires
            walker.wf(),
        ensures
            r.wf(),
            r.walker == walker,
            r.path@ == Seq::<PathEntry>::empty(),
    {
        PathTracker { path: Vec::new(), walker }
    }

    fn last(&self) -> (r: Option<&PathEntry>)
        ensures
            match r {
                Some(e) => last_entry(self.path@) == Some(*e),
                None => last_entry(self.path@) is None,
            },
    {
        let n = self.path.len();
        if n == 0 {
            None
        } else {
            Some(&self.path[n - 1])
        }
    }

    fn update_path(&mut self)
        ensures
            final(self).path@ == bump_path(old(self).path@),
            final(self).walker == old(self).walker,
    {
        match self.path.pop() {
            Some(PathEntry::Index(index)) => {
                let next = if index < usize::MAX {
                    index + 1
                } else {
                    index
                };
                self.path.push(PathEntry::Index(next));
                proof {
                    assert(self.path@ =~= bump_path(old(self).path@));
                }
            },
            Some(PathEntry::Key(_)) => {
                proof {
                    assert(self.path@ =~= bump_path(old(self).path@));
                }
            },
            None => {},
        }
    }

    /// A terminal value was completed at the current path position: ask
    /// the walker for the matched node, then advance the path.
    pub fn visit_terminal(&mut self, typ: ValueType) -> (r: PathPosition)
        requires
            old(self).wf(),
        ensures
            final(self).wf(),
            final(self).walker == old(self).walker,
            final(self).path@ == bump_path(old(self).path@),
            r == try_child_spec(old(self).walker, typ, last_entry(old(self).path@)),
            r.current matches Some(c) ==> c.0 < old(self).walker.tree.nodes_view().len(),
            r.parent matches Some(p) ==> p.0 < old(self).walker.tree.nodes_view().len(),
    {
        let path_pos = self.walker.visit_terminal(typ, self.last());
        self.update_path();
        path_pos
    }

    /// An array was entered: move the walker down and open index 0.
    pub fn enter_array(&mut self) -> (r: PathPosition)
        requires
            old(self).wf(),
            old(self).walker.depth + old(self).walker.height_off_current < usize::MAX,
        ensures
            final(self).wf(),
            final(self).walker.tree == old(self).walker.tree,
            final(self).walker.depth + final(self).walker.height_off_current == old(
                self,
            ).walker.depth + old(self).walker.height_off_current + 1,
            final(self).path@ == old(self).path@.push(PathEntry::Index(0usize)),
            r == try_child_spec(old(self).walker, ValueType::Array, last_entry(old(self).path@)),
            r.parent matches Some(p) ==> p.0 < old(self).walker.tree.nodes_view().len(),
    {
        let n = self.path.len();
        let last = if n == 0 {
            None
        } else {
            Some(&self.path[n - 1])
        };
        let resp = self.walker.enter_nonterminal(ValueType::Array, last);
        self.path.push(PathEntry::Index(0));
        resp
    }

    /// A map was entered: move the walker down; keys are pushed on key
    /// entry, not here.
    pub fn enter_map(&mut self) -> (r: PathPosition)
        requires
            old(self).wf(),
            old(self).walker.depth + old(self).walker.height_off_current < usize::MAX,
        ensures
            final(self).wf(),
            final(self).walker.tree == old(self).walker.tree,
            final(self).walker.depth + final(self).walker.height_off_current == old(
                self,
            ).walker.depth + old(self).walker.height_off_current + 1,
            final(self).path@ == old(self).path@,
            r == try_child_spec(old(self).walker, ValueType::Object, last_entry(old(self).path@)),
            r.parent matches Some(p) ==> p.0 < old(self).walker.tree.nodes_view().len(),
    {
        let n = self.path.len();
        let last = if n == 0 {
            None
        } else {
            Some(&self.path[n - 1])
        };
        let resp = self.walker.enter_nonterminal(ValueType::Object, last);
        resp
    }

    /// An array was exited: drop its index entry, climb the walker, and
    /// advance the enclosing path position.
    pub fn exit_array(&mut self) -> (r: PathPosition)
        requires
            old(self).wf(),
            old(self).walker.depth + old(self).walker.height_off_current >= 1,
        ensures
            final(self).wf(),
            final(self).walker.tree == old(self).walker.tree,
            final(self).walker.depth + final(self).walker.height_off_current == old(
                self,
            ).walker.depth + old(self).walker.height_off_current - 1,
            old(self).path@.len() > 0 ==> final(self).path@ == bump_path(
                old(self).path@.drop_last(),
            ),
            old(self).path@.len() == 0 ==> final(self).path@ == old(self).path@,
            r.current matches Some(c) ==> c.0 < old(self).walker.tree.nodes_view().len(),
            r.parent matches Some(p) ==> p.0 < old(self).walker.tree.nodes_view().len(),
            old(self).walker.height_off_current == 0 ==> r == (PathPosition {
                current: Some(old(self).walker.current),
                parent: old(self).walker.tree.nodes_view()[old(
                    self,
                ).walker.current.0 as int].parent,
            }),
            old(self).walker.height_off_current == 1 ==> r == (PathPosition {
                current: None,
                parent: Some(old(self).walker.current),
            }),
            old(self).walker.height_off_current > 1 ==> r == (PathPosition {
                current: None,
                parent: None,
            }),
    {
        self.path.pop();
        let path_pos = self.walker.exit_nonterminal();
        self.update_path();
        path_pos
    }

    /// A map was exited: climb the walker and advance the enclosing path
    /// position.
    pub fn exit_map(&mut self) -> (r: PathPosition)
        requires
            old(self).wf(),
            old(self).walker.depth + old(self).walker.height_off_current >= 1,
        ensures
            final(self).wf(),
            final(self).walker.tree == old(self).walker.tree,
            final(self).walker.depth + final(self).walker.height_off_current == old(
                self,
            ).walker.depth + old(self).walker.height_off_current - 1,
            final(self).path@ == bump_path(old(self).path@),
            r.current matches Some(c) ==> c.0 < old(self).walker.tree.nodes_view().len(),
            r.parent matches Some(p) ==> p.0 < old(self).walker.tree.nodes_view().len(),
            old(self).walker.height_off_current == 0 ==> r == (PathPosition {
                current: Some(old(self).walker.current),
                parent: old(self).walker.tree.nodes_view()[old(
                    self,
                ).walker.current.0 as int].parent,
            }),
            old(self).walker.height_off_current == 1 ==> r == (PathPosition {
                current: None,
                parent: Some(old(self).walker.current),
            }),
            old(self).walker.height_off_current > 1 ==> r == (PathPosition {
                current: None,
                parent: None,
            }),
    {
        let path_pos = self.walker.exit_nonterminal();
        self.update_path();
        path_pos
    }

    /// A key string was finalized: record it on the path and name the node
    /// whose options govern it.
    pub fn enter_key(&mut self, key: Vec<u8>) -> (r: Option<NodeId>)
        requires
            old(self).wf(),
        ensures
            final(self).wf(),
            final(self).walker == old(self).walker,
            final(self).path@ == old(self).path@.push(PathEntry::Key(key)),
            r == if old(self).walker.height_off_current == 0 {
                Some(old(self).walker.current)
            } else {
                None::<NodeId>
            },
            r matches Some(c) ==> c.0 < old(self).walker.tree.nodes_view().len(),
    {
        self.path.push(PathEntry::Key(key));
        self.walker.visit_key()
    }
}

} // verus!
