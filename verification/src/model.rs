//! The mathematical tree that a [`crate::tree::TreeNode`] stands for, and
//! what inserting a path and listing the tree mean on it.

use vstd::prelude::*;
use crate::segment::SegmentView;

verus! {

/// A node as a value: its segment, its depth, and its children in the order
/// in which they were created.
pub struct TreeView {
    pub name: SegmentView,
    pub level: nat,
    pub children: Seq<TreeView>,
}

/// The index of the first of `children` at or after `from` that is named
/// `name`, or `children.len()` if there is none.
pub open spec fn first_named(children: Seq<TreeView>, name: SegmentView, from: int) -> int
    decreases children.len() - from,
{
    if from < 0 || from >= children.len() {
        children.len() as int
    } else if children[from].name == name {
        from
    } else {
        first_named(children, name, from + 1)
    }
}

/// `n` steps of indentation, two spaces each.
pub open spec fn indent(n: nat) -> Seq<char> {
    Seq::new(2 * n, |i: int| ' ')
}

impl TreeView {
    /// A node without children.
    pub open spec fn leaf(name: SegmentView, level: nat) -> TreeView {
        TreeView { name, level, children: Seq::empty() }
    }

    /// The index of the child named `name`, or the number of children if
    /// there is none.
    pub open spec fn child_index(self, name: SegmentView) -> int {
        first_named(self.children, name, 0)
    }

    /// No two children of a node share a name, and each child lies one level
    /// below its parent, throughout the tree.
    pub open spec fn wf(self) -> bool
        decreases self,
    {
        &&& forall|i: int, j: int|
            0 <= i < j < self.children.len() ==> (#[trigger] self.children[i]).name != (
            #[trigger] self.children[j]).name
        &&& forall|i: int|
            0 <= i < self.children.len() ==> (#[trigger] self.children[i]).level == self.level + 1
                && self.children[i].wf()
    }

    /// The tree after `path` was inserted below this node: each segment in
    /// turn follows the child of that name, or starts a new last child.
    pub open spec fn with_path(self, path: Seq<SegmentView>) -> TreeView
        decreases path.len(),
    {
        if path.len() == 0 {
            self
        } else {
            let i = self.child_index(path[0]);
            let rest = path.drop_first();
            if i < self.children.len() {
                TreeView { children: self.children.update(i, self.children[i].with_path(rest)), ..self }
            } else {
                TreeView {
                    children: self.children.push(
                        TreeView::leaf(path[0], self.level + 1).with_path(rest),
                    ),
                    ..self
                }
            }
        }
    }

    /// The part of `path` that lies below this node. A root marker at the
    /// front of a path stands for the node itself where that node is a root
    /// marker; every other segment names a node below.
    pub open spec fn below(self, path: Seq<SegmentView>) -> Seq<SegmentView> {
        if self.name == SegmentView::Root && path.len() > 0 && path[0] == SegmentView::Root {
            path.drop_first()
        } else {
            path
        }
    }

    /// The tree after `path` was inserted at this node.
    pub open spec fn inserted(self, path: Seq<SegmentView>) -> TreeView {
        self.with_path(self.below(path))
    }

    /// Whether walking down from this node along `path`, child by child,
    /// stays inside the tree.
    pub open spec fn contains(self, path: Seq<SegmentView>) -> bool
        decreases path.len(),
    {
        path.len() == 0 || {
            let i = self.child_index(path[0]);
            i < self.children.len() && self.children[i].contains(path.drop_first())
        }
    }

    /// The node that `path` leads to from this node; the walk stops where a
    /// segment has no child of its name.
    pub open spec fn node_at(self, path: Seq<SegmentView>) -> TreeView
        decreases path.len(),
    {
        if path.len() == 0 {
            self
        } else {
            let i = self.child_index(path[0]);
            if i < self.children.len() {
                self.children[i].node_at(path.drop_first())
            } else {
                self
            }
        }
    }

    /// The number of nodes of the tree, this one included.
    pub open spec fn size(self) -> nat
        decreases self, 1nat,
    {
        1 + self.size_below(self.children.len())
    }

    /// The number of nodes in the subtrees of the first `n` children.
    pub open spec fn size_below(self, n: nat) -> nat
        decreases self, 0nat, n,
    {
        if n == 0 || n > self.children.len() {
            0
        } else {
            self.size_below((n - 1) as nat) + self.children[n - 1].size()
        }
    }

    /// The line of this node alone: none at level 0, else its text behind
    /// one step of indentation for each level below the first.
    pub open spec fn own_line(self) -> Seq<Seq<char>> {
        if self.level == 0 {
            Seq::empty()
        } else {
            seq![indent((self.level - 1) as nat) + self.name.text()]
        }
    }

    /// The listing of the tree, depth first: the node's own line, then the
    /// listings of its children in order.
    pub open spec fn lines(self) -> Seq<Seq<char>>
        decreases self, 1nat,
    {
        self.own_line() + self.lines_below(self.children.len())
    }

    /// The listings of the first `n` children, one after the other.
    pub open spec fn lines_below(self, n: nat) -> Seq<Seq<char>>
        decreases self, 0nat, n,
    {
        if n == 0 || n > self.children.len() {
            Seq::empty()
        } else {
            self.lines_below((n - 1) as nat) + self.children[n - 1].lines()
        }
    }
}

} // verus!
