//! The tree itself: nodes that own their children, insertion of a path and
//! the indented listing.

use vstd::prelude::*;
use vstd::string::StringExecFns;
use crate::segment::{Segment, SegmentView, segment_views};
use crate::model::{TreeView, first_named, indent};
use crate::laws::lemma_with_path_wf;

verus! {

/// One segment at one depth, with the segments that follow it in the paths
/// seen so far.
#[derive(Debug)]
pub struct TreeNode {
    name: Segment,
    level: usize,
    children: Vec<TreeNodeWrapper>,
}

/// A child as its parent holds it: among its siblings it is told apart by
/// its name alone.
#[derive(Debug)]
pub struct TreeNodeWrapper(pub TreeNode);

impl View for TreeNode {
    type V = TreeView;

    closed spec fn view(&self) -> TreeView {
        self.model()
    }
}

impl View for TreeNodeWrapper {
    type V = TreeView;

    open spec fn view(&self) -> TreeView {
        self.0@
    }
}

impl PartialEq for TreeNodeWrapper {
    /// Two children are equal if they have the same name, whatever lies
    /// below them.
    fn eq(&self, other: &TreeNodeWrapper) -> (b: bool) {
        proof {
            self.0.view_fields();
            other.0.view_fields();
        }
        self.0.name.same(&other.0.name)
    }
}

impl Eq for TreeNodeWrapper {

}

impl vstd::std_specs::cmp::PartialEqSpecImpl for TreeNodeWrapper {
    open spec fn obeys_eq_spec() -> bool {
        true
    }

    open spec fn eq_spec(&self, other: &TreeNodeWrapper) -> bool {
        self@.name == other@.name
    }
}

impl TreeNodeWrapper {
    /// The segment by which this child is found among its siblings.
    pub fn name(&self) -> (name: &Segment)
        ensures
            name@ == self@.name,
    {
        self.0.name()
    }
}

impl TreeNode {
    /// The value of this node: its own fields, and the values of its
    /// children in order.
    closed spec fn model(&self) -> TreeView
        decreases self, 1nat,
    {
        TreeView {
            name: self.name@,
            level: self.level as nat,
            children: self.child_models(self.children@.len()),
        }
    }

    /// The values of the first `n` children.
    closed spec fn child_models(&self, n: nat) -> Seq<TreeView>
        decreases self, 0nat, n,
    {
        if n == 0 || n > self.children@.len() {
            Seq::empty()
        } else {
            self.child_models((n - 1) as nat).push(self.children@[n - 1].0.model())
        }
    }

    /// The values of the first `n` children, one by one.
    proof fn child_models_at(&self, n: nat)
        requires
            n <= self.children@.len(),
        ensures
            self.child_models(n).len() == n,
            forall|i: int| 0 <= i < n ==> #[trigger] self.child_models(n)[i] == self.children@[i].0@,
        decreases n,
    {
        if n > 0 {
            self.child_models_at((n - 1) as nat);
        }
    }

    /// The value of a node, field by field.
    proof fn view_fields(&self)
        ensures
            self@.name == self.name@,
            self@.level == self.level,
            self@.children.len() == self.children@.len(),
            forall|i: int|
                0 <= i < self.children@.len() ==> #[trigger] self@.children[i] == self.children@[i].0@,
    {
        self.child_models_at(self.children@.len());
    }

    /// A node named `name` at depth `level`, without children.
    pub fn new(name: Segment, level: usize) -> (node: TreeNode)
        ensures
            node@ == TreeView::leaf(name@, level as nat),
            node@.wf(),
    {
        TreeNode { name, level, children: Vec::new() }
    }

    /// The segment that this node stands for.
    pub fn name(&self) -> (name: &Segment)
        ensures
            name@ == self@.name,
    {
        &self.name
    }

    /// The depth of this node; the root of a tree has depth 0.
    pub fn level(&self) -> (level: usize)
        ensures
            level == self@.level,
    {
        self.level
    }

    /// The children, in the order in which they were created.
    pub fn children(&self) -> (children: &Vec<TreeNodeWrapper>)
        ensures
            children@.len() == self@.children.len(),
            forall|i: int| 0 <= i < children@.len() ==> (#[trigger] children@[i])@ == self@.children[i],
    {
        proof {
            self.view_fields();
        }
        &self.children
    }

    /// The index of the child named `name`, or the number of children if
    /// there is none.
    pub fn find_child(&self, name: &Segment) -> (i: usize)
        ensures
            i == self@.child_index(name@),
            i <= self@.children.len(),
    {
        proof {
            self.view_fields();
        }
        let mut i: usize = 0;
        while i < self.children.len()
            invariant
                i <= self.children.len(),
                self.children.len() == self@.children.len(),
                forall|j: int| 0 <= j < self.children@.len() ==> #[trigger] self@.children[j] == self.children@[j].0@,
                forall|j: int| 0 <= j < self.children@.len() ==> (#[trigger] self.children@[j]).0@.name == self.children@[j].0.name@,
                first_named(self@.children, name@, 0) == first_named(self@.children, name@, i as int),
            decreases self.children.len() - i,
        {
            if self.children[i].0.name.same(name) {
                return i;
            }
            i += 1;
        }
        i
    }

    /// The listing of the tree below this node, one string for each line:
    /// depth first, the children of a node in the order of their creation,
    /// and no line for a node at level 0.
    pub fn render(&self) -> (lines: Vec<String>)
        ensures
            texts(lines@) == self@.lines(),
    {
        let mut out: Vec<String> = Vec::new();
        assert(texts(out@) + self@.lines() =~= self@.lines());
        self.render_into(&mut out);
        out
    }

    /// Appends the listing of this subtree to `out`.
    fn render_into(&self, out: &mut Vec<String>)
        ensures
            texts(final(out)@) == texts(old(out)@) + self@.lines(),
        decreases self,
    {
        let ghost start = texts(out@);
        proof {
            self.view_fields();
        }
        if self.level > 0 {
            let mut line = indentation(self.level - 1);
            let text = self.name.text();
            line.append(text.as_str());
            out.push(line);
            assert(texts(out@) =~= start + self@.own_line());
        } else {
            assert(texts(out@) =~= start + self@.own_line());
        }
        let mut i: usize = 0;
        assert(texts(out@) =~= start + self@.own_line() + self@.lines_below(0));
        while i < self.children.len()
            invariant
                i <= self.children@.len(),
                self@.children.len() == self.children@.len(),
                forall|j: int|
                    0 <= j < self.children@.len() ==> #[trigger] self@.children[j]
                        == self.children@[j].0@,
                texts(out@) == start + self@.own_line() + self@.lines_below(i as nat),
            decreases self.children.len() - i,
        {
            self.children[i].0.render_into(out);
            assert(texts(out@) =~= start + self@.own_line() + self@.lines_below((i + 1) as nat));
            i += 1;
        }
        assert(texts(out@) =~= start + self@.lines());
    }

    /// Inserts the path made of `components`, front to back, at this node:
    /// follows the children that exist and creates those that are missing,
    /// each new child behind its siblings. A root marker at the front of
    /// the path stands for this node itself if this node is a root marker.
    /// Inserting a path that is there already changes nothing.
    pub fn add_path(&mut self, components: &Vec<Segment>)
        requires
            old(self)@.wf(),
            old(self)@.level + components@.len() <= usize::MAX,
        ensures
            final(self)@ == old(self)@.inserted(segment_views(components@)),
            final(self)@.wf(),
    {
        let ghost path = segment_views(components@);
        proof {
            self.view_fields();
            assert(path.subrange(0, components@.len() as int) =~= path);
            if path.len() > 0 {
                assert(path.subrange(1, components@.len() as int) =~= path.drop_first());
            }
            lemma_with_path_wf(self@, self@.below(path));
        }
        let anchored = components.len() > 0 && self.name.same(&Segment::Root)
            && components[0].same(&Segment::Root);
        let start: usize = if anchored {
            1
        } else {
            0
        };
        self.add_from(components, start);
    }

    /// Inserts the part of `components` that starts at `start`.
    fn add_from(&mut self, components: &Vec<Segment>, start: usize)
        requires
            old(self)@.wf(),
            start <= components@.len(),
            old(self)@.level + (components@.len() - start) <= usize::MAX,
        ensures
            final(self)@ == old(self)@.with_path(
                segment_views(components@).subrange(start as int, components@.len() as int),
            ),
        decreases components@.len() - start,
    {
        if start < components.len() {
            let ghost before = self@;
            let ghost path = segment_views(components@).subrange(
                start as int,
                components@.len() as int,
            );
            let ghost rest = segment_views(components@).subrange(
                start as int + 1,
                components@.len() as int,
            );
            proof {
                self.view_fields();
                assert(path.drop_first() =~= rest);
                assert(path[0] == components@[start as int]@);
            }
            let part = &components[start];
            let i = self.find_child(part);
            if i < self.children.len() {
                self.children[i].0.add_from(components, start + 1);
                proof {
                    self.view_fields();
                    assert(self.children@[i as int].0@ == before.children[i as int].with_path(rest));
                    assert(self@.children =~= before.children.update(
                        i as int,
                        before.children[i as int].with_path(rest),
                    ));
                }
            } else {
                let mut node = TreeNode::new(part.duplicate(), self.level + 1);
                node.add_from(components, start + 1);
                self.children.push(TreeNodeWrapper(node));
                proof {
                    self.view_fields();
                    assert(self@.children =~= before.children.push(
                        TreeView::leaf(path[0], before.level + 1).with_path(rest),
                    ));
                }
            }
        }
    }
}

/// The texts of a sequence of strings, in order.
pub open spec fn texts(lines: Seq<String>) -> Seq<Seq<char>> {
    Seq::new(lines.len(), |i: int| lines[i]@)
}

/// `n` steps of indentation.
fn indentation(n: usize) -> (s: String)
    ensures
        s@ == indent(n as nat),
{
    let mut s = String::new();
    let mut k: usize = 0;
    assert(s@ =~= indent(0));
    while k < n
        invariant
            k <= n,
            s@ == indent(k as nat),
        decreases n - k,
    {
        proof {
            reveal_strlit("  ");
            assert(indent(k as nat) + "  "@ =~= indent((k + 1) as nat));
        }
        s.append("  ");
        k += 1;
    }
    s
}

} // verus!
