//! What holds of inserting paths and of listing a tree, proved over the
//! mathematical tree.

use vstd::prelude::*;
use crate::segment::SegmentView;
use crate::model::{TreeView, first_named, indent};

verus! {

/// What `first_named` returns: an index in range whose child has the name
/// and before which, from `from` on, none has; or the length, and no child
/// from `from` on has the name.
pub proof fn lemma_first_named(children: Seq<TreeView>, name: SegmentView, from: int)
    requires
        0 <= from <= children.len(),
    ensures
        from <= first_named(children, name, from) <= children.len(),
        first_named(children, name, from) < children.len() ==> children[first_named(
            children,
            name,
            from,
        )].name == name,
        forall|j: int|
            from <= j < first_named(children, name, from) ==> (#[trigger] children[j]).name != name,
    decreases children.len() - from,
{
    if from < children.len() && children[from].name != name {
        lemma_first_named(children, name, from + 1);
    }
}

/// An index `r` is what `first_named` returns from 0 if no child before `r`
/// has the name and `r` is the length or the child at `r` has it.
pub proof fn lemma_first_named_is(children: Seq<TreeView>, name: SegmentView, r: int)
    requires
        0 <= r <= children.len(),
        forall|j: int| 0 <= j < r ==> (#[trigger] children[j]).name != name,
        r < children.len() ==> children[r].name == name,
    ensures
        first_named(children, name, 0) == r,
{
    lemma_first_named(children, name, 0);
    let f = first_named(children, name, 0);
    if f < r {
        assert(children[f].name != name);
    } else if f > r {
        assert(children[r].name != name);
    }
}

/// Inserting a path keeps the name and the level of the node it is inserted
/// below, and removes none of its children.
pub proof fn lemma_with_path_keeps_node(t: TreeView, path: Seq<SegmentView>)
    ensures
        t.with_path(path).name == t.name,
        t.with_path(path).level == t.level,
        t.with_path(path).children.len() >= t.children.len(),
{
    if path.len() > 0 {
        lemma_first_named(t.children, path[0], 0);
    }
}

/// Inserting a path keeps a tree well formed.
pub proof fn lemma_with_path_wf(t: TreeView, path: Seq<SegmentView>)
    requires
        t.wf(),
    ensures
        t.with_path(path).wf(),
    decreases path.len(),
{
    if path.len() > 0 {
        let i = t.child_index(path[0]);
        let rest = path.drop_first();
        lemma_first_named(t.children, path[0], 0);
        if i < t.children.len() {
            lemma_with_path_wf(t.children[i], rest);
            lemma_with_path_keeps_node(t.children[i], rest);
        } else {
            let fresh = TreeView::leaf(path[0], t.level + 1);
            lemma_with_path_wf(fresh, rest);
            lemma_with_path_keeps_node(fresh, rest);
        }
    }
}

/// Inserting a path a second time changes nothing: the tree after the
/// second insertion is the tree after the first.
pub proof fn lemma_with_path_idempotent(t: TreeView, path: Seq<SegmentView>)
    ensures
        t.with_path(path).with_path(path) == t.with_path(path),
    decreases path.len(),
{
    if path.len() > 0 {
        let i = t.child_index(path[0]);
        let rest = path.drop_first();
        let once = t.with_path(path);
        lemma_first_named(t.children, path[0], 0);
        let child = if i < t.children.len() {
            t.children[i]
        } else {
            TreeView::leaf(path[0], t.level + 1)
        };
        lemma_with_path_keeps_node(child, rest);
        lemma_with_path_idempotent(child, rest);
        assert(once.children[i] == child.with_path(rest));
        lemma_first_named_is(once.children, path[0], i);
        assert(once.children.update(i, child.with_path(rest)) =~= once.children);
    }
}

/// Inserting a path at a node a second time changes nothing: the tree
/// after the second insertion is the tree after the first.
pub proof fn lemma_inserted_idempotent(t: TreeView, path: Seq<SegmentView>)
    ensures
        t.inserted(path).inserted(path) == t.inserted(path),
{
    lemma_with_path_keeps_node(t, t.below(path));
    lemma_with_path_idempotent(t, t.below(path));
}

/// Inserting a path at a node keeps a tree well formed, and keeps the name
/// and the level of that node.
pub proof fn lemma_inserted_wf(t: TreeView, path: Seq<SegmentView>)
    requires
        t.wf(),
    ensures
        t.inserted(path).wf(),
        t.inserted(path).name == t.name,
        t.inserted(path).level == t.level,
{
    lemma_with_path_keeps_node(t, t.below(path));
    lemma_with_path_wf(t, t.below(path));
}

/// After a path was inserted at a node, the walks that stay inside the tree
/// are those that did so before and the prefixes of the part of the path
/// that lies below the node.
pub proof fn lemma_inserted_contains(t: TreeView, path: Seq<SegmentView>, q: Seq<SegmentView>)
    ensures
        t.inserted(path).contains(q) <==> t.contains(q) || q.is_prefix_of(t.below(path)),
{
    lemma_with_path_contains(t, t.below(path), q);
}

/// For paths that are not empty, `q` is a prefix of `p` if and only if they
/// start with the same segment and the rest of `q` is a prefix of the rest
/// of `p`.
pub proof fn lemma_prefix_step(q: Seq<SegmentView>, p: Seq<SegmentView>)
    requires
        q.len() > 0,
        p.len() > 0,
    ensures
        q.is_prefix_of(p) <==> q[0] == p[0] && q.drop_first().is_prefix_of(p.drop_first()),
{
    let qt = q.drop_first();
    let pt = p.drop_first();
    if q.is_prefix_of(p) {
        assert(q[0] == p.subrange(0, q.len() as int)[0]);
        assert forall|k: int| 0 <= k < qt.len() implies qt[k] == pt.subrange(0, qt.len() as int)[k] by {
            assert(q[k + 1] == p.subrange(0, q.len() as int)[k + 1]);
        }
        assert(qt =~= pt.subrange(0, qt.len() as int));
    }
    if q[0] == p[0] && qt.is_prefix_of(pt) {
        assert forall|k: int| 0 <= k < q.len() implies q[k] == p.subrange(0, q.len() as int)[k] by {
            if k > 0 {
                assert(qt[k - 1] == pt.subrange(0, qt.len() as int)[k - 1]);
            }
        }
        assert(q =~= p.subrange(0, q.len() as int));
    }
}

/// After a path was inserted, the walks that stay inside the tree are those
/// that did so before and the prefixes of the inserted path: paths with a
/// common prefix share its nodes, and nothing else is added.
pub proof fn lemma_with_path_contains(t: TreeView, path: Seq<SegmentView>, q: Seq<SegmentView>)
    ensures
        t.with_path(path).contains(q) <==> t.contains(q) || q.is_prefix_of(path),
    decreases path.len(),
{
    if q.len() == 0 {
        assert(q =~= path.subrange(0, 0));
    } else if path.len() > 0 {
        let after = t.with_path(path);
        let i = t.child_index(path[0]);
        let k = t.child_index(q[0]);
        let rest = path.drop_first();
        lemma_prefix_step(q, path);
        lemma_first_named(t.children, path[0], 0);
        lemma_first_named(t.children, q[0], 0);
        let child = if i < t.children.len() {
            t.children[i]
        } else {
            TreeView::leaf(path[0], t.level + 1)
        };
        lemma_with_path_keeps_node(child, rest);
        assert(after.children[i] == child.with_path(rest));
        if q[0] == path[0] {
            lemma_first_named_is(after.children, q[0], i);
            lemma_with_path_contains(child, rest, q.drop_first());
            if i >= t.children.len() && q.drop_first().len() == 0 {
                assert(q.drop_first() =~= rest.subrange(0, 0));
            }
        } else if k < t.children.len() {
            lemma_first_named_is(after.children, q[0], k);
            assert(after.children[k] == t.children[k]);
        } else {
            lemma_first_named_is(after.children, q[0], after.children.len() as int);
        }
    }
}

/// In a well-formed tree, the node that a walk inside the tree leads to
/// lies as many levels below the start as the walk has segments, and is
/// named by the last of them. Its line in a listing is therefore indented
/// by one step for each level below the first.
pub proof fn lemma_node_at(t: TreeView, q: Seq<SegmentView>)
    requires
        t.wf(),
        t.contains(q),
    ensures
        t.node_at(q).wf(),
        t.node_at(q).level == t.level + q.len(),
        q.len() > 0 ==> t.node_at(q).name == q.last(),
        q.len() > 0 ==> t.node_at(q).own_line() == seq![
            indent((t.level + q.len() - 1) as nat) + q.last().text(),
        ],
    decreases q.len(),
{
    if q.len() > 0 {
        let i = t.child_index(q[0]);
        lemma_first_named(t.children, q[0], 0);
        lemma_node_at(t.children[i], q.drop_first());
        if q.len() > 1 {
            assert(q.drop_first().last() == q.last());
        }
    }
}

/// A listing holds one line for each node of a well-formed tree, except
/// that a node at level 0 has no line.
pub proof fn lemma_lines_count(t: TreeView)
    requires
        t.wf(),
    ensures
        t.level == 0 ==> t.lines().len() == t.size() - 1,
        t.level > 0 ==> t.lines().len() == t.size(),
    decreases t, 1nat,
{
    lemma_lines_below_count(t, t.children.len());
}

/// The listings of the first `n` children of a well-formed node hold one
/// line for each node of their subtrees.
pub proof fn lemma_lines_below_count(t: TreeView, n: nat)
    requires
        t.wf(),
        n <= t.children.len(),
    ensures
        t.lines_below(n).len() == t.size_below(n),
    decreases t, 0nat, n,
{
    if n > 0 {
        lemma_lines_below_count(t, (n - 1) as nat);
        lemma_lines_count(t.children[n - 1]);
    }
}

} // verus!
