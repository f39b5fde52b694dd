//! What holds of every window tree, and of the trees that its operations make.

use vstd::prelude::*;
use crate::layout::{Orientation, Rect};
use crate::window::ViewportView;
use crate::tree_model::{
    as_leaf, forward_index, fresh_geometry, trimmed, vacant, with_active, NodeView, TreeView,
};

verus! {

/// The panes of `tree` whose viewport is marked active.
pub open spec fn active_panes(tree: TreeView) -> Set<int> {
    Set::new(|i: int| tree.is_leaf(i) && tree.viewport(i).active)
}

/// Exactly one pane of a tree has its viewport marked active: the one with the
/// focus.
pub proof fn lemma_one_active(tree: TreeView)
    requires
        tree.wf(),
    ensures
        tree.is_leaf(tree.focus),
        tree.viewport(tree.focus).active,
        forall|i: int| tree.is_leaf(i) && tree.viewport(i).active ==> i == tree.focus,
        active_panes(tree) == set![tree.focus],
        active_panes(tree).len() == 1,
{
    assert(tree.mark_ok(tree.focus));
    assert forall|i: int| tree.is_leaf(i) && tree.viewport(i).active implies i == tree.focus by {
        assert(tree.mark_ok(i));
    }
    assert(active_panes(tree) =~= set![tree.focus]);
}

/// Parents and children name each other: every child of a split names the
/// split as its parent, and every node but the root is a child of the node
/// that it names as its parent.
pub proof fn lemma_parents_agree(tree: TreeView, i: int)
    requires
        tree.wf(),
        tree.live(i),
    ensures
        tree.is_branch(i) ==> forall|k: int|
            0 <= k < tree.children(i).len() ==> tree.parent(
                #[trigger] tree.children(i)[k] as int,
            ) == Some(i as usize),
        i == 0 <==> tree.parent(i) is None,
        tree.parent(i) matches Some(p) ==> tree.is_branch(p as int) && tree.children(
            p as int,
        ).contains(i as usize),
{
    assert(tree.node_ok(i));
    if tree.is_branch(i) {
        assert(tree.names_child(i, 0));
        assert(tree.names_child(i, 1));
    }
    if i != 0 {
        let p = tree.parent(i)->0 as int;
        if tree.children(p)[0] == i {
            assert(tree.children(p).contains(i as usize));
        } else {
            assert(tree.children(p)[1] == i);
            assert(tree.children(p).contains(i as usize));
        }
    }
}

/// Splitting a pane of a tree gives a tree.
pub proof fn lemma_split_wf(tree: TreeView, leaf: int, orientation: Orientation)
    requires
        tree.wf(),
        tree.is_leaf(leaf),
        tree.nodes.len() + 2 <= usize::MAX,
    ensures
        tree.split(leaf, orientation).wf(),
{
    let after = tree.split(leaf, orientation);
    let first = tree.nodes.len() as int;
    let second = first + 1;
    assert(after.nodes.len() == first + 2);
    assert(after.children(leaf) == seq![first as usize, second as usize]);
    assert(tree.node_ok(leaf));
    assert forall|i: int| after.in_bounds(i) implies #[trigger] after.node_ok(i) by {
        if i == leaf {
            assert(after.names_child(leaf, 0));
            assert(after.names_child(leaf, 1));
            if leaf != 0 {
                let p = tree.parent(leaf)->0 as int;
                assert(after.nodes[p] == tree.nodes[p]);
            }
        } else if i < first {
            assert(tree.node_ok(i));
            assert(after.nodes[i] == tree.nodes[i]);
            if tree.live(i) && i != 0 {
                let p = tree.parent(i)->0 as int;
                assert(after.nodes[p] == tree.nodes[p]);
            }
            if tree.is_branch(i) {
                let c0 = tree.children(i)[0] as int;
                let c1 = tree.children(i)[1] as int;
                assert(tree.names_child(i, 0));
                assert(tree.names_child(i, 1));
                assert(after.nodes[c0].parent == tree.nodes[c0].parent);
                assert(after.nodes[c1].parent == tree.nodes[c1].parent);
                assert(after.names_child(i, 0));
                assert(after.names_child(i, 1));
            }
        }
    }
    assert forall|i: int| #[trigger] after.mark_ok(i) by {
        if i < first && i != leaf {
            assert(tree.mark_ok(i));
        }
        assert(tree.mark_ok(leaf));
    }
}

/// A node does not stand before a node whose subtree it lies in.
pub proof fn lemma_contains_order(tree: TreeView, top: int, node: int)
    requires
        tree.contains(top, node),
    ensures
        top <= node,
    decreases node,
{
    if node != top {
        lemma_contains_order(tree, top, tree.parent(node)->0 as int);
    }
}

/// Of two nodes whose subtrees hold the same node, the one that stands later
/// in the arena lies in the subtree of the other.
pub proof fn lemma_contains_chain(tree: TreeView, upper: int, lower: int, node: int)
    requires
        tree.contains(upper, node),
        tree.contains(lower, node),
        upper <= lower,
    ensures
        tree.contains(upper, lower),
    decreases node,
{
    if node != lower {
        lemma_contains_order(tree, lower, node);
        let above = tree.parent(node)->0 as int;
        lemma_contains_chain(tree, upper, lower, above);
    }
}

/// Going down from a node of the tree ends on a leaf in the subtree of that
/// node.
pub proof fn lemma_descend_leaf(tree: TreeView, start: int, side: int)
    requires
        tree.linked(),
        tree.live(start),
        0 <= side < 2,
    ensures
        tree.is_leaf(tree.descend(start, side)),
        tree.contains(start, tree.descend(start, side)),
    decreases tree.nodes.len() - start,
{
    assert(tree.node_ok(start));
    if tree.is_branch(start) {
        assert(tree.names_child(start, side));
        let child = tree.children(start)[side] as int;
        lemma_descend_leaf(tree, child, side);
        lemma_contains_below(tree, start, child, tree.descend(child, side));
    }
}

/// What lies in the subtree of a child lies in the subtree of its parent.
pub proof fn lemma_contains_below(tree: TreeView, top: int, child: int, node: int)
    requires
        tree.in_bounds(child),
        tree.parent(child) matches Some(p) && p == top,
        top < child,
        tree.contains(child, node),
    ensures
        tree.contains(top, node),
    decreases node,
{
    if node != child {
        lemma_contains_below(tree, top, child, tree.parent(node)->0 as int);
    } else {
        assert(tree.contains(top, top));
    }
}

/// Of the two children of a split, only the one on the way to a node holds
/// that node in its subtree: if `at` is a child of a split and holds `node`,
/// the forward child of the split holds `node` exactly if it is `at`.
pub proof fn lemma_one_child_contains(tree: TreeView, at: int, forward: int, node: int)
    requires
        tree.linked(),
        tree.live(at),
        at != 0,
        tree.contains(at, node),
        0 <= forward < 2,
    ensures
        tree.contains(tree.children(tree.parent(at)->0 as int)[forward] as int, node) <==> tree.children(
            tree.parent(at)->0 as int,
        )[forward] == at,
{
    assert(tree.node_ok(at));
    let p = tree.parent(at)->0 as int;
    assert(tree.node_ok(p));
    assert(tree.names_child(p, forward));
    let candidate = tree.children(p)[forward] as int;
    if candidate != at && tree.contains(candidate, node) {
        if candidate <= at {
            lemma_contains_chain(tree, candidate, at, node);
            assert(tree.contains(candidate, p));
            lemma_contains_order(tree, candidate, p);
        } else {
            lemma_contains_chain(tree, at, candidate, node);
            assert(tree.contains(at, p));
            lemma_contains_order(tree, at, p);
        }
    }
}

/// Setting the focus flag of a pane changes nothing else: the nodes stay
/// linked as they were.
pub proof fn lemma_marked_linked(tree: TreeView, leaf: int, active: bool)
    requires
        tree.linked(),
        tree.is_leaf(leaf),
    ensures
        tree.marked(leaf, active).linked(),
        tree.marked(leaf, active).nodes.len() == tree.nodes.len(),
        forall|i: int|
            tree.in_bounds(i) ==> tree.marked(leaf, active).parent(i) == tree.parent(i),
        forall|i: int|
            tree.in_bounds(i) && i != leaf ==> #[trigger] tree.marked(leaf, active).nodes[i]
                == tree.nodes[i],
        tree.marked(leaf, active).is_leaf(leaf),
        tree.marked(leaf, active).viewport(leaf) == with_active(tree.viewport(leaf), active),
        tree.marked(leaf, active).geometry(leaf) == tree.geometry(leaf),
{
    let after = tree.marked(leaf, active);
    assert forall|i: int| after.in_bounds(i) implies #[trigger] after.node_ok(i) by {
        assert(tree.node_ok(i));
        if tree.live(i) && i != 0 {
            let p = tree.parent(i)->0 as int;
            assert(after.nodes[p] == tree.nodes[p]);
        }
        if tree.is_branch(i) {
            assert(tree.names_child(i, 0));
            assert(tree.names_child(i, 1));
            assert(after.names_child(i, 0));
            assert(after.names_child(i, 1));
        }
    }
}

/// The subtree that `focus` enters is part of the tree.
pub proof fn lemma_focus_target_live(tree: TreeView, from: int, forward: int)
    requires
        tree.linked(),
        tree.live(from),
        0 <= forward < 2,
    ensures
        tree.focus_target(from, forward) matches Some(target) ==> tree.live(target),
    decreases from,
{
    assert(tree.node_ok(from));
    if from != 0 {
        let p = tree.parent(from)->0 as int;
        assert(tree.node_ok(p));
        assert(tree.names_child(p, forward));
        lemma_focus_target_live(tree, p, forward);
    }
}

/// Whether nodes are linked does not depend on where the focus is.
pub proof fn lemma_linked_by_nodes(tree: TreeView, other: TreeView)
    requires
        tree.linked(),
        other.nodes == tree.nodes,
    ensures
        other.linked(),
{
    assert forall|i: int| other.in_bounds(i) implies #[trigger] other.node_ok(i) by {
        assert(tree.node_ok(i));
        if tree.is_branch(i) {
            assert(tree.names_child(i, 0));
            assert(tree.names_child(i, 1));
            assert(other.names_child(i, 0));
            assert(other.names_child(i, 1));
        }
    }
}

/// Moving the focus to a pane of a tree gives a tree.
pub proof fn lemma_refocused_wf(tree: TreeView, leaf: int)
    requires
        tree.wf(),
        tree.is_leaf(leaf),
    ensures
        tree.refocused(leaf).wf(),
{
    let cleared = tree.marked(tree.focus, false);
    lemma_marked_linked(tree, tree.focus, false);
    lemma_marked_linked(cleared, leaf, true);
    let after = tree.refocused(leaf);
    lemma_linked_by_nodes(cleared.marked(leaf, true), after);
    assert(after.live(after.nodes.len() - 1)) by {
        let last = tree.nodes.len() - 1;
        if last != leaf {
            assert(after.nodes[last] == cleared.nodes[last]);
            if last != tree.focus {
                assert(cleared.nodes[last] == tree.nodes[last]);
            }
        }
    }
    assert forall|i: int| #[trigger] after.mark_ok(i) by {
        assert(tree.mark_ok(i));
        if after.is_leaf(i) && i != leaf {
            assert(after.nodes[i] == cleared.nodes[i]);
            if i != tree.focus {
                assert(cleared.nodes[i] == tree.nodes[i]);
            }
        }
    }
}

/// Moving the focus in a direction gives a tree.
pub proof fn lemma_focus_wf(tree: TreeView, direction: usize)
    requires
        tree.wf(),
    ensures
        tree.focus(direction).wf(),
{
    let forward = forward_index(direction);
    lemma_focus_target_live(tree, tree.focus, forward);
    match tree.focus_target(tree.focus, forward) {
        None => {},
        Some(target) => {
            lemma_descend_leaf(tree, target, 1 - forward);
            lemma_refocused_wf(tree, tree.descend(target, 1 - forward));
        },
    }
}

/// After the pane with the focus has left the arena, the nodes are linked, the
/// parent of that pane is part of the tree, and no pane is marked active.
pub proof fn lemma_collapsed(tree: TreeView)
    requires
        tree.wf(),
        tree.parent(tree.focus) is Some,
    ensures
        tree.collapsed().linked(),
        tree.collapsed().nodes.len() == tree.nodes.len(),
        tree.collapsed().live(tree.parent(tree.focus)->0 as int),
        forall|i: int| #[trigger]
            tree.collapsed().is_leaf(i) ==> !tree.collapsed().viewport(i).active,
{
    let closed = tree.focus;
    let above = tree.parent(closed)->0 as int;
    let survivor = tree.sibling(closed);
    assert(tree.node_ok(closed));
    assert(tree.node_ok(above));
    assert(tree.names_child(above, 0));
    assert(tree.names_child(above, 1));
    assert(tree.node_ok(survivor));
    let moved = TreeView {
        nodes: tree.nodes.update(
            above,
            NodeView { pane: tree.nodes[survivor].pane, ..tree.nodes[above] },
        ).update(closed, vacant()).update(survivor, vacant()),
        ..tree
    };
    let after = tree.collapsed();
    assert(after == moved.adopted(above));
    if tree.is_branch(survivor) {
        assert(tree.names_child(survivor, 0));
        assert(tree.names_child(survivor, 1));
        let first = tree.children(survivor)[0] as int;
        let second = tree.children(survivor)[1] as int;
        assert(tree.node_ok(first));
        assert(tree.node_ok(second));
        assert(first != closed && second != closed);
        assert(moved.children(above) == tree.children(survivor));
        assert forall|i: int| after.in_bounds(i) implies #[trigger] after.node_ok(i) by {
            assert(tree.node_ok(i));
            if i == above {
                assert(after.names_child(above, 0));
                assert(after.names_child(above, 1));
                if above != 0 {
                    let higher = tree.parent(above)->0 as int;
                    assert(after.nodes[higher] == tree.nodes[higher]);
                }
            } else if i == first || i == second {
                if tree.is_branch(i) {
                    lemma_children_kept(tree, after, i, above, closed, survivor);
                }
            } else if i != closed && i != survivor {
                assert(after.nodes[i] == tree.nodes[i]);
                if tree.live(i) && i != 0 {
                    let higher = tree.parent(i)->0 as int;
                    assert(higher != above && higher != closed && higher != survivor);
                    assert(after.nodes[higher].pane == tree.nodes[higher].pane);
                }
                if tree.is_branch(i) {
                    lemma_children_kept(tree, after, i, above, closed, survivor);
                }
            }
        }
        assert forall|i: int| #[trigger] after.is_leaf(i) implies !after.viewport(i).active by {
            assert(tree.mark_ok(i));
        }
    } else {
        assert(after == moved);
        assert forall|i: int| after.in_bounds(i) implies #[trigger] after.node_ok(i) by {
            assert(tree.node_ok(i));
            if i == above {
                if above != 0 {
                    let higher = tree.parent(above)->0 as int;
                    assert(after.nodes[higher] == tree.nodes[higher]);
                }
            } else if i != closed && i != survivor {
                assert(after.nodes[i] == tree.nodes[i]);
                if tree.live(i) && i != 0 {
                    let higher = tree.parent(i)->0 as int;
                    assert(higher != above && higher != closed && higher != survivor);
                    assert(after.nodes[higher] == tree.nodes[higher]);
                }
                if tree.is_branch(i) {
                    lemma_children_kept(tree, after, i, above, closed, survivor);
                }
            }
        }
        assert forall|i: int| #[trigger] after.is_leaf(i) implies !after.viewport(i).active by {
            assert(tree.mark_ok(i));
            assert(tree.mark_ok(survivor));
        }
    }
}

/// A split that keeps its children through a change of the arena still has
/// them as its children: they are not among the nodes that the change vacates,
/// and every other node keeps its content and, unless it is a child of the
/// vacated `survivor`, its parent.
proof fn lemma_children_kept(
    tree: TreeView,
    after: TreeView,
    b: int,
    above: int,
    closed: int,
    survivor: int,
)
    requires
        tree.linked(),
        tree.is_branch(b),
        b != above,
        b != survivor,
        after.nodes.len() == tree.nodes.len(),
        after.nodes[b].pane == tree.nodes[b].pane,
        tree.parent(closed) matches Some(p) && p == above,
        tree.parent(survivor) matches Some(p) && p == above,
        tree.live(closed),
        tree.live(survivor),
        forall|i: int|
            tree.in_bounds(i) && i != closed && i != survivor && i != above ==> (
            #[trigger] after.nodes[i]).pane == tree.nodes[i].pane,
        forall|i: int|
            tree.in_bounds(i) && i != closed && i != survivor && tree.parent(i) != Some(
                survivor as usize,
            ) ==> (#[trigger] after.nodes[i]).parent == tree.nodes[i].parent,
        after.live(above),
    ensures
        after.branch_ok(b),
{
    assert(tree.node_ok(b));
    assert(tree.names_child(b, 0));
    assert(tree.names_child(b, 1));
    let first = tree.children(b)[0] as int;
    let second = tree.children(b)[1] as int;
    assert(after.nodes[first].parent == tree.nodes[first].parent);
    assert(after.nodes[second].parent == tree.nodes[second].parent);
    assert(after.names_child(b, 0));
    assert(after.names_child(b, 1));
}

/// Dropping the vacant nodes at the end of a linked arena leaves every other
/// node where and as it was, and the nodes linked; the last node that stays is
/// part of the tree.
pub proof fn lemma_trimmed(tree: TreeView)
    requires
        tree.linked(),
    ensures
        0 < trimmed(tree.nodes).len() <= tree.nodes.len(),
        trimmed(tree.nodes) == tree.nodes.take(trimmed(tree.nodes).len() as int),
        forall|i: int|
            trimmed(tree.nodes).len() <= i < tree.nodes.len() ==> !#[trigger] tree.live(i),
        (TreeView { nodes: trimmed(tree.nodes), ..tree }).wf_shape(),
    decreases tree.nodes.len(),
{
    let last = tree.nodes.len() - 1;
    if tree.nodes.last().pane is Vacant {
        let shorter = TreeView { nodes: tree.nodes.drop_last(), ..tree };
        assert forall|i: int| shorter.in_bounds(i) implies #[trigger] shorter.node_ok(i) by {
            assert(tree.node_ok(i));
            if tree.is_branch(i) {
                assert(tree.names_child(i, 0));
                assert(tree.names_child(i, 1));
                assert(shorter.names_child(i, 0));
                assert(shorter.names_child(i, 1));
            }
        }
        lemma_trimmed(shorter);
        let kept = trimmed(tree.nodes).len() as int;
        assert(trimmed(tree.nodes) =~= tree.nodes.take(kept));
        assert forall|i: int| kept <= i < tree.nodes.len() implies !#[trigger] tree.live(i) by {
            if i < last {
                assert(!shorter.live(i));
            }
        }
        lemma_linked_by_nodes(
            TreeView { nodes: trimmed(shorter.nodes), ..shorter },
            TreeView { nodes: trimmed(tree.nodes), ..tree },
        );
    } else {
        assert(trimmed(tree.nodes) =~= tree.nodes.take(tree.nodes.len() as int));
        lemma_linked_by_nodes(tree, TreeView { nodes: trimmed(tree.nodes), ..tree });
    }
}

/// Closing the pane that has the focus gives a tree.
pub proof fn lemma_destroy_wf(tree: TreeView)
    requires
        tree.wf(),
    ensures
        tree.destroy().wf(),
{
    match tree.parent(tree.focus) {
        None => {},
        Some(above) => {
            let moved = tree.collapsed();
            lemma_collapsed(tree);
            let target = moved.descend(above as int, 1);
            lemma_descend_leaf(moved, above as int, 1);
            let focused = moved.marked(target, true);
            lemma_marked_linked(moved, target, true);
            lemma_trimmed(focused);
            let after = tree.destroy();
            lemma_linked_by_nodes(TreeView { nodes: trimmed(focused.nodes), ..focused }, after);
            assert(focused.live(target));
            assert forall|i: int| #[trigger] after.mark_ok(i) by {
                if after.is_leaf(i) && i != target {
                    assert(after.nodes[i] == focused.nodes[i]);
                    assert(focused.nodes[i] == moved.nodes[i]);
                    assert(moved.is_leaf(i));
                }
            }
        },
    }
}

/// Closing the root pane changes nothing, and so does moving the focus in a
/// tree of one pane.
pub proof fn lemma_last_pane_stays(tree: TreeView, direction: usize)
    requires
        tree.wf(),
        tree.focus == 0,
    ensures
        tree.destroy() == tree,
        tree.focus(direction) == tree,
{
    assert(tree.node_ok(0));
}

/// Splitting the pane that has the focus and closing the new pane with the
/// focus right away gives back the tree: the same nodes with the same
/// viewports, the focus where it was. Only the place of the pane on the
/// screen is that of a pane not yet laid out.
pub proof fn lemma_split_destroy(tree: TreeView, leaf: int, orientation: Orientation)
    requires
        tree.wf(),
        tree.is_leaf(leaf),
        tree.focus == leaf,
        tree.nodes.len() + 2 <= usize::MAX,
    ensures
        tree.split(leaf, orientation).destroy() == (TreeView {
            nodes: tree.nodes.update(
                leaf,
                as_leaf(tree.nodes[leaf], tree.viewport(leaf), fresh_geometry()),
            ),
            focus: leaf,
        }),
{
    let halved = tree.split(leaf, orientation);
    let first = tree.nodes.len() as int;
    let second = first + 1;
    lemma_split_wf(tree, leaf, orientation);
    assert(tree.mark_ok(leaf));
    assert(halved.children(leaf) == seq![first as usize, second as usize]);
    assert(halved.focus == first);
    assert(halved.parent(first) == Some(leaf as usize));
    assert(halved.sibling(first) == second);
    let moved = halved.collapsed();
    assert(moved.is_leaf(leaf));
    assert(moved.descend(leaf, 1) == leaf);
    let focused = moved.marked(leaf, true);
    let expected = tree.nodes.update(
        leaf,
        as_leaf(tree.nodes[leaf], tree.viewport(leaf), fresh_geometry()),
    );
    assert(with_active(with_active(tree.viewport(leaf), false), true) == tree.viewport(leaf));
    assert(focused.nodes =~= expected.push(vacant()).push(vacant()));
    assert(expected.push(vacant()).push(vacant()).drop_last() =~= expected.push(vacant()));
    assert(expected.push(vacant()).drop_last() =~= expected);
    assert(trimmed(expected) == expected) by {
        let last = tree.nodes.len() - 1;
        assert(tree.live(last));
    }
    assert(trimmed(expected.push(vacant())) == expected);
    assert(trimmed(focused.nodes) == expected);
}

/// What lies below a split lies in the subtree of one of its children.
pub proof fn lemma_contains_child(tree: TreeView, top: int, node: int)
    requires
        tree.linked(),
        tree.contains(top, node),
        node != top,
    ensures
        tree.is_branch(top),
        tree.contains(tree.children(top)[0] as int, node) || tree.contains(
            tree.children(top)[1] as int,
            node,
        ),
    decreases node,
{
    assert(tree.node_ok(node));
    let above = tree.parent(node)->0 as int;
    if above != top {
        lemma_contains_child(tree, top, above);
        let first = tree.children(top)[0] as int;
        if tree.contains(first, above) {
            assert(tree.contains(first, node));
        } else {
            assert(tree.contains(tree.children(top)[1] as int, node));
        }
    }
}

/// The way down from a node of a tree stays in the arena, also where the
/// nodes name other parents than in the tree.
pub proof fn lemma_downward(tree: TreeView, fixed: TreeView, top: int)
    requires
        fixed.linked(),
        fixed.live(top),
        tree.same_panes(fixed),
    ensures
        tree.downward(top),
    decreases tree.nodes.len() - top,
{
    assert(fixed.node_ok(top));
    assert(tree.nodes[top].pane == fixed.nodes[top].pane);
    if fixed.is_branch(top) {
        assert(fixed.names_child(top, 0));
        assert(fixed.names_child(top, 1));
        lemma_downward(tree, fixed, fixed.children(top)[0] as int);
        lemma_downward(tree, fixed, fixed.children(top)[1] as int);
    }
}

/// The way down from a node and the parents that a pass down from it gives
/// depend on the content of the nodes alone.
pub proof fn lemma_pass_by_panes(tree: TreeView, other: TreeView, top: int, i: int)
    requires
        tree.same_panes(other),
        tree.in_bounds(top),
    ensures
        tree.downward(top) == other.downward(top),
        tree.rewritten(top, i) == other.rewritten(top, i),
    decreases tree.nodes.len() - top,
{
    assert(tree.nodes[top].pane == other.nodes[top].pane);
    if tree.is_branch(top) && tree.children(top).len() == 2 && top < tree.children(top)[0]
        < tree.nodes.len() && top < tree.children(top)[1] < tree.nodes.len() {
        lemma_pass_by_panes(tree, other, tree.children(top)[0] as int, i);
        lemma_pass_by_panes(tree, other, tree.children(top)[1] as int, i);
    }
}

/// The parent that a pass down from `top` gives a node is a split on the way
/// down from `top` that has the node as one of its children. The pass gives
/// no parent to `top` itself nor to a node before it.
pub proof fn lemma_rewritten_holder(tree: TreeView, top: int, i: int)
    requires
        tree.rewritten(top, i) is Some,
    ensures
        tree.reaches(top, tree.rewritten(top, i)->0 as int),
        tree.is_branch(tree.rewritten(top, i)->0 as int),
        tree.children(tree.rewritten(top, i)->0 as int).len() == 2,
        tree.children(tree.rewritten(top, i)->0 as int)[0] == i || tree.children(
            tree.rewritten(top, i)->0 as int,
        )[1] == i,
        top <= tree.rewritten(top, i)->0 < i,
    decreases tree.nodes.len() - top,
{
    let first = tree.children(top)[0] as int;
    let second = tree.children(top)[1] as int;
    if tree.rewritten(second, i) is Some {
        lemma_rewritten_holder(tree, second, i);
    } else if tree.rewritten(first, i) is Some {
        lemma_rewritten_holder(tree, first, i);
    }
}

/// A pass down from `top` gives a parent to every child of every split that
/// the way down from `top` comes to.
pub proof fn lemma_rewritten_reached(tree: TreeView, top: int, split: int, k: int)
    requires
        tree.downward(top),
        tree.reaches(top, split),
        tree.is_branch(split),
        0 <= k < 2,
    ensures
        tree.children(split).len() == 2,
        tree.rewritten(top, tree.children(split)[k] as int) is Some,
    decreases tree.nodes.len() - top,
{
    if split != top {
        let first = tree.children(top)[0] as int;
        let second = tree.children(top)[1] as int;
        if tree.reaches(first, split) {
            lemma_rewritten_reached(tree, first, split, k);
        } else {
            lemma_rewritten_reached(tree, second, split, k);
        }
    }
}

/// In an arena that holds the content of a tree, a pass down from `top` gives
/// a parent to exactly the nodes that lie below `top` in the tree, and gives
/// each the parent that it has in the tree.
pub proof fn lemma_rewritten(tree: TreeView, fixed: TreeView, top: int, i: int)
    requires
        fixed.linked(),
        fixed.live(top),
        tree.same_panes(fixed),
    ensures
        tree.rewritten(top, i) is Some <==> fixed.contains(top, i) && i != top,
        tree.rewritten(top, i) is Some ==> tree.rewritten(top, i) == fixed.parent(i),
    decreases tree.nodes.len() - top,
{
    assert(fixed.node_ok(top));
    assert(tree.nodes[top].pane == fixed.nodes[top].pane);
    if fixed.is_branch(top) {
        assert(fixed.names_child(top, 0));
        assert(fixed.names_child(top, 1));
        let first = fixed.children(top)[0] as int;
        let second = fixed.children(top)[1] as int;
        lemma_rewritten(tree, fixed, first, i);
        lemma_rewritten(tree, fixed, second, i);
        if fixed.contains(first, i) {
            lemma_contains_below(fixed, top, first, i);
            lemma_contains_order(fixed, first, i);
        }
        if fixed.contains(second, i) {
            lemma_contains_below(fixed, top, second, i);
            lemma_contains_order(fixed, second, i);
        }
        if fixed.contains(top, i) && i != top {
            lemma_contains_child(fixed, top, i);
        }
    } else {
        if fixed.contains(top, i) && i != top {
            lemma_contains_child(fixed, top, i);
        }
    }
}

/// A pass down from a node sets right all that is stale below it: an arena
/// that holds the content of a tree, and whose nodes name the parents that
/// they have in the tree except for the nodes below `top`, is that tree after
/// the pass.
pub proof fn lemma_reparented(tree: TreeView, fixed: TreeView, top: int)
    requires
        fixed.linked(),
        fixed.live(top),
        tree.same_panes(fixed),
        tree.focus == fixed.focus,
        forall|i: int|
            fixed.in_bounds(i) && !(fixed.contains(top, i) && i != top) ==> (
            #[trigger] tree.nodes[i]).parent == fixed.nodes[i].parent,
    ensures
        tree.reparented(top) == fixed,
        tree.reparented(top).linked(),
{
    let after = tree.reparented(top);
    assert forall|i: int| 0 <= i < fixed.nodes.len() implies after.nodes[i] == fixed.nodes[i] by {
        lemma_rewritten(tree, fixed, top, i);
        assert(tree.nodes[i].pane == fixed.nodes[i].pane);
        assert(tree.nodes[i].parent == fixed.nodes[i].parent || (fixed.contains(top, i) && i
            != top));
    }
    assert(after.nodes =~= fixed.nodes);
}

/// In a tree every child names its parent already: a pass down from a node
/// changes nothing, and neither does rewriting the parents of its children.
pub proof fn lemma_adopted_same(tree: TreeView, node: int)
    requires
        tree.linked(),
        tree.in_bounds(node),
    ensures
        tree.adopted(node) == tree,
        tree.reparented(node) == tree,
{
    assert(tree.node_ok(node));
    if tree.is_branch(node) {
        assert(tree.names_child(node, 0));
        assert(tree.names_child(node, 1));
        assert(tree.adopted(node).nodes =~= tree.nodes);
    }
    if tree.live(node) {
        lemma_reparented(tree, tree, node);
    } else {
        assert(tree.reparented(node).nodes =~= tree.nodes);
    }
}

/// After a split exactly one pane is active, whatever the size of the arena.
pub proof fn lemma_split_one_active(tree: TreeView, leaf: int, orientation: Orientation)
    requires
        tree.wf(),
        tree.is_leaf(leaf),
    ensures
        tree.split(leaf, orientation).wf_focus(),
        active_panes(tree.split(leaf, orientation)) == set![tree.split(leaf, orientation).focus],
{
    let after = tree.split(leaf, orientation);
    let first = tree.nodes.len() as int;
    assert forall|i: int| #[trigger] after.mark_ok(i) by {
        if i < first && i != leaf {
            assert(tree.mark_ok(i));
        }
        assert(tree.mark_ok(leaf));
    }
    assert(after.mark_ok(after.focus));
    assert forall|i: int| active_panes(after).contains(i) == (i == after.focus) by {
        assert(after.mark_ok(i));
    }
    assert(active_panes(after) =~= set![after.focus]);
}

/// Laying out a tree changes the places of its panes on the screen and
/// nothing else, so it gives a tree.
pub proof fn lemma_laid_out_wf(tree: TreeView, screen: Rect)
    requires
        tree.wf(),
    ensures
        tree.laid_out(screen).wf(),
        tree.laid_out(screen).nodes.len() == tree.nodes.len(),
{
    let after = tree.laid_out(screen);
    assert forall|i: int| after.in_bounds(i) implies #[trigger] after.node_ok(i) by {
        assert(tree.node_ok(i));
        if tree.is_branch(i) {
            assert(tree.names_child(i, 0));
            assert(tree.names_child(i, 1));
            assert(after.names_child(i, 0));
            assert(after.names_child(i, 1));
        }
    }
    assert forall|i: int| #[trigger] after.mark_ok(i) by {
        assert(tree.mark_ok(i));
    }
}

/// The rectangles of a laid-out tree lie within the screen and divide it: the
/// root gets the screen, and the children of a split get the parts of the
/// rectangle of the split, which lie within it.
pub proof fn lemma_rect_of(tree: TreeView, i: int, screen: Rect)
    requires
        tree.wf(),
        tree.live(i),
        screen.wf(),
    ensures
        tree.rect_of(i, screen).wf(),
        screen.holds(tree.rect_of(i, screen)),
        i == 0 ==> tree.rect_of(i, screen) == screen,
        tree.parent(i) matches Some(p) ==> tree.rect_of(i, screen) == tree.rect_of(
            p as int,
            screen,
        ).child(tree.orientation(p as int), 2, tree.position(i)) && tree.rect_of(
            p as int,
            screen,
        ).holds(tree.rect_of(i, screen)),
    decreases i,
{
    assert(tree.node_ok(i));
    if i != 0 {
        let p = tree.parent(i)->0 as int;
        lemma_rect_of(tree, p, screen);
        lemma_child_within(tree.rect_of(p, screen), tree.orientation(p), 2, tree.position(i));
    }
}

/// The part that a child gets of a rectangle lies within the rectangle.
pub proof fn lemma_child_within(rect: Rect, orientation: Orientation, n: int, k: int)
    requires
        rect.wf(),
        n >= 1,
        0 <= k < n,
    ensures
        rect.child(orientation, n, k).wf(),
        rect.holds(rect.child(orientation, n, k)),
{
    let total = match orientation {
        Orientation::Horizontal => rect.width as int,
        Orientation::Vertical => rect.height as int,
    };
    assert(total == n * (total / n) + total % n && 0 <= total % n < n && 0 <= total / n)
        by (nonlinear_arith)
        requires
            total >= 0,
            n >= 1,
    ;
    assert(0 <= (total / n) * k && (total / n) * k + total / n <= n * (total / n))
        by (nonlinear_arith)
        requires
            0 <= k < n,
            0 <= total / n,
    ;
}

/// Showing another viewport in the pane with the focus gives a tree.
pub proof fn lemma_showing_wf(tree: TreeView, viewport: ViewportView)
    requires
        tree.wf(),
    ensures
        tree.showing(viewport).wf(),
{
    let after = tree.showing(viewport);
    assert forall|i: int| after.in_bounds(i) implies #[trigger] after.node_ok(i) by {
        assert(tree.node_ok(i));
        if tree.is_branch(i) {
            assert(tree.names_child(i, 0));
            assert(tree.names_child(i, 1));
            assert(after.names_child(i, 0));
            assert(after.names_child(i, 1));
        }
    }
    assert forall|i: int| #[trigger] after.mark_ok(i) by {
        assert(tree.mark_ok(i));
    }
}

} // verus!
