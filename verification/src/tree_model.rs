//! The window tree as a mathematical value: an arena of nodes that refer to
//! one another by index, and the operations on it.
//!
//! Node 0 is the root. A split keeps the index of the leaf that it divides and
//! puts the two new leaves at the end of the arena, so every node has a higher
//! index than its parent. Closing a pane leaves two nodes vacant; vacant nodes
//! at the end of the arena are dropped, the others stay where they are, so
//! that no index changes its meaning.

use vstd::prelude::*;
use crate::layout::{Orientation, Rect};
use crate::window::ViewportView;

verus! {

/// What a node of the arena holds.
pub enum PaneView {
    /// Nothing: the node is not part of the tree.
    Vacant,
    /// One pane.
    Leaf { viewport: ViewportView, geometry: Rect },
    /// A split between two children, given by their indices.
    Branch { orientation: Orientation, children: Seq<usize> },
}

/// A node of the arena: its content and the index of its parent.
pub struct NodeView {
    pub parent: Option<usize>,
    pub pane: PaneView,
}

/// The arena and the index of the leaf that has the focus.
pub struct TreeView {
    pub nodes: Seq<NodeView>,
    pub focus: int,
}

/// The direction of `focus` that counts the first child of a split as forward.
pub const WEST: usize = 4;

/// The geometry of a pane that no layout has placed yet.
pub open spec fn fresh_geometry() -> Rect {
    Rect { x: 0, y: 0, width: 1, height: 1 }
}

/// A node that is not part of the tree.
pub open spec fn vacant() -> NodeView {
    NodeView { parent: None, pane: PaneView::Vacant }
}

/// `viewport` with its focus flag set to `active`.
pub open spec fn with_active(viewport: ViewportView, active: bool) -> ViewportView {
    ViewportView { active, ..viewport }
}

/// `node` as a leaf that shows `viewport` in the rectangle `geometry`.
pub open spec fn as_leaf(node: NodeView, viewport: ViewportView, geometry: Rect) -> NodeView {
    NodeView { pane: PaneView::Leaf { viewport, geometry }, ..node }
}

/// `node` with `parent` as the parent that it names.
pub open spec fn with_parent(node: NodeView, parent: usize) -> NodeView {
    NodeView { parent: Some(parent), ..node }
}

/// `nodes` without the vacant nodes at its end.
pub open spec fn trimmed(nodes: Seq<NodeView>) -> Seq<NodeView>
    decreases nodes.len(),
{
    if nodes.len() > 0 && nodes.last().pane is Vacant {
        trimmed(nodes.drop_last())
    } else {
        nodes
    }
}

/// The index of the child of a split that counts as forward for `direction`:
/// the first child for `WEST`, the second for every other direction.
pub open spec fn forward_index(direction: usize) -> int {
    if direction == WEST {
        0
    } else {
        1
    }
}

impl TreeView {
    /// Whether the arena has a node `i`.
    pub open spec fn in_bounds(self, i: int) -> bool {
        0 <= i < self.nodes.len()
    }

    /// Whether node `i` is part of the tree.
    pub open spec fn live(self, i: int) -> bool {
        self.in_bounds(i) && !(self.nodes[i].pane is Vacant)
    }

    /// Whether node `i` is a pane.
    pub open spec fn is_leaf(self, i: int) -> bool {
        self.in_bounds(i) && self.nodes[i].pane is Leaf
    }

    /// Whether node `i` is a split.
    pub open spec fn is_branch(self, i: int) -> bool {
        self.in_bounds(i) && self.nodes[i].pane is Branch
    }

    /// The parent that node `i` names.
    pub open spec fn parent(self, i: int) -> Option<usize> {
        self.nodes[i].parent
    }

    /// The children of the split `i`.
    pub open spec fn children(self, i: int) -> Seq<usize> {
        self.nodes[i].pane->children
    }

    /// The direction in which the split `i` lays out its children.
    pub open spec fn orientation(self, i: int) -> Orientation {
        self.nodes[i].pane->orientation
    }

    /// What the pane `i` shows.
    pub open spec fn viewport(self, i: int) -> ViewportView {
        self.nodes[i].pane->viewport
    }

    /// Where the pane `i` stands on the screen.
    pub open spec fn geometry(self, i: int) -> Rect {
        self.nodes[i].pane->geometry
    }

    /// Node `i` names a split before it in the arena as its parent, and that
    /// split names it as one of its two children.
    pub open spec fn child_ok(self, i: int) -> bool {
        &&& self.parent(i) matches Some(p)
        &&& p < i
        &&& self.is_branch(p as int)
        &&& self.children(p as int).len() == 2
        &&& (self.children(p as int)[0] == i || self.children(p as int)[1] == i)
    }

    /// Child number `k` of the split `b` is part of the tree, stands after `b`
    /// in the arena and names `b` as its parent.
    pub open spec fn names_child(self, b: int, k: int) -> bool {
        let child = self.children(b)[k];
        &&& b < child
        &&& self.live(child as int)
        &&& self.parent(child as int) == Some(b as usize)
    }

    /// The split `b` has two different children that name it as their parent.
    pub open spec fn branch_ok(self, b: int) -> bool {
        &&& self.children(b).len() == 2
        &&& self.children(b)[0] != self.children(b)[1]
        &&& self.names_child(b, 0)
        &&& self.names_child(b, 1)
    }

    /// Node `i` is linked as its kind asks: a vacant node names no parent, the
    /// root neither, every other node is a child of its parent, and a split has
    /// its two children.
    pub open spec fn node_ok(self, i: int) -> bool {
        &&& self.nodes[i].pane is Vacant ==> self.parent(i) is None
        &&& self.live(i) ==> if i == 0 {
            self.parent(i) is None
        } else {
            self.child_ok(i)
        }
        &&& self.is_branch(i) ==> self.branch_ok(i)
    }

    /// The nodes form a tree with node 0 as its root, in which parents and
    /// children name each other.
    pub open spec fn linked(self) -> bool {
        &&& self.nodes.len() <= usize::MAX
        &&& self.live(0)
        &&& forall|i: int| self.in_bounds(i) ==> #[trigger] self.node_ok(i)
    }

    /// The nodes form a tree, and the last node of the arena is part of it.
    pub open spec fn wf_shape(self) -> bool {
        self.linked() && self.live(self.nodes.len() - 1)
    }

    /// Leaf `i` is marked active if and only if it has the focus.
    pub open spec fn mark_ok(self, i: int) -> bool {
        self.is_leaf(i) ==> (self.viewport(i).active <==> i == self.focus)
    }

    /// The focus is on a leaf, and that leaf is the only one whose viewport is
    /// marked active.
    pub open spec fn wf_focus(self) -> bool {
        &&& self.is_leaf(self.focus)
        &&& forall|i: int| #[trigger] self.mark_ok(i)
    }

    /// The nodes form a tree in which exactly one pane has the focus.
    pub open spec fn wf(self) -> bool {
        self.wf_shape() && self.wf_focus()
    }

    /// Whether `node` lies in the subtree of `top`: it is `top` or has `top`
    /// among its ancestors.
    pub open spec fn contains(self, top: int, node: int) -> bool
        decreases node,
    {
        node == top || (self.in_bounds(node) && match self.parent(node) {
            Some(p) => p < node && self.contains(top, p as int),
            None => false,
        })
    }

    /// The other child of the parent of `i`.
    pub open spec fn sibling(self, i: int) -> int {
        let children = self.children(self.parent(i)->0 as int);
        if children[0] == i {
            children[1] as int
        } else {
            children[0] as int
        }
    }

    /// Which child of its parent `i` is.
    pub open spec fn position(self, i: int) -> int {
        if self.children(self.parent(i)->0 as int)[0] == i {
            0
        } else {
            1
        }
    }

    /// The leaf that is reached from `start` by going to child number `side`
    /// at every split.
    pub open spec fn descend(self, start: int, side: int) -> int
        decreases self.nodes.len() - start,
    {
        if self.is_branch(start) && 0 <= side < self.children(start).len() && start
            < self.children(start)[side] < self.nodes.len() {
            self.descend(self.children(start)[side] as int, side)
        } else {
            start
        }
    }

    /// The tree with the focus flag of leaf `i` set to `active`.
    pub open spec fn marked(self, i: int, active: bool) -> TreeView {
        TreeView {
            nodes: self.nodes.update(
                i,
                as_leaf(self.nodes[i], with_active(self.viewport(i), active), self.geometry(i)),
            ),
            ..self
        }
    }

    /// The tree in which the pane with the focus shows `viewport`, marked
    /// active.
    pub open spec fn showing(self, viewport: ViewportView) -> TreeView {
        TreeView {
            nodes: self.nodes.update(
                self.focus,
                as_leaf(
                    self.nodes[self.focus],
                    with_active(viewport, true),
                    self.geometry(self.focus),
                ),
            ),
            ..self
        }
    }

    /// The tree with the focus moved to `leaf`.
    pub open spec fn refocused(self, leaf: int) -> TreeView {
        TreeView { focus: leaf, ..self.marked(self.focus, false).marked(leaf, true) }
    }

    /// The tree after leaf `leaf` has been split: the leaf is a split with two
    /// new leaves at the end of the arena. Both show what the leaf showed. The
    /// first has its geometry and its focus flag, the second is without focus
    /// and has the geometry of a pane not yet placed.
    pub open spec fn split(self, leaf: int, orientation: Orientation) -> TreeView {
        let first = self.nodes.len();
        let viewport = self.viewport(leaf);
        TreeView {
            nodes: self.nodes.update(
                leaf,
                NodeView {
                    pane: PaneView::Branch {
                        orientation,
                        children: seq![first as usize, (first + 1) as usize],
                    },
                    ..self.nodes[leaf]
                },
            ).push(
                NodeView {
                    parent: Some(leaf as usize),
                    pane: PaneView::Leaf { viewport, geometry: self.geometry(leaf) },
                },
            ).push(
                NodeView {
                    parent: Some(leaf as usize),
                    pane: PaneView::Leaf {
                        viewport: with_active(viewport, false),
                        geometry: fresh_geometry(),
                    },
                },
            ),
            focus: if self.focus == leaf {
                first as int
            } else {
                self.focus
            },
        }
    }

    /// The arena in which the children of node `p`, if it is a split, name `p`
    /// as their parent.
    pub open spec fn adopted(self, p: int) -> TreeView {
        if self.is_branch(p) && self.children(p).len() == 2 {
            let first = self.children(p)[0] as int;
            let second = self.children(p)[1] as int;
            TreeView {
                nodes: self.nodes.update(
                    first,
                    NodeView { parent: Some(p as usize), ..self.nodes[first] },
                ).update(second, NodeView { parent: Some(p as usize), ..self.nodes[second] }),
                ..self
            }
        } else {
            self
        }
    }

    /// Whether the two arenas hold the same content node by node, whatever
    /// parents their nodes name.
    pub open spec fn same_panes(self, other: TreeView) -> bool {
        &&& self.nodes.len() == other.nodes.len()
        &&& forall|i: int| 0 <= i < self.nodes.len() ==> (#[trigger] self.nodes[i]).pane
            == other.nodes[i].pane
    }

    /// Whether the way down from `top` stays in the arena: every split that is
    /// reached from `top` through the children of splits has two children,
    /// which stand after it in the arena.
    pub open spec fn downward(self, top: int) -> bool
        decreases self.nodes.len() - top,
    {
        &&& self.in_bounds(top)
        &&& self.is_branch(top) ==> {
            &&& self.children(top).len() == 2
            &&& top < self.children(top)[0] < self.nodes.len()
            &&& top < self.children(top)[1] < self.nodes.len()
            &&& self.downward(self.children(top)[0] as int)
            &&& self.downward(self.children(top)[1] as int)
        }
    }

    /// Whether the way down from `top` through the children of splits comes to
    /// `node`.
    pub open spec fn reaches(self, top: int, node: int) -> bool
        decreases self.nodes.len() - top,
    {
        node == top || (self.is_branch(top) && self.children(top).len() == 2 && top
            < self.children(top)[0] < self.nodes.len() && top < self.children(top)[1]
            < self.nodes.len() && (self.reaches(self.children(top)[0] as int, node)
            || self.reaches(self.children(top)[1] as int, node)))
    }

    /// The parent that a pass down from `top` gives node `i`: the split among
    /// those reached from `top` that has `i` as a child, and if there are
    /// several the one that the pass comes to last. `None` if the pass does not
    /// come to a split with that child.
    pub open spec fn rewritten(self, top: int, i: int) -> Option<usize>
        decreases self.nodes.len() - top,
    {
        if self.is_branch(top) && self.children(top).len() == 2 && top < self.children(top)[0]
            < self.nodes.len() && top < self.children(top)[1] < self.nodes.len() {
            let first = self.children(top)[0] as int;
            let second = self.children(top)[1] as int;
            if self.rewritten(second, i) is Some {
                self.rewritten(second, i)
            } else if self.rewritten(first, i) is Some {
                self.rewritten(first, i)
            } else if i == first || i == second {
                Some(top as usize)
            } else {
                None
            }
        } else {
            None
        }
    }

    /// The arena after a pass down from `top` that makes every child of every
    /// split on the way name that split as its parent.
    pub open spec fn reparented(self, top: int) -> TreeView {
        TreeView {
            nodes: Seq::new(
                self.nodes.len(),
                |i: int|
                    match self.rewritten(top, i) {
                        Some(p) => with_parent(self.nodes[i], p),
                        None => self.nodes[i],
                    },
            ),
            ..self
        }
    }

    /// The arena after the pane with the focus has left it, where that pane
    /// has a parent: the parent has become what the other child was, a leaf or
    /// a split over that child's children, and the two children are vacant.
    pub open spec fn collapsed(self) -> TreeView {
        let above = self.parent(self.focus)->0 as int;
        let survivor = self.sibling(self.focus);
        TreeView {
            nodes: self.nodes.update(
                above,
                NodeView { pane: self.nodes[survivor].pane, ..self.nodes[above] },
            ).update(self.focus, vacant()).update(survivor, vacant()),
            ..self
        }.adopted(above)
    }

    /// The tree after the pane with the focus has been closed. Its parent takes
    /// the place of the other child. The focus goes to the leaf that is
    /// reached from there through the last child of every split. Vacant nodes
    /// at the end of the arena are dropped. The root pane is not closed.
    pub open spec fn destroy(self) -> TreeView {
        match self.parent(self.focus) {
            None => self,
            Some(above) => {
                let moved = self.collapsed();
                let target = moved.descend(above as int, 1);
                TreeView { nodes: trimmed(moved.marked(target, true).nodes), focus: target }
            },
        }
    }

    /// The subtree that `focus` enters, found by going up from `from`: the
    /// forward child of the first ancestor whose forward child does not hold
    /// the pane with the focus. `None` if there is no such ancestor.
    pub open spec fn focus_target(self, from: int, forward: int) -> Option<int>
        decreases from,
    {
        if self.in_bounds(from) {
            match self.parent(from) {
                Some(p) => if p < from {
                    let candidate = self.children(p as int)[forward] as int;
                    if !self.contains(candidate, self.focus) {
                        Some(candidate)
                    } else {
                        self.focus_target(p as int, forward)
                    }
                } else {
                    None
                },
                None => None,
            }
        } else {
            None
        }
    }

    /// The tree after the focus has moved in `direction`: into the subtree
    /// found by `focus_target`, down to the leaf on its near edge. Unchanged if
    /// there is no such subtree.
    pub open spec fn focus(self, direction: usize) -> TreeView {
        let forward = forward_index(direction);
        match self.focus_target(self.focus, forward) {
            None => self,
            Some(target) => self.refocused(self.descend(target, 1 - forward)),
        }
    }

    /// The rectangle that node `i` gets when the root gets `screen`.
    pub open spec fn rect_of(self, i: int, screen: Rect) -> Rect
        decreases i,
    {
        if i > 0 && self.in_bounds(i) {
            match self.parent(i) {
                Some(p) => if p < i {
                    self.rect_of(p as int, screen).child(
                        self.orientation(p as int),
                        self.children(p as int).len() as int,
                        self.position(i),
                    )
                } else {
                    screen
                },
                None => screen,
            }
        } else {
            screen
        }
    }

    /// The tree with every leaf placed, the root filling `screen`.
    pub open spec fn laid_out(self, screen: Rect) -> TreeView {
        TreeView {
            nodes: Seq::new(
                self.nodes.len(),
                |i: int|
                    if self.is_leaf(i) {
                        as_leaf(self.nodes[i], self.viewport(i), self.rect_of(i, screen))
                    } else {
                        self.nodes[i]
                    },
            ),
            ..self
        }
    }
}

} // verus!
