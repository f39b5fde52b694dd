//! The window tree: panes that split the screen between them, one of which has
//! the focus.

use vstd::prelude::*;
use crate::buffer::Buffer;
use crate::layout::{Orientation, Rect};
use crate::render::{
    all_wf, file_name_of, frames, path_file_name, render_pane, shows_buffers, shows_named, Frame,
};
use crate::tree_model::{
    as_leaf, fresh_geometry, trimmed, vacant, with_active, NodeView, PaneView, TreeView, WEST,
};
use crate::tree_laws::{
    lemma_adopted_same, lemma_collapsed, lemma_contains_below, lemma_descend_leaf,
    lemma_destroy_wf, lemma_downward, lemma_pass_by_panes, lemma_reparented, lemma_focus_target_live, lemma_focus_wf, lemma_laid_out_wf,
    lemma_one_active, lemma_one_child_contains, lemma_rect_of, lemma_showing_wf, lemma_split_wf,
};
use crate::window::Viewport;

verus! {

enum Pane {
    Vacant,
    Leaf { viewport: Viewport, geometry: Rect },
    Branch { orientation: Orientation, children: Vec<usize> },
}

struct Node {
    parent: Option<usize>,
    pane: Pane,
}

/// A tree of panes. Its nodes are held in an arena and name each other by
/// index; node 0 is the root.
pub struct WindowTree {
    nodes: Vec<Node>,
    focus: usize,
}

impl View for Pane {
    type V = PaneView;

    closed spec fn view(&self) -> PaneView {
        match *self {
            Pane::Vacant => PaneView::Vacant,
            Pane::Leaf { viewport, geometry } => PaneView::Leaf { viewport: viewport@, geometry },
            Pane::Branch { orientation, children } => PaneView::Branch {
                orientation,
                children: children@,
            },
        }
    }
}

impl View for Node {
    type V = NodeView;

    closed spec fn view(&self) -> NodeView {
        NodeView { parent: self.parent, pane: self.pane@ }
    }
}

impl View for WindowTree {
    type V = TreeView;

    closed spec fn view(&self) -> TreeView {
        TreeView { nodes: self.nodes@.map_values(|node: Node| node@), focus: self.focus as int }
    }
}

fn fresh() -> (geometry: Rect)
    ensures
        geometry == fresh_geometry(),
{
    Rect { x: 0, y: 0, width: 1, height: 1 }
}

impl WindowTree {
    /// A tree of one pane that shows `viewport` and has the focus.
    pub fn new(viewport: Viewport) -> (tree: WindowTree)
        ensures
            tree@.wf(),
            tree@.focus == 0,
            tree@.nodes == seq![
                as_leaf(vacant(), with_active(viewport@, true), fresh_geometry()),
            ],
    {
        let mut viewport = viewport;
        viewport.active = true;
        let mut nodes: Vec<Node> = Vec::new();
        nodes.push(Node { parent: None, pane: Pane::Leaf { viewport, geometry: fresh() } });
        let tree = WindowTree { nodes, focus: 0 };
        assert(tree@.nodes =~= seq![
            as_leaf(vacant(), with_active(viewport@, true), fresh_geometry()),
        ]);
        tree
    }

    /// The index of the root.
    pub fn root(&self) -> (root: usize)
        ensures
            root == 0,
    {
        0
    }

    /// The number of nodes in the arena.
    pub fn len(&self) -> (len: usize)
        ensures
            len == self@.nodes.len(),
    {
        self.nodes.len()
    }

    /// Whether node `id` is a pane.
    pub fn is_leaf(&self, id: usize) -> (leaf: bool)
        ensures
            leaf == self@.is_leaf(id as int),
    {
        id < self.nodes.len() && match &self.nodes[id].pane {
            Pane::Leaf { .. } => true,
            _ => false,
        }
    }

    /// Whether node `id` is a split.
    pub fn is_branch(&self, id: usize) -> (branch: bool)
        ensures
            branch == self@.is_branch(id as int),
    {
        id < self.nodes.len() && match &self.nodes[id].pane {
            Pane::Branch { .. } => true,
            _ => false,
        }
    }

    /// The parent of node `id`.
    pub fn parent(&self, id: usize) -> (parent: Option<usize>)
        requires
            self@.in_bounds(id as int),
        ensures
            parent == self@.parent(id as int),
    {
        self.nodes[id].parent
    }

    /// Child number `k` of the split `id`.
    pub fn child(&self, id: usize, k: usize) -> (child: usize)
        requires
            self@.is_branch(id as int),
            k < self@.children(id as int).len(),
        ensures
            child == self@.children(id as int)[k as int],
    {
        match &self.nodes[id].pane {
            Pane::Branch { children, .. } => children[k],
            _ => vstd::pervasive::unreached(),
        }
    }

    /// The direction in which the split `id` lays out its children.
    pub fn orientation(&self, id: usize) -> (orientation: Orientation)
        requires
            self@.is_branch(id as int),
        ensures
            orientation == self@.orientation(id as int),
    {
        match &self.nodes[id].pane {
            Pane::Branch { orientation, .. } => *orientation,
            _ => vstd::pervasive::unreached(),
        }
    }

    /// The viewport of the pane `id`.
    pub fn viewport(&self, id: usize) -> (viewport: &Viewport)
        requires
            self@.is_leaf(id as int),
        ensures
            viewport@ == self@.viewport(id as int),
    {
        match &self.nodes[id].pane {
            Pane::Leaf { viewport, .. } => viewport,
            _ => vstd::pervasive::unreached(),
        }
    }

    /// The rectangle that the last layout gave the pane `id`.
    pub fn geometry(&self, id: usize) -> (geometry: Rect)
        requires
            self@.is_leaf(id as int),
        ensures
            geometry == self@.geometry(id as int),
    {
        match &self.nodes[id].pane {
            Pane::Leaf { geometry, .. } => *geometry,
            _ => vstd::pervasive::unreached(),
        }
    }

    /// The index of the pane that has the focus.
    pub fn find_active_window_tree(&self) -> (leaf: usize)
        requires
            self@.wf(),
        ensures
            leaf == self@.focus,
            self@.is_leaf(leaf as int),
            self@.viewport(leaf as int).active,
    {
        proof {
            lemma_one_active(self@);
        }
        self.focus
    }

    /// The viewport of the pane that has the focus.
    pub fn find_active_window(&self) -> (viewport: &Viewport)
        requires
            self@.wf(),
        ensures
            viewport@ == self@.viewport(self@.focus),
            viewport@.active,
    {
        proof {
            lemma_one_active(self@);
        }
        self.viewport(self.focus)
    }

    /// Splits the pane `leaf` in two. Both halves show what the pane showed;
    /// the first keeps its place on the screen and its focus, the second is
    /// new. The result holds the indices of the two.
    pub fn split(&mut self, leaf: usize, orientation: Orientation) -> (halves: (usize, usize))
        requires
            old(self)@.wf(),
            old(self)@.is_leaf(leaf as int),
            old(self)@.nodes.len() + 2 <= usize::MAX,
        ensures
            final(self)@ == old(self)@.split(leaf as int, orientation),
            final(self)@.wf(),
            halves.0 == old(self)@.nodes.len(),
            halves.1 == old(self)@.nodes.len() + 1,
    {
        let first = self.nodes.len();
        let second = first + 1;
        let parent = self.nodes[leaf].parent;
        let geometry = self.geometry(leaf);
        let kept = self.viewport(leaf).clone();
        let mut added = kept.clone();
        added.active = false;
        self.nodes[leaf] = Node {
            parent,
            pane: Pane::Branch { orientation, children: vec![first, second] },
        };
        self.nodes.push(Node { parent: Some(leaf), pane: Pane::Leaf { viewport: kept, geometry } });
        self.nodes.push(
            Node { parent: Some(leaf), pane: Pane::Leaf { viewport: added, geometry: fresh() } },
        );
        if self.focus == leaf {
            self.focus = first;
        }
        proof {
            let expected = old(self)@.split(leaf as int, orientation);
            assert(self@.nodes =~= expected.nodes);
            lemma_split_wf(old(self)@, leaf as int, orientation);
        }
        (first, second)
    }

    /// Splits the pane `leaf` into two that stand side by side.
    pub fn split_horizontally(&mut self, leaf: usize) -> (halves: (usize, usize))
        requires
            old(self)@.wf(),
            old(self)@.is_leaf(leaf as int),
            old(self)@.nodes.len() + 2 <= usize::MAX,
        ensures
            final(self)@ == old(self)@.split(leaf as int, Orientation::Horizontal),
            final(self)@.wf(),
            halves.0 == old(self)@.nodes.len(),
            halves.1 == old(self)@.nodes.len() + 1,
    {
        self.split(leaf, Orientation::Horizontal)
    }

    /// Splits the pane `leaf` into two that are stacked.
    pub fn split_vertically(&mut self, leaf: usize) -> (halves: (usize, usize))
        requires
            old(self)@.wf(),
            old(self)@.is_leaf(leaf as int),
            old(self)@.nodes.len() + 2 <= usize::MAX,
        ensures
            final(self)@ == old(self)@.split(leaf as int, Orientation::Vertical),
            final(self)@.wf(),
            halves.0 == old(self)@.nodes.len(),
            halves.1 == old(self)@.nodes.len() + 1,
    {
        self.split(leaf, Orientation::Vertical)
    }

    /// Lets the pane that has the focus show `viewport`. The pane keeps the
    /// focus, whatever `viewport` says of it.
    pub fn update_active_window(&mut self, viewport: Viewport)
        requires
            old(self)@.wf(),
        ensures
            final(self)@ == old(self)@.showing(viewport@),
            final(self)@.wf(),
    {
        let mut viewport = viewport;
        viewport.active = true;
        let focus = self.focus;
        match &mut self.nodes[focus].pane {
            Pane::Leaf { viewport: shown, .. } => {
                *shown = viewport;
            },
            _ => {},
        }
        proof {
            assert(self@.nodes =~= old(self)@.showing(viewport@).nodes);
            lemma_showing_wf(old(self)@, viewport@);
        }
    }

    fn descend_from(&self, start: usize, side: usize) -> (leaf: usize)
        requires
            self@.linked(),
            self@.live(start as int),
            side < 2,
        ensures
            leaf == self@.descend(start as int, side as int),
            self@.is_leaf(leaf as int),
            self@.contains(start as int, leaf as int),
    {
        let mut at = start;
        proof {
            lemma_descend_leaf(self@, start as int, side as int);
        }
        while self.is_branch(at)
            invariant
                self@.linked(),
                self@.live(at as int),
                side < 2,
                self@.descend(at as int, side as int) == self@.descend(start as int, side as int),
            decreases self@.nodes.len() - at,
        {
            proof {
                assert(self@.node_ok(at as int));
                assert(self@.names_child(at as int, side as int));
            }
            at = self.child(at, side);
        }
        at
    }

    /// The pane that is reached from node `start` through the last child of
    /// every split.
    pub fn find_leaf(&self, start: usize) -> (leaf: usize)
        requires
            self@.wf(),
            self@.live(start as int),
        ensures
            leaf == self@.descend(start as int, 1),
            self@.is_leaf(leaf as int),
            self@.contains(start as int, leaf as int),
    {
        self.descend_from(start, 1)
    }

    fn set_active(&mut self, leaf: usize, active: bool)
        requires
            old(self)@.is_leaf(leaf as int),
        ensures
            final(self)@ == old(self)@.marked(leaf as int, active),
    {
        match &mut self.nodes[leaf].pane {
            Pane::Leaf { viewport, .. } => {
                viewport.active = active;
            },
            _ => {},
        }
        assert(self@.nodes =~= old(self)@.marked(leaf as int, active).nodes);
    }

    fn focus_target(&self, forward: usize) -> (target: Option<usize>)
        requires
            self@.wf(),
            forward < 2,
        ensures
            match target {
                Some(found) => self@.focus_target(self@.focus, forward as int) == Some(
                    found as int,
                ),
                None => self@.focus_target(self@.focus, forward as int) is None,
            },
    {
        let mut at = self.focus;
        loop
            invariant
                self@.wf(),
                forward < 2,
                self@.live(at as int),
                self@.contains(at as int, self@.focus),
                self@.focus_target(at as int, forward as int) == self@.focus_target(
                    self@.focus,
                    forward as int,
                ),
            decreases at,
        {
            proof {
                assert(self@.node_ok(at as int));
            }
            match self.nodes[at].parent {
                None => {
                    return None;
                },
                Some(above) => {
                    proof {
                        assert(self@.node_ok(above as int));
                        lemma_one_child_contains(self@, at as int, forward as int, self@.focus);
                    }
                    let candidate = self.child(above, forward);
                    if candidate != at {
                        return Some(candidate);
                    }
                    proof {
                        lemma_contains_below(self@, above as int, at as int, self@.focus);
                    }
                    at = above;
                },
            }
        }
    }

    /// Moves the focus to the neighbouring pane in `direction`: towards the
    /// first child of a split for `WEST`, towards the second for every other
    /// direction. Where no pane lies that way the focus stays.
    pub fn focus(&mut self, direction: usize)
        requires
            old(self)@.wf(),
        ensures
            final(self)@ == old(self)@.focus(direction),
            final(self)@.wf(),
    {
        let forward: usize = if direction == WEST { 0 } else { 1 };
        proof {
            lemma_focus_wf(self@, direction);
            lemma_focus_target_live(self@, self@.focus, forward as int);
        }
        match self.focus_target(forward) {
            None => {},
            Some(target) => {
                let leaf = self.descend_from(target, 1 - forward);
                let previous = self.focus;
                self.set_active(previous, false);
                self.set_active(leaf, true);
                self.focus = leaf;
            },
        }
    }

    /// Goes down from node `node` and makes every child of every split on the
    /// way name that split as its parent. Nothing else changes; in a tree,
    /// where the parents are right already, nothing changes at all.
    pub fn reparent_branches(&mut self, node: usize)
        requires
            old(self)@.downward(node as int),
        ensures
            final(self)@ == old(self)@.reparented(node as int),
            old(self)@.linked() ==> final(self)@ == old(self)@,
        decreases old(self)@.nodes.len() - node,
    {
        proof {
            if self@.linked() {
                lemma_adopted_same(self@, node as int);
            }
        }
        if self.is_branch(node) {
            let first = self.child(node, 0);
            let second = self.child(node, 1);
            self.nodes[first].parent = Some(node);
            self.nodes[second].parent = Some(node);
            let ghost adopted = self@;
            proof {
                assert(adopted.same_panes(old(self)@));
                lemma_pass_by_panes(adopted, old(self)@, first as int, 0);
            }
            self.reparent_branches(first);
            let ghost halfway = self@;
            proof {
                assert(halfway.same_panes(old(self)@));
                lemma_pass_by_panes(halfway, old(self)@, second as int, 0);
            }
            self.reparent_branches(second);
            proof {
                let expected = old(self)@.reparented(node as int);
                assert forall|i: int| 0 <= i < expected.nodes.len() implies self@.nodes[i]
                    == expected.nodes[i] by {
                    lemma_pass_by_panes(adopted, old(self)@, first as int, i);
                    lemma_pass_by_panes(halfway, old(self)@, second as int, i);
                    assert(halfway.nodes[i] == adopted.reparented(first as int).nodes[i]);
                    assert(self@.nodes[i] == halfway.reparented(second as int).nodes[i]);
                }
                assert(self@.nodes =~= expected.nodes);
            }
        } else {
            assert(self@.nodes =~= old(self)@.reparented(node as int).nodes);
        }
    }

    fn last_is_vacant(&self) -> (vacant: bool)
        ensures
            vacant == (self@.nodes.len() > 0 && self@.nodes.last().pane is Vacant),
    {
        let len = self.nodes.len();
        len > 0 && match &self.nodes[len - 1].pane {
            Pane::Vacant => true,
            _ => false,
        }
    }

    fn trim(&mut self)
        ensures
            final(self)@.nodes == trimmed(old(self)@.nodes),
            final(self)@.focus == old(self)@.focus,
    {
        while self.last_is_vacant()
            invariant
                trimmed(self@.nodes) == trimmed(old(self)@.nodes),
                self@.focus == old(self)@.focus,
            decreases self@.nodes.len(),
        {
            let ghost before = self@.nodes;
            self.nodes.pop();
            assert(self@.nodes =~= before.drop_last());
        }
    }

    /// Closes the pane that has the focus. Its parent becomes what the other
    /// child of the parent was, and the focus goes to the last pane below it.
    /// The root pane stays open.
    pub fn destroy(&mut self)
        requires
            old(self)@.wf(),
        ensures
            final(self)@ == old(self)@.destroy(),
            final(self)@.wf(),
    {
        let closed = self.focus;
        proof {
            lemma_destroy_wf(self@);
            assert(self@.node_ok(closed as int));
        }
        match self.nodes[closed].parent {
            None => {},
            Some(above) => {
                proof {
                    assert(self@.node_ok(above as int));
                    assert(self@.names_child(above as int, 0));
                    assert(self@.names_child(above as int, 1));
                    lemma_collapsed(self@);
                }
                let first = self.child(above, 0);
                let survivor = if first == closed { self.child(above, 1) } else { first };
                let mut pane = Pane::Vacant;
                std::mem::swap(&mut self.nodes[survivor].pane, &mut pane);
                self.nodes[survivor].parent = None;
                self.nodes[above].pane = pane;
                self.nodes[closed] = Node { parent: None, pane: Pane::Vacant };
                proof {
                    let moved = TreeView {
                        nodes: old(self)@.nodes.update(
                            above as int,
                            NodeView {
                                pane: old(self)@.nodes[survivor as int].pane,
                                ..old(self)@.nodes[above as int]
                            },
                        ).update(closed as int, vacant()).update(survivor as int, vacant()),
                        ..old(self)@
                    };
                    assert(self@.nodes =~= moved.nodes);
                    assert(self@ == moved);
                    let fixed = old(self)@.collapsed();
                    assert(fixed == moved.adopted(above as int));
                    if old(self)@.is_branch(survivor as int) {
                        assert(old(self)@.node_ok(survivor as int));
                        assert(old(self)@.names_child(survivor as int, 0));
                        assert(old(self)@.names_child(survivor as int, 1));
                    }
                    assert forall|i: int| 0 <= i < moved.nodes.len() implies (
                    #[trigger] moved.nodes[i]).pane == fixed.nodes[i].pane by {
                        if moved.is_branch(above as int) && moved.children(above as int).len()
                            == 2 {
                            let first = moved.children(above as int)[0] as int;
                            let second = moved.children(above as int)[1] as int;
                            assert(fixed.nodes[i] == moved.nodes.update(
                                first,
                                NodeView { parent: Some(above), ..moved.nodes[first] },
                            ).update(
                                second,
                                NodeView { parent: Some(above), ..moved.nodes[second] },
                            )[i]);
                        }
                    }
                    lemma_downward(moved, fixed, above as int);
                    assert forall|i: int|
                        fixed.in_bounds(i) && !(fixed.contains(above as int, i) && i
                            != above) implies (#[trigger] moved.nodes[i]).parent
                        == fixed.nodes[i].parent by {
                        if moved.is_branch(above as int) {
                            let first = moved.children(above as int)[0] as int;
                            let second = moved.children(above as int)[1] as int;
                            assert(fixed.node_ok(above as int));
                            assert(fixed.names_child(above as int, 0));
                            assert(fixed.names_child(above as int, 1));
                            assert(fixed.contains(first, first) && fixed.contains(second, second));
                            lemma_contains_below(fixed, above as int, first, first);
                            lemma_contains_below(fixed, above as int, second, second);
                        }
                    }
                    lemma_reparented(moved, fixed, above as int);
                }
                self.reparent_branches(above);
                let leaf = self.descend_from(above, 1);
                self.set_active(leaf, true);
                self.focus = leaf;
                self.trim();
            },
        }
    }

    /// Gives every pane its place on the screen, the root filling the
    /// rectangle of the given size at `(x, y)`. A split divides its rectangle
    /// among its children along its orientation, in equal parts; what is left
    /// over goes to the last child.
    pub fn layout(&mut self, width: i32, height: i32, x: i32, y: i32)
        requires
            old(self)@.wf(),
            (Rect { x, y, width, height }).wf(),
        ensures
            final(self)@ == old(self)@.laid_out(Rect { x, y, width, height }),
            final(self)@.wf(),
    {
        let screen = Rect { x, y, width, height };
        let ghost before = self@;
        let ghost after = before.laid_out(screen);
        proof {
            lemma_laid_out_wf(before, screen);
        }
        let mut rects: Vec<Rect> = Vec::new();
        let mut i: usize = 0;
        while i < self.nodes.len()
            invariant
                before.wf(),
                screen.wf(),
                after == before.laid_out(screen),
                i <= self@.nodes.len() == before.nodes.len(),
                self@.focus == before.focus,
                rects@.len() == i,
                forall|j: int|
                    0 <= j < i && before.live(j) ==> #[trigger] rects@[j] == before.rect_of(
                        j,
                        screen,
                    ),
                forall|j: int| 0 <= j < i ==> #[trigger] self@.nodes[j] == after.nodes[j],
                forall|j: int|
                    i <= j < before.nodes.len() ==> #[trigger] self@.nodes[j] == before.nodes[j],
            decreases self@.nodes.len() - i,
        {
            proof {
                assert(before.node_ok(i as int));
                assert(self@.nodes[i as int] == before.nodes[i as int]);
                if before.live(i as int) {
                    lemma_rect_of(before, i as int, screen);
                }
            }
            let ghost current = self@;
            let rect = match self.nodes[i].parent {
                Some(above) => {
                    proof {
                        lemma_rect_of(before, above as int, screen);
                        assert(self@.nodes[above as int] == after.nodes[above as int]);
                        assert(after.nodes[above as int] == before.nodes[above as int]);
                    }
                    let k: i32 = if self.child(above, 0) == i { 0 } else { 1 };
                    rects[above].child_rect(self.orientation(above), 2, k)
                },
                None => screen,
            };
            match &mut self.nodes[i].pane {
                Pane::Leaf { geometry, .. } => {
                    *geometry = rect;
                },
                _ => {},
            }
            rects.push(rect);
            proof {
                assert(self@.nodes =~= current.nodes.update(i as int, after.nodes[i as int]));
            }
            i += 1;
        }
        assert(self@.nodes =~= after.nodes);
    }

    /// Lays the tree out on the screen and gives, for every pane in the order
    /// of the arena, the commands that draw it. Every pane shows a buffer
    /// whose path has a file name.
    pub fn draw(&mut self, buffers: &Vec<Buffer>, width: i32, height: i32, x: i32, y: i32) -> (drawn:
        Vec<Frame>)
        requires
            old(self)@.wf(),
            (Rect { x, y, width, height }).wf(),
            shows_buffers(old(self)@, buffers@.len() as int),
            shows_named(old(self)@, buffers@),
            all_wf(buffers@),
        ensures
            final(self)@ == old(self)@.laid_out(Rect { x, y, width, height }),
            final(self)@.wf(),
            drawn@.map_values(|frame: Frame| frame@) == frames(
                final(self)@,
                buffers@,
                final(self)@.nodes.len() as int,
            ),
    {
        let ghost screen = Rect { x, y, width, height };
        self.layout(width, height, x, y);
        let mut drawn: Vec<Frame> = Vec::new();
        let mut i: usize = 0;
        assert(drawn@.map_values(|frame: Frame| frame@) =~= frames(self@, buffers@, 0));
        while i < self.nodes.len()
            invariant
                i <= self@.nodes.len(),
                self@ == old(self)@.laid_out(screen),
                old(self)@.wf(),
                screen.wf(),
                shows_buffers(old(self)@, buffers@.len() as int),
                shows_named(old(self)@, buffers@),
                all_wf(buffers@),
                drawn@.map_values(|frame: Frame| frame@) == frames(self@, buffers@, i as int),
            decreases self@.nodes.len() - i,
        {
            if self.is_leaf(i) {
                proof {
                    assert(old(self)@.is_leaf(i as int));
                    lemma_rect_of(old(self)@, i as int, screen);
                }
                let viewport = self.viewport(i);
                let buffer = &buffers[viewport.buffer_id];
                let ops = match file_name_of(buffer.path.as_str()) {
                    Some(name) => render_pane(viewport, self.geometry(i), buffer, name.as_str()),
                    None => vstd::pervasive::unreached(),
                };
                let ghost before = drawn@;
                drawn.push(Frame { pane: i, ops });
                assert(drawn@.map_values(|frame: Frame| frame@) =~= before.map_values(
                    |frame: Frame| frame@,
                ).push(drawn@[before.len() as int]@));
            }
            i += 1;
        }
        drawn
    }

    /// Draws as `draw` does if the path of every buffer that a pane shows has a
    /// file name, and leaves the tree as it is and gives `None` if one has
    /// none.
    pub fn try_draw(&mut self, buffers: &Vec<Buffer>, width: i32, height: i32, x: i32, y: i32) -> (drawn:
        Option<Vec<Frame>>)
        requires
            old(self)@.wf(),
            (Rect { x, y, width, height }).wf(),
            shows_buffers(old(self)@, buffers@.len() as int),
            all_wf(buffers@),
        ensures
            final(self)@.wf(),
            match drawn {
                Some(made) => {
                    &&& shows_named(old(self)@, buffers@)
                    &&& final(self)@ == old(self)@.laid_out(Rect { x, y, width, height })
                    &&& made@.map_values(|frame: Frame| frame@) == frames(
                        final(self)@,
                        buffers@,
                        final(self)@.nodes.len() as int,
                    )
                },
                None => !shows_named(old(self)@, buffers@) && final(self)@ == old(self)@,
            },
    {
        let mut i: usize = 0;
        while i < self.nodes.len()
            invariant
                i <= self@.nodes.len(),
                self@ == old(self)@,
                self@.wf(),
                shows_buffers(self@, buffers@.len() as int),
                forall|j: int|
                    0 <= j < i && #[trigger] self@.is_leaf(j) ==> path_file_name(
                        buffers@[self@.viewport(j).buffer_id].path@,
                    ) is Some,
            decreases self@.nodes.len() - i,
        {
            if self.is_leaf(i) {
                let buffer = &buffers[self.viewport(i).buffer_id];
                if file_name_of(buffer.path.as_str()).is_none() {
                    assert(self@.is_leaf(i as int));
                    return None;
                }
            }
            i += 1;
        }
        Some(self.draw(buffers, width, height, x, y))
    }
}

} // verus!
