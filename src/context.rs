use vstd::prelude::*;

use crate::geometry::LayoutBox;
use crate::layout::{LayoutError, LayoutTree, LeafId, NodeId, SpaceRequest};
use crate::style::Style;
use crate::window::LayoutEngine;

verus! {

/// The address of one stateful view instance, for messages sent back to it.
#[derive(Clone, Copy, Debug, PartialEq, Eq, Structural, Hash)]
pub struct ViewId {
    pub id: u64,
}

/// Mints view ids. Each id is handed out once: the ids only grow.
pub struct ViewIds {
    pub next: u64,
}

impl ViewIds {
    pub fn new() -> (r: ViewIds)
        ensures
            r.next == 0,
    {
        ViewIds { next: 0 }
    }

    /// Whether `id` was handed out already.
    pub open spec fn issued(&self, id: ViewId) -> bool {
        id.id < self.next
    }

    /// A fresh id, different from every id handed out before.
    pub fn mint(&mut self) -> (r: ViewId)
        requires
            old(self).next < u64::MAX,
        ensures
            !old(self).issued(r),
            final(self).issued(r),
            r.id == old(self).next,
            final(self).next == old(self).next + 1,
            forall|id: ViewId| old(self).issued(id) ==> final(self).issued(id) && id != r,
    {
        let id = ViewId { id: self.next };
        self.next = self.next + 1;
        id
    }
}

/// The internal signals that a window handles.
#[derive(Clone, Copy, Debug, PartialEq, Eq, Structural, Hash)]
pub enum WindowMessage {
    /// A frame is due; nanoseconds since the last one.
    AnimationFrame(u64),
    StartAnimating,
    StopAnimating,
    CloseRequested,
    Relayout,
    Resized,
}

/// A message posted to the view with id `target`.
#[derive(Clone, Copy, Debug, PartialEq, Eq, Structural, Hash)]
pub struct Posted {
    pub target: ViewId,
    pub message: WindowMessage,
}

/// The views that relayout and animation requests go to, saved on entering
/// a window and put back on leaving it.
#[derive(Clone, Copy, Debug, PartialEq, Eq, Structural, Hash)]
pub struct Controllers {
    pub layout: Option<ViewId>,
    pub animation: Option<ViewId>,
}

/// The index of the last entry of `s` under `key`, or -1.
pub open spec fn last_index_of<R>(s: Seq<(u64, R)>, key: u64) -> int
    decreases s.len(),
{
    if s.len() == 0 {
        -1
    } else if s.last().0 == key {
        s.len() - 1
    } else {
        last_index_of(s.drop_last(), key)
    }
}

proof fn lemma_last_index_of<R>(s: Seq<(u64, R)>, key: u64)
    ensures
        -1 <= last_index_of(s, key) < s.len(),
        last_index_of(s, key) >= 0 ==> s[last_index_of(s, key)].0 == key,
        forall|k: int| last_index_of(s, key) < k < s.len() ==> s[k].0 != key,
    decreases s.len(),
{
    if s.len() > 0 {
        lemma_last_index_of(s.drop_last(), key);
        assert forall|k: int| last_index_of(s, key) < k < s.len() implies s[k].0 != key by {
            if k < s.len() - 1 {
                assert(s[k] == s.drop_last()[k]);
            }
        }
    }
}

/// The environment threaded through every operation: the layout tree, the
/// view id source, the views that own relayout and animation requests, a
/// stack of ambient resources under integer keys, and the messages posted
/// since the driver last collected them.
pub struct Context<R> {
    pub tree: LayoutTree,
    pub ids: ViewIds,
    pub layout_controller: Option<ViewId>,
    pub animation_controller: Option<ViewId>,
    pub resources: Vec<(u64, R)>,
    pub outbox: Vec<Posted>,
}

impl<R> Context<R> {
    pub open spec fn wf(&self) -> bool {
        self.tree.wf()
    }

    /// The messages that a relayout request posts: one to the layout
    /// controller, if there is one.
    pub open spec fn relayout_posts(controller: Option<ViewId>) -> Seq<Posted> {
        match controller {
            Some(c) => seq![Posted { target: c, message: WindowMessage::Relayout }],
            None => seq![],
        }
    }

    pub fn new() -> (r: Context<R>)
        ensures
            r.wf(),
            r.tree.nodes@.len() == 0,
            r.ids.next == 0,
            r.layout_controller.is_none(),
            r.animation_controller.is_none(),
            r.resources@.len() == 0,
            r.outbox@.len() == 0,
    {
        Context {
            tree: LayoutTree::new(),
            ids: ViewIds::new(),
            layout_controller: None,
            animation_controller: None,
            resources: Vec::new(),
            outbox: Vec::new(),
        }
    }

    /// Asks the enclosing window for a fresh layout pass. Repeated requests
    /// before that pass post one message only: the first request hands the
    /// controller its message and clears it.
    pub fn relayout(&mut self)
        ensures
            final(self).tree == old(self).tree,
            final(self).ids == old(self).ids,
            final(self).animation_controller == old(self).animation_controller,
            final(self).resources == old(self).resources,
            final(self).layout_controller.is_none(),
            final(self).outbox@ == old(self).outbox@ + Self::relayout_posts(old(self).layout_controller),
    {
        let controller = self.layout_controller.take();
        if let Some(c) = controller {
            self.outbox.push(Posted { target: c, message: WindowMessage::Relayout });
        }
        proof {
            if controller.is_none() {
                assert(self.outbox@ =~= old(self).outbox@ + Self::relayout_posts(controller));
            }
        }
    }

    fn post_to_animation_controller(&mut self, message: WindowMessage)
        ensures
            final(self).tree == old(self).tree,
            final(self).ids == old(self).ids,
            final(self).layout_controller == old(self).layout_controller,
            final(self).animation_controller == old(self).animation_controller,
            final(self).resources == old(self).resources,
            final(self).outbox@ == old(self).outbox@ + match old(self).animation_controller {
                Some(c) => seq![Posted { target: c, message }],
                None => Seq::<Posted>::empty(),
            },
    {
        if let Some(c) = self.animation_controller {
            self.outbox.push(Posted { target: c, message });
        } else {
            assert(self.outbox@ =~= old(self).outbox@ + Seq::<Posted>::empty());
        }
    }

    /// Asks the enclosing window to deliver animation frames.
    pub fn start_animating(&mut self)
        ensures
            final(self).tree == old(self).tree,
            final(self).layout_controller == old(self).layout_controller,
            final(self).animation_controller == old(self).animation_controller,
            final(self).resources == old(self).resources,
            final(self).outbox@ == old(self).outbox@ + match old(self).animation_controller {
                Some(c) => seq![Posted { target: c, message: WindowMessage::StartAnimating }],
                None => Seq::<Posted>::empty(),
            },
    {
        self.post_to_animation_controller(WindowMessage::StartAnimating);
    }

    /// Tells the enclosing window that one animation no longer needs frames.
    pub fn stop_animating(&mut self)
        ensures
            final(self).tree == old(self).tree,
            final(self).layout_controller == old(self).layout_controller,
            final(self).animation_controller == old(self).animation_controller,
            final(self).resources == old(self).resources,
            final(self).outbox@ == old(self).outbox@ + match old(self).animation_controller {
                Some(c) => seq![Posted { target: c, message: WindowMessage::StopAnimating }],
                None => Seq::<Posted>::empty(),
            },
    {
        self.post_to_animation_controller(WindowMessage::StopAnimating);
    }

    /// Makes `view_id` the receiver of relayout requests and returns the
    /// previous one, to be put back with [`Context::restore_layout_controller`].
    pub fn with_layout_controller(&mut self, view_id: ViewId) -> (r: Option<ViewId>)
        ensures
            r == old(self).layout_controller,
            final(self).layout_controller == Some(view_id),
            final(self).animation_controller == old(self).animation_controller,
            final(self).tree == old(self).tree,
            final(self).resources == old(self).resources,
            final(self).outbox == old(self).outbox,
            final(self).ids == old(self).ids,
    {
        let previous = self.layout_controller;
        self.layout_controller = Some(view_id);
        previous
    }

    pub fn restore_layout_controller(&mut self, previous: Option<ViewId>)
        ensures
            final(self).layout_controller == previous,
            final(self).animation_controller == old(self).animation_controller,
            final(self).tree == old(self).tree,
            final(self).resources == old(self).resources,
            final(self).outbox == old(self).outbox,
            final(self).ids == old(self).ids,
    {
        self.layout_controller = previous;
    }

    /// Makes `view_id` the receiver of animation requests and returns the
    /// previous one, to be put back with
    /// [`Context::restore_animation_controller`].
    pub fn with_animation_controller(&mut self, view_id: ViewId) -> (r: Option<ViewId>)
        ensures
            r == old(self).animation_controller,
            final(self).animation_controller == Some(view_id),
            final(self).layout_controller == old(self).layout_controller,
            final(self).tree == old(self).tree,
            final(self).resources == old(self).resources,
            final(self).outbox == old(self).outbox,
            final(self).ids == old(self).ids,
    {
        let previous = self.animation_controller;
        self.animation_controller = Some(view_id);
        previous
    }

    pub fn restore_animation_controller(&mut self, previous: Option<ViewId>)
        ensures
            final(self).animation_controller == previous,
            final(self).layout_controller == old(self).layout_controller,
            final(self).tree == old(self).tree,
            final(self).resources == old(self).resources,
            final(self).outbox == old(self).outbox,
            final(self).ids == old(self).ids,
    {
        self.animation_controller = previous;
    }

    /// Enters the subtree of the window `view_id`: requests from inside go to
    /// that window and no further. Returns what [`Context::leave_window`]
    /// puts back.
    pub fn with_window(&mut self, view_id: ViewId) -> (r: Controllers)
        ensures
            r == (Controllers {
                layout: old(self).layout_controller,
                animation: old(self).animation_controller,
            }),
            final(self).layout_controller == Some(view_id),
            final(self).animation_controller == Some(view_id),
            final(self).tree == old(self).tree,
            final(self).resources == old(self).resources,
            final(self).outbox == old(self).outbox,
            final(self).ids == old(self).ids,
    {
        let layout = self.with_layout_controller(view_id);
        let animation = self.with_animation_controller(view_id);
        Controllers { layout, animation }
    }

    pub fn leave_window(&mut self, saved: Controllers)
        ensures
            final(self).layout_controller == saved.layout,
            final(self).animation_controller == saved.animation,
            final(self).tree == old(self).tree,
            final(self).resources == old(self).resources,
            final(self).outbox == old(self).outbox,
            final(self).ids == old(self).ids,
    {
        self.restore_layout_controller(saved.layout);
        self.restore_animation_controller(saved.animation);
    }

    /// A new container node. Structural change: the layout controller is
    /// asked for a pass first.
    pub fn new_layout_node(&mut self, style: Style, children: Vec<NodeId>) -> (r: Result<NodeId, LayoutError>)
        requires
            old(self).wf(),
            old(self).tree.nodes@.len() < usize::MAX,
        ensures
            final(self).wf(),
            final(self).ids == old(self).ids,
            final(self).resources == old(self).resources,
            final(self).animation_controller == old(self).animation_controller,
            final(self).outbox@ == old(self).outbox@ + Self::relayout_posts(old(self).layout_controller),
            final(self).layout_controller.is_none(),
            r.is_err() <==> exists|j: int| 0 <= j < children@.len() && !old(self).tree.live(#[trigger] children@[j]),
            r.is_err() ==> r == Err::<NodeId, LayoutError>(LayoutError::NodeNotFound),
            r.is_err() ==> final(self).tree == old(self).tree,
            r.is_ok() ==> {
                let n = r.unwrap();
                &&& n.index == old(self).tree.nodes@.len()
                &&& final(self).tree.nodes@.len() == old(self).tree.nodes@.len() + 1
                &&& final(self).tree.live(n)
                &&& !old(self).tree.live(n)
                &&& final(self).tree.style_of(n) == style
                &&& final(self).tree.children_of(n) == children@
                &&& final(self).tree.leaf_of(n).is_none()
                &&& final(self).tree.others_unchanged(&old(self).tree, n)
            },
    {
        self.relayout();
        self.tree.new_container(style, children)
    }

    /// A new leaf node measured by `leaf`.
    pub fn new_layout_leaf(&mut self, style: Style, leaf: LeafId) -> (r: NodeId)
        requires
            old(self).wf(),
            old(self).tree.nodes@.len() < usize::MAX,
        ensures
            final(self).wf(),
            final(self).ids == old(self).ids,
            final(self).resources == old(self).resources,
            final(self).animation_controller == old(self).animation_controller,
            final(self).outbox@ == old(self).outbox@ + Self::relayout_posts(old(self).layout_controller),
            final(self).layout_controller.is_none(),
            final(self).tree.live(r),
            !old(self).tree.live(r),
            final(self).tree.style_of(r) == style,
            final(self).tree.children_of(r).len() == 0,
            final(self).tree.leaf_of(r) == Some(leaf),
            final(self).tree.others_unchanged(&old(self).tree, r),
    {
        self.relayout();
        self.tree.new_measured_leaf(style, leaf)
    }

    /// Inserts `child` among the children of `parent` at `index`.
    pub fn insert_layout_child(&mut self, parent: NodeId, index: usize, child: NodeId) -> (r: Result<(), LayoutError>)
        requires
            old(self).wf(),
        ensures
            final(self).wf(),
            final(self).ids == old(self).ids,
            final(self).resources == old(self).resources,
            final(self).animation_controller == old(self).animation_controller,
            final(self).outbox@ == old(self).outbox@ + Self::relayout_posts(old(self).layout_controller),
            final(self).layout_controller.is_none(),
            r.is_ok() <==> (old(self).tree.live(parent) && old(self).tree.live(child)
                && old(self).tree.leaf_of(parent).is_none() && index <= old(self).tree.children_of(parent).len()),
            (!old(self).tree.live(parent) || !old(self).tree.live(child)) ==> r == Err::<(), LayoutError>(LayoutError::NodeNotFound),
            (old(self).tree.live(parent) && old(self).tree.live(child) && old(self).tree.leaf_of(parent).is_some())
                ==> r == Err::<(), LayoutError>(LayoutError::MeasuredLeaf),
            (old(self).tree.live(parent) && old(self).tree.live(child) && old(self).tree.leaf_of(parent).is_none()
                && index > old(self).tree.children_of(parent).len()) ==> r == Err::<(), LayoutError>(LayoutError::ChildIndexOutOfBounds),
            r.is_err() ==> final(self).tree == old(self).tree,
            r.is_ok() ==> final(self).tree.children_replaced(
                &old(self).tree,
                parent,
                old(self).tree.children_of(parent).insert(index as int, child),
            ),
    {
        self.relayout();
        self.tree.insert_child_at(parent, index, child)
    }

    /// Puts `child` in the place of the child of `parent` at `index`.
    pub fn replace_layout_child(&mut self, parent: NodeId, index: usize, child: NodeId) -> (r: Result<(), LayoutError>)
        requires
            old(self).wf(),
        ensures
            final(self).wf(),
            final(self).ids == old(self).ids,
            final(self).resources == old(self).resources,
            final(self).animation_controller == old(self).animation_controller,
            final(self).outbox@ == old(self).outbox@ + Self::relayout_posts(old(self).layout_controller),
            final(self).layout_controller.is_none(),
            r.is_ok() <==> (old(self).tree.live(parent) && old(self).tree.live(child)
                && index < old(self).tree.children_of(parent).len()),
            (!old(self).tree.live(parent) || !old(self).tree.live(child)) ==> r == Err::<(), LayoutError>(LayoutError::NodeNotFound),
            (old(self).tree.live(parent) && old(self).tree.live(child) && index >= old(self).tree.children_of(parent).len())
                ==> r == Err::<(), LayoutError>(LayoutError::ChildIndexOutOfBounds),
            r.is_err() ==> final(self).tree == old(self).tree,
            r.is_ok() ==> final(self).tree.children_replaced(
                &old(self).tree,
                parent,
                old(self).tree.children_of(parent).update(index as int, child),
            ),
    {
        self.relayout();
        match self.tree.replace_child_at(parent, index, child) {
            Ok(_) => Ok(()),
            Err(e) => Err(e),
        }
    }

    /// Removes `node` from the layout tree.
    pub fn remove_layout_node(&mut self, node: NodeId) -> (r: Result<(), LayoutError>)
        requires
            old(self).wf(),
        ensures
            final(self).wf(),
            final(self).ids == old(self).ids,
            final(self).resources == old(self).resources,
            final(self).animation_controller == old(self).animation_controller,
            final(self).outbox@ == old(self).outbox@ + Self::relayout_posts(old(self).layout_controller),
            final(self).layout_controller.is_none(),
            r.is_ok() <==> old(self).tree.live(node),
            !old(self).tree.live(node) ==> r == Err::<(), LayoutError>(LayoutError::NodeNotFound),
            r.is_err() ==> final(self).tree == old(self).tree,
            r.is_ok() ==> final(self).tree.node_removed(&old(self).tree, node),
    {
        self.relayout();
        self.tree.remove(node)
    }

    /// Detaches the child of `node` at `index`; it stays in the tree.
    pub fn remove_layout_child(&mut self, node: NodeId, index: usize) -> (r: Result<(), LayoutError>)
        requires
            old(self).wf(),
        ensures
            final(self).wf(),
            final(self).ids == old(self).ids,
            final(self).resources == old(self).resources,
            final(self).animation_controller == old(self).animation_controller,
            final(self).outbox@ == old(self).outbox@ + Self::relayout_posts(old(self).layout_controller),
            final(self).layout_controller.is_none(),
            r.is_ok() <==> (old(self).tree.live(node) && index < old(self).tree.children_of(node).len()),
            !old(self).tree.live(node) ==> r == Err::<(), LayoutError>(LayoutError::NodeNotFound),
            (old(self).tree.live(node) && index >= old(self).tree.children_of(node).len())
                ==> r == Err::<(), LayoutError>(LayoutError::ChildIndexOutOfBounds),
            r.is_err() ==> final(self).tree == old(self).tree,
            r.is_ok() ==> final(self).tree.children_replaced(
                &old(self).tree,
                node,
                old(self).tree.children_of(node).remove(index as int),
            ),
    {
        self.relayout();
        match self.tree.remove_child_at(node, index) {
            Ok(_) => Ok(()),
            Err(e) => Err(e),
        }
    }

    /// Gives `node` the style `style`. A pass is asked for only when the style
    /// actually changed.
    pub fn set_layout_style(&mut self, node: NodeId, style: Style) -> (r: Result<(), LayoutError>)
        requires
            old(self).wf(),
        ensures
            final(self).wf(),
            final(self).ids == old(self).ids,
            final(self).resources == old(self).resources,
            final(self).animation_controller == old(self).animation_controller,
            r.is_ok() <==> old(self).tree.live(node),
            !old(self).tree.live(node) ==> r == Err::<(), LayoutError>(LayoutError::NodeNotFound),
            final(self).tree.nodes@.len() == old(self).tree.nodes@.len(),
            (old(self).tree.live(node) && old(self).tree.style_of(node) != style) ==> {
                &&& final(self).outbox@ == old(self).outbox@ + Self::relayout_posts(old(self).layout_controller)
                &&& final(self).layout_controller.is_none()
            },
            !(old(self).tree.live(node) && old(self).tree.style_of(node) != style) ==> {
                &&& final(self).outbox == old(self).outbox
                &&& final(self).layout_controller == old(self).layout_controller
            },
            r.is_err() ==> final(self).tree == old(self).tree,
            r.is_ok() ==> {
                &&& final(self).tree.live(node)
                &&& final(self).tree.style_of(node) == style
                &&& final(self).tree.children_of(node) == old(self).tree.children_of(node)
                &&& final(self).tree.leaf_of(node) == old(self).tree.leaf_of(node)
                &&& final(self).tree.others_unchanged(&old(self).tree, node)
                &&& final(self).tree.dirty == (old(self).tree.dirty || old(self).tree.style_of(node) != style)
                &&& final(self).tree.nodes@[node.index as int] == (crate::layout::LayoutNode {
                    style,
                    ..old(self).tree.nodes@[node.index as int]
                })
            },
    {
        match self.tree.set_style(node, style) {
            Ok(changed) => {
                if changed {
                    self.relayout();
                }
                Ok(())
            },
            Err(e) => Err(e),
        }
    }

    /// Gives `node` the measurement leaf `leaf`.
    pub fn set_leaf_layout(&mut self, node: NodeId, leaf: LeafId) -> (r: Result<(), LayoutError>)
        requires
            old(self).wf(),
        ensures
            final(self).wf(),
            final(self).ids == old(self).ids,
            final(self).resources == old(self).resources,
            final(self).animation_controller == old(self).animation_controller,
            final(self).outbox@ == old(self).outbox@ + Self::relayout_posts(old(self).layout_controller),
            final(self).layout_controller.is_none(),
            r.is_ok() <==> (old(self).tree.live(node) && old(self).tree.children_of(node).len() == 0),
            !old(self).tree.live(node) ==> r == Err::<(), LayoutError>(LayoutError::NodeNotFound),
            (old(self).tree.live(node) && old(self).tree.children_of(node).len() > 0)
                ==> r == Err::<(), LayoutError>(LayoutError::MeasuredLeaf),
            r.is_err() ==> final(self).tree == old(self).tree,
            r.is_ok() ==> {
                &&& final(self).tree.leaf_of(node) == Some(leaf)
                &&& final(self).tree.style_of(node) == old(self).tree.style_of(node)
                &&& final(self).tree.children_of(node) == old(self).tree.children_of(node)
                &&& final(self).tree.others_unchanged(&old(self).tree, node)
            },
    {
        self.relayout();
        self.tree.set_leaf(node, Some(leaf))
    }

    /// The geometry that the last layout pass gave `node`.
    pub fn get_computed_layout(&self, node: NodeId) -> (r: Result<LayoutBox, LayoutError>)
        ensures
            !self.tree.live(node) ==> r == Err::<LayoutBox, LayoutError>(LayoutError::NodeNotFound),
            self.tree.live(node) ==> r == Ok::<LayoutBox, LayoutError>(self.tree.layout_of(node)),
    {
        self.tree.layout(node)
    }

    /// Whether a pass from `node` in `space` must run, or the geometry of the
    /// last one still stands.
    pub fn needs_layout(&self, node: NodeId, space: SpaceRequest) -> (r: bool)
        ensures
            r == self.tree.needs_pass_spec(node, space),
    {
        self.tree.needs_pass(node, space)
    }

    /// Makes sure the geometry of a pass from `node` in `space` is in the
    /// tree: runs `engine` and stores what it computed, unless the tree is
    /// unchanged since a pass from `node` in the same room.
    pub fn compute_layout<E: LayoutEngine>(&mut self, engine: &mut E, node: NodeId, space: SpaceRequest) -> (r: Result<(), LayoutError>)
        requires
            old(self).wf(),
        ensures
            final(self).wf(),
            r.is_ok() <==> old(self).tree.live(node),
            !old(self).tree.live(node) ==> r == Err::<(), LayoutError>(LayoutError::NodeNotFound),
            r.is_err() ==> *final(self) == *old(self),
            !old(self).tree.needs_pass_spec(node, space) ==> *final(self) == *old(self),
            old(self).tree.live(node) && old(self).tree.needs_pass_spec(node, space) ==> exists|results: Seq<(NodeId, LayoutBox)>|
                #[trigger] final(self).tree.laid_out_by(&old(self).tree, results),
            r.is_ok() ==> {
                &&& final(self).tree.last_pass == Some((node, space))
                &&& !final(self).tree.dirty
                &&& final(self).tree.nodes@.len() == old(self).tree.nodes@.len()
                &&& forall|i: int|
                    0 <= i < final(self).tree.nodes@.len() ==> {
                        &&& #[trigger] final(self).tree.nodes@[i].live == old(self).tree.nodes@[i].live
                        &&& final(self).tree.nodes@[i].style == old(self).tree.nodes@[i].style
                        &&& final(self).tree.nodes@[i].leaf == old(self).tree.nodes@[i].leaf
                        &&& final(self).tree.nodes@[i].children == old(self).tree.nodes@[i].children
                    }
            },
            final(self).outbox == old(self).outbox,
            final(self).ids == old(self).ids,
            final(self).resources == old(self).resources,
            final(self).animation_controller == old(self).animation_controller,
            final(self).layout_controller == old(self).layout_controller,
            final(self).animation_controller == old(self).animation_controller,
    {
        if !self.tree.is_live(node) {
            return Err(LayoutError::NodeNotFound);
        }
        if self.tree.needs_pass(node, space) {
            let results = engine.compute(&self.tree, node, space);
            let ghost before = self.tree;
            self.tree.record_pass(node, space, &results);
            proof {
                assert forall|i: int| 0 <= i < self.tree.nodes@.len() implies {
                    &&& #[trigger] self.tree.nodes@[i].live == old(self).tree.nodes@[i].live
                    &&& self.tree.nodes@[i].style == old(self).tree.nodes@[i].style
                    &&& self.tree.nodes@[i].leaf == old(self).tree.nodes@[i].leaf
                    &&& self.tree.nodes@[i].children == old(self).tree.nodes@[i].children
                } by {
                    assert(crate::layout::laid_out(self.tree.nodes@[i], before.nodes@[i], results@, i));
                }
                assert(self.tree.laid_out_by(&old(self).tree, results@));
            }
        }
        Ok(())
    }

    /// Hands over the posted messages, oldest first, and forgets them.
    pub fn take_posted(&mut self) -> (r: Vec<Posted>)
        ensures
            r@ == old(self).outbox@,
            final(self).outbox@.len() == 0,
            final(self).tree == old(self).tree,
            final(self).layout_controller == old(self).layout_controller,
            final(self).animation_controller == old(self).animation_controller,
            final(self).resources == old(self).resources,
    {
        let mut taken: Vec<Posted> = Vec::new();
        core::mem::swap(&mut taken, &mut self.outbox);
        taken
    }

    /// Pushes an ambient resource under `key`. It hides earlier resources
    /// under the same key until it is popped.
    pub fn push(&mut self, key: u64, resource: R)
        ensures
            final(self).resources@ == old(self).resources@.push((key, resource)),
            final(self).tree == old(self).tree,
            final(self).outbox == old(self).outbox,
    {
        self.resources.push((key, resource));
    }

    /// Removes and returns the most recently pushed resource under `key`,
    /// wherever it stands in the stack.
    pub fn pop(&mut self, key: u64) -> (r: Option<R>)
        ensures
            ({
                let k = last_index_of(old(self).resources@, key);
                &&& k < 0 ==> r.is_none() && final(self).resources@ == old(self).resources@
                &&& k >= 0 ==> r == Some(old(self).resources@[k].1)
                    && final(self).resources@ == old(self).resources@.remove(k)
            }),
            final(self).tree == old(self).tree,
            final(self).outbox == old(self).outbox,
    {
        match self.find(key) {
            Some(k) => {
                let (_, resource) = self.resources.remove(k);
                Some(resource)
            },
            None => None,
        }
    }

    fn find(&self, key: u64) -> (r: Option<usize>)
        ensures
            match r {
                Some(k) => k < self.resources@.len() && k as int == last_index_of(self.resources@, key),
                None => last_index_of(self.resources@, key) < 0,
            },
    {
        proof {
            lemma_last_index_of(self.resources@, key);
        }
        let mut k: usize = self.resources.len();
        while k > 0
            invariant
                k <= self.resources@.len(),
                last_index_of(self.resources@, key) < k,
                -1 <= last_index_of(self.resources@, key) < self.resources@.len(),
                last_index_of(self.resources@, key) >= 0 ==> self.resources@[last_index_of(self.resources@, key)].0 == key,
                forall|m: int| last_index_of(self.resources@, key) < m < self.resources@.len() ==> self.resources@[m].0 != key,
            decreases k,
        {
            if self.resources[k - 1].0 == key {
                return Some(k - 1);
            }
            k -= 1;
        }
        None
    }

    /// The most recently pushed resource under `key`, to change in place.
    pub fn get_mut(&mut self, key: u64) -> (r: Option<&mut R>)
        ensures
            ({
                let k = last_index_of(old(self).resources@, key);
                &&& k < 0 ==> r.is_none() && final(self).resources@ == old(self).resources@
                &&& k >= 0 ==> r.is_some() && *r.unwrap() == old(self).resources@[k].1
                    && final(self).resources@ == old(self).resources@.update(k, (key, *final(r.unwrap())))
            }),
            final(self).tree == old(self).tree,
            final(self).outbox == old(self).outbox,
    {
        proof {
            lemma_last_index_of(self.resources@, key);
        }
        match self.find(key) {
            Some(k) => {
                let entry = &mut self.resources[k];
                Some(&mut entry.1)
            },
            None => None,
        }
    }

    /// The most recently pushed resource under `key`.
    pub fn get(&self, key: u64) -> (r: Option<&R>)
        ensures
            ({
                let k = last_index_of(self.resources@, key);
                &&& k < 0 ==> r.is_none()
                &&& k >= 0 ==> r == Some(&self.resources@[k].1)
            }),
    {
        match self.find(key) {
            Some(k) => Some(&self.resources[k].1),
            None => None,
        }
    }
}

} // verus!
