use vstd::prelude::*;

use crate::context::{Context, Controllers, ViewId, WindowMessage};
use crate::geometry::{AvailableSpace, LayoutBox, Size};
use crate::layout::{LayoutError, LayoutNode, LayoutTree, NodeId, SpaceRequest, laid_out};
use crate::message::{Message, Payload};
use crate::shadow::{AnyShadow, WidgetHandle, all_removed, teardown, teardown_order, widgets_of};
use crate::style::{Dimensions, Style};

verus! {

/// A window around the view `contents`.
pub struct Window<V> {
    pub contents: V,
}

/// A window around `contents`.
pub fn window<V>(contents: V) -> (r: Window<V>)
    ensures
        r.contents == contents,
{
    Window { contents }
}

/// What the native window, or the window's contents, are to be told.
#[derive(Clone, Copy, Debug, PartialEq, Eq, Structural, Hash)]
pub enum WindowCommand {
    /// Begin delivering animation frames.
    StartFrames,
    /// Stop delivering animation frames.
    StopFrames,
    /// Ask the platform to quit.
    Quit,
    /// The smallest size the window may be given.
    SetMinSize(Size),
    /// Send the layout lifecycle signal down through the contents.
    DeliverLayout,
    /// Send an animation frame, nanoseconds since the last, to the contents.
    ForwardFrame(u64),
}

/// Computes layout passes over a [`LayoutTree`]: the flexbox algorithm and
/// the measurement of leaves, provided by the platform layer.
pub trait LayoutEngine {
    /// The geometry of `root` and of the nodes under it, laid out in `space`.
    fn compute(&mut self, tree: &LayoutTree, root: NodeId, space: SpaceRequest) -> Vec<(NodeId, LayoutBox)>;
}

/// The state a window keeps across rebuilds.
#[derive(Clone, Copy, Debug, PartialEq, Eq, Structural, Hash)]
pub struct WindowState {
    /// The window's own layout node, parent of the contents' node.
    pub node: NodeId,
    /// The layout node of the contents.
    pub content: NodeId,
    pub view_id: ViewId,
    /// The native size recorded by the last layout.
    pub width: u32,
    pub height: u32,
    /// How many animations want frames.
    pub animating: u32,
    /// Closing was requested; nothing is handled any more.
    pub closed: bool,
}

/// Where a message routed at a window went.
pub enum Route {
    /// The window handled it.
    Handled(WindowResponse),
    /// It goes on to the contents, inside the window's controllers; the
    /// controllers to put back afterwards.
    Contents(Controllers),
}

/// What handling one message decided.
pub struct WindowResponse {
    pub commands: Vec<WindowCommand>,
    /// Whether the layout algorithm is to run again.
    pub relayout: bool,
}

/// The state, commands and relayout decision after `s` handles `m` while the
/// native window has the size `native`.
pub open spec fn message_step(s: WindowState, m: WindowMessage, native: Size) -> (WindowState, Seq<WindowCommand>, bool) {
    if s.closed {
        (s, seq![], false)
    } else {
        match m {
            WindowMessage::AnimationFrame(delta) => if s.animating == 0 {
                (s, seq![], false)
            } else {
                (s, seq![WindowCommand::ForwardFrame(delta)], false)
            },
            WindowMessage::StartAnimating => {
                let next = if s.animating == u32::MAX { s.animating } else { (s.animating + 1) as u32 };
                let cmds = if s.animating == 0 { seq![WindowCommand::StartFrames] } else { seq![] };
                (WindowState { animating: next, ..s }, cmds, false)
            },
            WindowMessage::StopAnimating => if s.animating == 0 {
                (s, seq![], false)
            } else {
                let cmds = if s.animating == 1 { seq![WindowCommand::StopFrames] } else { seq![] };
                (WindowState { animating: (s.animating - 1) as u32, ..s }, cmds, false)
            },
            WindowMessage::CloseRequested => (WindowState { closed: true, ..s }, seq![WindowCommand::Quit], false),
            WindowMessage::Relayout => (s, seq![], true),
            WindowMessage::Resized => (s, seq![], native.width != s.width || native.height != s.height),
        }
    }
}

/// The state and the commands after `s` handles each of `msgs` in order, each
/// message paired with the native size at the time.
pub open spec fn run_messages(s: WindowState, msgs: Seq<(WindowMessage, Size)>) -> (WindowState, Seq<WindowCommand>)
    decreases msgs.len(),
{
    if msgs.len() == 0 {
        (s, seq![])
    } else {
        let (s1, c1) = run_messages(s, msgs.drop_last());
        let (s2, c2, _) = message_step(s1, msgs.last().0, msgs.last().1);
        (s2, c1 + c2)
    }
}

/// How many times `cmds` starts frame delivery, less how many times it stops it.
pub open spec fn frame_balance(cmds: Seq<WindowCommand>) -> int
    decreases cmds.len(),
{
    if cmds.len() == 0 {
        0
    } else {
        frame_balance(cmds.drop_last()) + if cmds.last() == WindowCommand::StartFrames {
            1int
        } else if cmds.last() == WindowCommand::StopFrames {
            -1int
        } else {
            0int
        }
    }
}

pub open spec fn frames_on(s: WindowState) -> int {
    if s.animating > 0 { 1 } else { 0 }
}

proof fn lemma_frame_balance_concat(a: Seq<WindowCommand>, b: Seq<WindowCommand>)
    ensures
        frame_balance(a + b) == frame_balance(a) + frame_balance(b),
    decreases b.len(),
{
    if b.len() > 0 {
        lemma_frame_balance_concat(a, b.drop_last());
        assert((a + b).drop_last() =~= a + b.drop_last());
    } else {
        assert(a + b =~= a);
    }
}

/// Frame delivery follows the animation count over any run of messages: the
/// starts less the stops issued equal the change in whether any animation
/// wants frames. So, from a state with none, delivery is started once when
/// the first animation starts and stopped once when the last one stops,
/// however the requests overlap.
pub proof fn lemma_frames_follow_count(s: WindowState, msgs: Seq<(WindowMessage, Size)>)
    ensures
        ({
            let (last, cmds) = run_messages(s, msgs);
            frame_balance(cmds) == frames_on(last) - frames_on(s)
        }),
    decreases msgs.len(),
{
    if msgs.len() > 0 {
        lemma_frames_follow_count(s, msgs.drop_last());
        let (s1, c1) = run_messages(s, msgs.drop_last());
        let (s2, c2, _) = message_step(s1, msgs.last().0, msgs.last().1);
        lemma_frame_balance_concat(c1, c2);
        assert(frame_balance(c2) == frames_on(s2) - frames_on(s1)) by {
            assert(frame_balance(Seq::<WindowCommand>::empty()) == 0);
            if c2.len() == 1 {
                assert(c2.drop_last() =~= Seq::<WindowCommand>::empty());
                assert(frame_balance(c2) == frame_balance(c2.drop_last()) + if c2.last() == WindowCommand::StartFrames {
                    1int
                } else if c2.last() == WindowCommand::StopFrames {
                    -1int
                } else {
                    0int
                });
            }
            if !s1.closed {
                match msgs.last().0 {
                    WindowMessage::StartAnimating => {
                        if s1.animating == 0 {
                            assert(c2 =~= seq![WindowCommand::StartFrames]);
                        } else {
                            assert(c2 =~= Seq::<WindowCommand>::empty());
                        }
                    },
                    WindowMessage::StopAnimating => {
                        if s1.animating == 1 {
                            assert(c2 =~= seq![WindowCommand::StopFrames]);
                        } else {
                            assert(c2 =~= Seq::<WindowCommand>::empty());
                        }
                    },
                    WindowMessage::AnimationFrame(d) => {
                        if s1.animating != 0 {
                            assert(c2 =~= seq![WindowCommand::ForwardFrame(d)]);
                        } else {
                            assert(c2 =~= Seq::<WindowCommand>::empty());
                        }
                    },
                    WindowMessage::CloseRequested => {
                        assert(c2 =~= seq![WindowCommand::Quit]);
                    },
                    _ => {
                        assert(c2 =~= Seq::<WindowCommand>::empty());
                    },
                }
            } else {
                assert(c2 =~= Seq::<WindowCommand>::empty());
            }
        }
    }
}

/// The style that asks the layout pass for the content's minimum size.
pub open spec fn probe_style() -> Style {
    Style { max_size: Dimensions::lengths_spec(0, 0), ..Style::default_spec() }
}

/// The style that gives the root the window's size.
pub open spec fn sized_style(size: Size) -> Style {
    Style { size: Dimensions::lengths_spec(size.width, size.height), ..Style::default_spec() }
}

pub open spec fn min_content_space() -> SpaceRequest {
    SpaceRequest { width: AvailableSpace::MinContent, height: AvailableSpace::MinContent }
}

pub open spec fn definite_space(size: Size) -> SpaceRequest {
    SpaceRequest { width: AvailableSpace::Definite(size.width), height: AvailableSpace::Definite(size.height) }
}

/// The commands that end a layout: the new minimum size, then the layout
/// signal down through the contents, sent on every pass.
pub open spec fn layout_commands(min: Size) -> Seq<WindowCommand> {
    seq![WindowCommand::SetMinSize(min), WindowCommand::DeliverLayout]
}

/// The state after a layout at native size `native`.
pub open spec fn after_layout(s: WindowState, native: Size) -> WindowState {
    WindowState { width: native.width, height: native.height, ..s }
}

/// The tree `mid` is one in which the min-content pass of the window with
/// node `node` has run: the node has the probe style and the geometry of a
/// min-content pass from it.
pub open spec fn min_pass_done(mid: LayoutTree, node: NodeId) -> bool {
    &&& mid.wf()
    &&& mid.live(node)
    &&& mid.style_of(node) == probe_style()
    &&& mid.last_pass == Some((node, min_content_space()))
    &&& !mid.dirty
}

/// The nodes of `old` with only the node `node` restyled to the probe style.
pub open spec fn probed_nodes(old: &LayoutTree, node: NodeId) -> Seq<LayoutNode> {
    old.nodes@.update(node.index as int, LayoutNode { style: probe_style(), ..old.nodes@[node.index as int] })
}

/// The nodes `after` are the nodes `before` laid out by a pass that
/// returned `results`.
pub open spec fn pass_result(after: Seq<LayoutNode>, before: Seq<LayoutNode>, results: Seq<(NodeId, LayoutBox)>) -> bool {
    &&& after.len() == before.len()
    &&& forall|i: int| 0 <= i < after.len() ==> laid_out(#[trigger] after[i], before[i], results, i)
}

/// `mid` is `old` after the min-content pass of the window whose node is
/// `node`: only that node was restyled, to the probe style, and then one
/// min-content pass from it laid the tree out.
pub open spec fn min_pass_from(old: &LayoutTree, mid: &LayoutTree, node: NodeId) -> bool {
    &&& min_pass_done(*mid, node)
    &&& exists|results: Seq<(NodeId, LayoutBox)>| #[trigger] pass_result(mid.nodes@, probed_nodes(old, node), results)
}

/// `pre` is `old` with one more node, `node`, the window's root: live, of
/// the default style, without a leaf, and holding only `content`.
pub open spec fn root_added(old: &LayoutTree, pre: &LayoutTree, node: NodeId, content: NodeId) -> bool {
    &&& node.index == old.nodes@.len()
    &&& pre.nodes@.len() == old.nodes@.len() + 1
    &&& pre.nodes@.take(old.nodes@.len() as int) == old.nodes@
    &&& pre.live(node)
    &&& pre.style_of(node) == Style::default_spec()
    &&& pre.leaf_of(node).is_none()
    &&& pre.children_of(node) == seq![content]
}

/// The state a layout leaves is the same whether it runs once or twice at
/// the same native size, and a layout given the minimum size `min` issues
/// exactly one minimum size and one layout signal, whatever ran before.
/// (That the minimum is the same the second time depends on the layout
/// engine returning the same geometry for the same tree.)
pub proof fn lemma_layout_idempotent(s: WindowState, native: Size, min: Size)
    ensures
        ({
            let once = after_layout(s, native);
            &&& after_layout(once, native) == once
            &&& layout_commands(min).len() == 2
            &&& layout_commands(min)[0] == WindowCommand::SetMinSize(min)
            &&& layout_commands(min)[1] == WindowCommand::DeliverLayout
        }),
{
}

impl WindowState {
    /// The window's node is live, has no leaf, and holds the contents' node.
    pub open spec fn placed(&self, tree: &LayoutTree) -> bool {
        &&& tree.live(self.node)
        &&& tree.leaf_of(self.node).is_none()
        &&& tree.live(self.content)
        &&& self.content != self.node
    }

    /// Begins building a window: mints its view id and makes it the receiver
    /// of relayout and animation requests, so that the contents, built next,
    /// send theirs to this window and no further. Returns the id and what
    /// [`WindowState::build`] puts back.
    pub fn begin_build<R>(cx: &mut Context<R>) -> (r: (ViewId, Controllers))
        requires
            old(cx).ids.next < u64::MAX,
        ensures
            !old(cx).ids.issued(r.0),
            final(cx).ids.issued(r.0),
            final(cx).ids.next == old(cx).ids.next + 1,
            final(cx).layout_controller == Some(r.0),
            final(cx).animation_controller == Some(r.0),
            r.1 == (Controllers { layout: old(cx).layout_controller, animation: old(cx).animation_controller }),
            final(cx).tree == old(cx).tree,
            final(cx).outbox == old(cx).outbox,
    {
        let view_id = cx.ids.mint();
        let saved = cx.with_window(view_id);
        (view_id, saved)
    }

    /// Finishes building the window `view_id` around contents whose layout
    /// node is `content`: puts back the controllers `saved`, makes the
    /// window's root node with the contents' node as its child, and runs the
    /// first layout pass at the native size `native`, whose commands come
    /// back with the state.
    pub fn build<R, E: LayoutEngine>(
        cx: &mut Context<R>,
        engine: &mut E,
        saved: Controllers,
        view_id: ViewId,
        content: NodeId,
        native: Size,
    ) -> (r: Result<(WindowState, Vec<WindowCommand>), LayoutError>)
        requires
            old(cx).wf(),
            old(cx).tree.nodes@.len() < usize::MAX,
        ensures
            final(cx).wf(),
            final(cx).ids == old(cx).ids,
            r.is_ok() <==> old(cx).tree.live(content),
            r.is_err() ==> r == Err::<(WindowState, Vec<WindowCommand>), LayoutError>(LayoutError::NodeNotFound),
            saved.layout.is_none() ==> final(cx).layout_controller.is_none(),
            saved.layout.is_some() ==> final(cx).layout_controller == saved.layout
                || final(cx).layout_controller.is_none(),
            final(cx).animation_controller == saved.animation,
            r.is_ok() ==> {
                let (s, commands) = r.unwrap();
                &&& s.placed(&final(cx).tree)
                &&& s.view_id == view_id
                &&& s.content == content
                &&& final(cx).tree.children_of(s.node) == seq![content]
                &&& s.width == native.width && s.height == native.height
                &&& s.animating == 0
                &&& !s.closed
                &&& exists|pre: LayoutTree, mid: LayoutTree| {
                    &&& #[trigger] root_added(&old(cx).tree, &pre, s.node, content)
                    &&& #[trigger] min_pass_from(&pre, &mid, s.node)
                    &&& commands@ == layout_commands(mid.layout_of(s.node).content_size)
                }
            },
    {
        cx.leave_window(saved);
        let mut children: Vec<NodeId> = Vec::new();
        children.push(content);
        match cx.new_layout_node(Style::new(), children) {
            Ok(node) => {
                proof {
                    assert(children@[0] == content);
                    assert(old(cx).tree.live(content));
                    assert(cx.tree.nodes@[content.index as int] == old(cx).tree.nodes@[content.index as int]);
                    assert(children@ =~= seq![content]);
                }
                let mut state = WindowState {
                    node,
                    content,
                    view_id,
                    width: native.width,
                    height: native.height,
                    animating: 0,
                    closed: false,
                };
                let ghost pre = cx.tree;
                proof {
                    assert(pre.nodes@.take(old(cx).tree.nodes@.len() as int) =~= old(cx).tree.nodes@) by {
                        assert forall|i: int| 0 <= i < old(cx).tree.nodes@.len() implies pre.nodes@[i] == old(cx).tree.nodes@[i] by {}
                    }
                    assert(root_added(&old(cx).tree, &pre, node, content));
                }
                let commands = state.layout(cx, engine, native);
                Ok((state, commands))
            },
            Err(e) => {
                proof {
                    assert(children@[0] == content);
                }
                Err(e)
            },
        }
    }

    /// Handles one message addressed to this window. `native` is the native
    /// window's current size.
    pub fn message(&mut self, m: WindowMessage, native: Size) -> (r: WindowResponse)
        ensures
            (*final(self), r.commands@, r.relayout) == message_step(*old(self), m, native),
    {
        let mut commands: Vec<WindowCommand> = Vec::new();
        if self.closed {
            proof {
                assert(commands@ =~= seq![]);
            }
            return WindowResponse { commands, relayout: false };
        }
        let mut relayout = false;
        match m {
            WindowMessage::AnimationFrame(delta) => {
                if self.animating != 0 {
                    commands.push(WindowCommand::ForwardFrame(delta));
                }
            },
            WindowMessage::StartAnimating => {
                if self.animating == 0 {
                    commands.push(WindowCommand::StartFrames);
                }
                if self.animating < u32::MAX {
                    self.animating = self.animating + 1;
                }
            },
            WindowMessage::StopAnimating => {
                if self.animating > 0 {
                    self.animating = self.animating - 1;
                    if self.animating == 0 {
                        commands.push(WindowCommand::StopFrames);
                    }
                }
            },
            WindowMessage::CloseRequested => {
                self.closed = true;
                commands.push(WindowCommand::Quit);
            },
            WindowMessage::Relayout => {
                relayout = true;
            },
            WindowMessage::Resized => {
                relayout = native.width != self.width || native.height != self.height;
            },
        }
        proof {
            let (_, cmds, _) = message_step(*old(self), m, native);
            assert(commands@ =~= cmds);
        }
        WindowResponse { commands, relayout }
    }

    /// Routes `message` at this window. One addressed to the window with a
    /// window signal is handled here and goes no further; any other goes on
    /// to the contents unchanged, inside the window's controllers.
    pub fn dispatch(&mut self, message: &mut Message, native: Size) -> (r: Option<WindowResponse>)
        ensures
            old(message).target == Some(old(self).view_id) ==> final(message).payload.is_none() && match old(message).payload {
                Some(Payload::Window(m)) => {
                    &&& r.is_some()
                    &&& (*final(self), r.unwrap().commands@, r.unwrap().relayout) == message_step(*old(self), m, native)
                },
                _ => r.is_some() && r.unwrap().commands@.len() == 0 && !r.unwrap().relayout
                    && *final(self) == *old(self),
            },
            old(message).target != Some(old(self).view_id) ==> r.is_none() && *final(message) == *old(message)
                && *final(self) == *old(self),
    {
        let id = self.view_id;
        match message.take_targeted(id) {
            Some(Payload::Window(m)) => Some(self.message(m, native)),
            Some(_) => Some(WindowResponse { commands: Vec::new(), relayout: false }),
            None => {
                if message.target == Some(id) {
                    Some(WindowResponse { commands: Vec::new(), relayout: false })
                } else {
                    None
                }
            },
        }
    }

    /// Routes `message` at this window within the context `cx`. A message of
    /// the window's own is handled here, as [`WindowState::dispatch`] does.
    /// Any other goes on, unchanged, to the contents: the window's
    /// controllers are entered so that the contents' requests come here and
    /// no further, and what [`Context::leave_window`] puts back once the
    /// contents have handled it comes back.
    pub fn route<R>(&mut self, cx: &mut Context<R>, message: &mut Message, native: Size) -> (r: Route)
        ensures
            old(message).target == Some(old(self).view_id) ==> r is Handled && final(message).payload.is_none()
                && final(cx).layout_controller == old(cx).layout_controller
                && final(cx).animation_controller == old(cx).animation_controller
                && match old(message).payload {
                    Some(Payload::Window(m)) => (*final(self), r->Handled_0.commands@, r->Handled_0.relayout)
                        == message_step(*old(self), m, native),
                    _ => r->Handled_0.commands@.len() == 0 && !r->Handled_0.relayout && *final(self) == *old(self),
                },
            old(message).target != Some(old(self).view_id) ==> r == Route::Contents(Controllers {
                layout: old(cx).layout_controller,
                animation: old(cx).animation_controller,
            }) && *final(message) == *old(message) && *final(self) == *old(self)
                && final(cx).layout_controller == Some(old(self).view_id)
                && final(cx).animation_controller == Some(old(self).view_id),
            final(cx).tree == old(cx).tree,
            final(cx).outbox == old(cx).outbox,
            final(cx).ids == old(cx).ids,
    {
        match self.dispatch(message, native) {
            Some(response) => Route::Handled(response),
            None => Route::Contents(cx.with_window(self.view_id)),
        }
    }

    /// The first half of the layout algorithm: lays the root out with a zero
    /// maximum size in min-content space, and returns the content size found
    /// there, the smallest the window may be.
    pub fn measure_min<R, E: LayoutEngine>(&self, cx: &mut Context<R>, engine: &mut E) -> (r: Size)
        requires
            old(cx).wf(),
            self.placed(&old(cx).tree),
        ensures
            final(cx).wf(),
            self.placed(&final(cx).tree),
            r == final(cx).tree.layout_of(self.node).content_size,
            final(cx).tree.style_of(self.node) == probe_style(),
            final(cx).tree.children_of(self.node) == old(cx).tree.children_of(self.node),
            final(cx).tree.last_pass == Some((self.node, min_content_space())),
            final(cx).ids == old(cx).ids,
            !final(cx).tree.dirty,
            final(cx).tree.nodes@.len() == old(cx).tree.nodes@.len(),
            final(cx).tree.leaf_of(self.node) == old(cx).tree.leaf_of(self.node),
            final(cx).animation_controller == old(cx).animation_controller,
            final(cx).layout_controller.is_none() || final(cx).layout_controller == old(cx).layout_controller,
            old(cx).layout_controller.is_none() ==> final(cx).outbox@ == old(cx).outbox@
                && final(cx).layout_controller.is_none(),
            final(cx).outbox@ == old(cx).outbox@ || final(cx).outbox@ == old(cx).outbox@ + Context::<R>::relayout_posts(
                old(cx).layout_controller,
            ),
            final(cx).outbox@ != old(cx).outbox@ ==> final(cx).layout_controller.is_none(),
            final(cx).layout_controller != old(cx).layout_controller ==> final(cx).outbox@ == old(cx).outbox@
                + Context::<R>::relayout_posts(old(cx).layout_controller),
            min_pass_from(&old(cx).tree, &final(cx).tree, self.node),
    {
        let probe = Style { max_size: Dimensions::lengths(0, 0), ..Style::new() };
        let ghost o0 = cx.outbox@;
        let _ = cx.set_layout_style(self.node, probe);
        proof {
            assert(o0 + Context::<R>::relayout_posts(None) =~= o0);
            assert(cx.tree.nodes@ =~= probed_nodes(&old(cx).tree, self.node)) by {
                assert forall|i: int| 0 <= i < cx.tree.nodes@.len() implies cx.tree.nodes@[i] == probed_nodes(&old(cx).tree, self.node)[i] by {
                    if i != self.node.index {
                        assert(cx.tree.nodes@[i] == old(cx).tree.nodes@[i]);
                    }
                }
            }
        }
        let min_space = SpaceRequest { width: AvailableSpace::MinContent, height: AvailableSpace::MinContent };
        let ghost t = cx.tree;
        let _ = cx.compute_layout(engine, self.node, min_space);
        proof {
            assert(cx.tree.nodes@[self.node.index as int].live == t.nodes@[self.node.index as int].live);
            assert(cx.tree.nodes@[self.content.index as int].live == t.nodes@[self.content.index as int].live);
            if t.needs_pass_spec(self.node, min_space) {
                let results = choose|results: Seq<(NodeId, LayoutBox)>| #[trigger] cx.tree.laid_out_by(&t, results);
                assert(pass_result(cx.tree.nodes@, probed_nodes(&old(cx).tree, self.node), results));
            } else {
                let none = Seq::<(NodeId, LayoutBox)>::empty();
                assert forall|i: int| 0 <= i < cx.tree.nodes@.len() implies laid_out(
                    #[trigger] cx.tree.nodes@[i],
                    t.nodes@[i],
                    none,
                    i,
                ) by {}
                assert(pass_result(cx.tree.nodes@, probed_nodes(&old(cx).tree, self.node), none));
            }
        }
        match cx.get_computed_layout(self.node) {
            Ok(b) => b.content_size,
            Err(_) => Size::zero(),
        }
    }

    /// The second half of the layout algorithm: records the native size
    /// `native`, gives the root the window's size and lays it out in that
    /// definite space. The commands set the minimum size `min`, then send the
    /// layout signal down through the contents.
    pub fn finish_layout<R, E: LayoutEngine>(&mut self, cx: &mut Context<R>, engine: &mut E, native: Size, min: Size) -> (r: Vec<WindowCommand>)
        requires
            old(cx).wf(),
            old(self).placed(&old(cx).tree),
        ensures
            final(cx).wf(),
            final(self).placed(&final(cx).tree),
            final(cx).tree.style_of(old(self).node) == sized_style(native),
            final(cx).tree.children_of(old(self).node) == old(cx).tree.children_of(old(self).node),
            final(cx).tree.last_pass == Some((old(self).node, definite_space(native))),
            final(cx).ids == old(cx).ids,
            final(cx).animation_controller == old(cx).animation_controller,
            final(cx).layout_controller.is_none() || final(cx).layout_controller == old(cx).layout_controller,
            old(cx).layout_controller.is_none() ==> final(cx).outbox@ == old(cx).outbox@,
            final(cx).outbox@ == old(cx).outbox@ || final(cx).outbox@ == old(cx).outbox@ + Context::<R>::relayout_posts(
                old(cx).layout_controller,
            ),
            final(cx).outbox@ != old(cx).outbox@ ==> final(cx).layout_controller.is_none(),
            final(cx).layout_controller != old(cx).layout_controller ==> final(cx).outbox@ == old(cx).outbox@
                + Context::<R>::relayout_posts(old(cx).layout_controller),
            !final(cx).tree.dirty,
            r@ == layout_commands(min),
            *final(self) == after_layout(*old(self), native),
    {
        self.width = native.width;
        self.height = native.height;
        let mut commands: Vec<WindowCommand> = Vec::new();
        commands.push(WindowCommand::SetMinSize(min));
        let sized = Style { size: Dimensions::lengths(native.width, native.height), ..Style::new() };
        let ghost o1 = cx.outbox@;
        let _ = cx.set_layout_style(self.node, sized);
        proof {
            assert(o1 + Context::<R>::relayout_posts(None) =~= o1);
        }
        let space = SpaceRequest { width: AvailableSpace::Definite(native.width), height: AvailableSpace::Definite(native.height) };
        let ghost t = cx.tree;
        let _ = cx.compute_layout(engine, self.node, space);
        proof {
            assert(cx.tree.nodes@[self.node.index as int].live == t.nodes@[self.node.index as int].live);
            assert(cx.tree.nodes@[self.content.index as int].live == t.nodes@[self.content.index as int].live);
        }
        commands.push(WindowCommand::DeliverLayout);
        proof {
            assert(commands@ =~= layout_commands(min));
        }
        commands
    }

    /// The layout algorithm: [`WindowState::measure_min`], whose result, the
    /// content size that the min-content pass left on the window's node, is
    /// the minimum size handed to the native window; then
    /// [`WindowState::finish_layout`] at the native size `native`.
    pub fn layout<R, E: LayoutEngine>(&mut self, cx: &mut Context<R>, engine: &mut E, native: Size) -> (r: Vec<WindowCommand>)
        requires
            old(cx).wf(),
            old(self).placed(&old(cx).tree),
        ensures
            final(cx).wf(),
            final(self).placed(&final(cx).tree),
            final(cx).tree.style_of(old(self).node) == sized_style(native),
            final(cx).tree.children_of(old(self).node) == old(cx).tree.children_of(old(self).node),
            final(cx).tree.last_pass == Some((old(self).node, definite_space(native))),
            final(cx).ids == old(cx).ids,
            final(cx).animation_controller == old(cx).animation_controller,
            final(cx).layout_controller.is_none() || final(cx).layout_controller == old(cx).layout_controller,
            old(cx).layout_controller.is_none() ==> final(cx).outbox@ == old(cx).outbox@,
            final(cx).outbox@ == old(cx).outbox@ || final(cx).outbox@ == old(cx).outbox@ + Context::<R>::relayout_posts(
                old(cx).layout_controller,
            ),
            final(cx).outbox@ != old(cx).outbox@ ==> final(cx).layout_controller.is_none(),
            final(cx).layout_controller != old(cx).layout_controller ==> final(cx).outbox@ == old(cx).outbox@
                + Context::<R>::relayout_posts(old(cx).layout_controller),
            !final(cx).tree.dirty,
            *final(self) == after_layout(*old(self), native),
            exists|mid: LayoutTree| {
                &&& #[trigger] min_pass_from(&old(cx).tree, &mid, old(self).node)
                &&& r@ == layout_commands(mid.layout_of(old(self).node).content_size)
            },
    {
        let min = self.measure_min(cx, engine);
        let ghost mid = cx.tree;
        let ghost o1 = cx.outbox@;
        let ghost c1 = cx.layout_controller;
        let r = self.finish_layout(cx, engine, native, min);
        proof {
            let o0 = old(cx).outbox@;
            let c0 = old(cx).layout_controller;
            assert(Context::<R>::relayout_posts(None) =~= Seq::<crate::context::Posted>::empty());
            assert(o1 + Seq::<crate::context::Posted>::empty() =~= o1);
            if o1 != o0 {
                assert(c1.is_none());
                assert(cx.outbox@ == o1);
            } else {
                if c1 != c0 {
                    assert(o1 == o0 + Context::<R>::relayout_posts(c0));
                    assert(c0.is_some());
                    assert(Context::<R>::relayout_posts(c0).len() == 1);
                    assert(false);
                }
            }
            assert(min_pass_from(&old(cx).tree, &mid, old(self).node));
            assert(r@ == layout_commands(mid.layout_of(old(self).node).content_size));
        }
        r
    }

    /// Tears down the window's contents, whose element is `contents`, inside
    /// the window's controllers: the first step of closing a window. The
    /// native window is released next, by the platform, and then the
    /// window's node, by [`WindowState::teardown`].
    pub fn teardown_contents<R>(&self, cx: &mut Context<R>, contents: AnyShadow, released: &mut Vec<WidgetHandle>)
        requires
            old(cx).wf(),
        ensures
            final(cx).wf(),
            final(released)@ == old(released)@ + widgets_of(teardown_order(contents.shadow, contents.node)),
            all_removed(&final(cx).tree, teardown_order(contents.shadow, contents.node)),
            forall|n: NodeId| final(cx).tree.live(n) ==> old(cx).tree.live(n),
            final(cx).layout_controller == old(cx).layout_controller,
            final(cx).animation_controller == old(cx).animation_controller,
            final(cx).outbox == old(cx).outbox,
    {
        let saved = cx.with_window(self.view_id);
        teardown(&mut cx.tree, contents, released);
        cx.leave_window(saved);
    }

    /// Releases the window's layout node: the last step of closing a window,
    /// after [`WindowState::teardown_contents`] and the native window.
    pub fn teardown<R>(self, cx: &mut Context<R>) -> (r: Result<(), LayoutError>)
        requires
            old(cx).wf(),
        ensures
            final(cx).wf(),
            r.is_ok() <==> old(cx).tree.live(self.node),
            !final(cx).tree.live(self.node),
            r.is_err() ==> final(cx).tree == old(cx).tree,
    {
        cx.remove_layout_node(self.node)
    }
}

} // verus!
