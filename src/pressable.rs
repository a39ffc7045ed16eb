use vstd::prelude::*;

use crate::context::{Context, ViewId, ViewIds};
use crate::geometry::Size;
use crate::layout::{LayoutTree, NodeId};
use crate::lifecycle::Lifecycle;
use crate::message::{Message, Payload};
use crate::shadow::{AnyShadow, Pod, PressableShadow, WidgetHandle};

verus! {

/// What a native press target reports.
#[derive(Clone, Copy, Debug, PartialEq, Eq, Structural, PartialOrd, Ord, Hash)]
pub enum Press {
    Pressed,
    Released,
    Cancelled,
}

/// The interaction state of a pressable: three independent flags.
#[derive(Clone, Copy, Debug, PartialEq, Eq, Structural, PartialOrd, Ord, Hash)]
pub struct PressState {
    pub pressed: bool,
    pub hovered: bool,
    pub focused: bool,
}

impl PressState {
    pub fn new() -> (r: PressState)
        ensures
            !r.pressed && !r.hovered && !r.focused,
    {
        PressState { pressed: false, hovered: false, focused: false }
    }
}

/// A native callback, forwarded to the pressable that registered it.
#[derive(Clone, Copy, Debug, PartialEq, Eq, Structural, Hash)]
pub enum PressableMessage {
    Pressed(Press),
    Hovered(bool),
    Focused(bool),
}

/// The user callback that a message calls for.
#[derive(Clone, Copy, Debug, PartialEq, Eq, Structural, Hash)]
pub enum Callback {
    OnPress,
    OnHover(bool),
    OnFocus(bool),
}

/// The state after `s` handles `m`, and the callback to invoke.
pub open spec fn press_step(s: PressState, m: PressableMessage) -> (PressState, Option<Callback>) {
    match m {
        PressableMessage::Pressed(p) => (
            PressState { pressed: p == Press::Pressed, ..s },
            if p == Press::Released { Some(Callback::OnPress) } else { None },
        ),
        PressableMessage::Hovered(h) => (PressState { hovered: h, ..s }, Some(Callback::OnHover(h))),
        PressableMessage::Focused(f) => (PressState { focused: f, ..s }, Some(Callback::OnFocus(f))),
    }
}

/// The state and the callbacks after `s` handles each of `msgs` in order.
pub open spec fn run_presses(s: PressState, msgs: Seq<PressableMessage>) -> (PressState, Seq<Option<Callback>>)
    decreases msgs.len(),
{
    if msgs.len() == 0 {
        (s, seq![])
    } else {
        let (s1, c1) = run_presses(s, msgs.drop_last());
        let (s2, c2) = press_step(s1, msgs.last());
        (s2, c1.push(c2))
    }
}

/// How many of `callbacks` call `on_press`.
pub open spec fn press_callbacks(callbacks: Seq<Option<Callback>>) -> nat
    decreases callbacks.len(),
{
    if callbacks.len() == 0 {
        0
    } else {
        press_callbacks(callbacks.drop_last()) + if callbacks.last() == Some(Callback::OnPress) {
            1nat
        } else {
            0nat
        }
    }
}

/// How many of `msgs` report a release.
pub open spec fn releases(msgs: Seq<PressableMessage>) -> nat
    decreases msgs.len(),
{
    if msgs.len() == 0 {
        0
    } else {
        releases(msgs.drop_last()) + if msgs.last() == PressableMessage::Pressed(Press::Released) {
            1nat
        } else {
            0nat
        }
    }
}

/// Over any run of native callbacks, `on_press` fires once per release and
/// never otherwise (not on a press, not on a cancelled press, not on hover
/// or focus), and each callback comes right with its own message.
pub proof fn lemma_press_fires_on_release(s: PressState, msgs: Seq<PressableMessage>)
    ensures
        ({
            let (_, callbacks) = run_presses(s, msgs);
            &&& callbacks.len() == msgs.len()
            &&& press_callbacks(callbacks) == releases(msgs)
            &&& forall|i: int| 0 <= i < msgs.len() ==> (#[trigger] callbacks[i] == Some(Callback::OnPress)
                <==> msgs[i] == PressableMessage::Pressed(Press::Released))
        }),
    decreases msgs.len(),
{
    if msgs.len() > 0 {
        lemma_press_fires_on_release(s, msgs.drop_last());
        let (s1, c1) = run_presses(s, msgs.drop_last());
        let (_, c2) = press_step(s1, msgs.last());
        let callbacks = c1.push(c2);
        assert(callbacks.drop_last() =~= c1);
        assert forall|i: int| 0 <= i < msgs.len() implies (#[trigger] callbacks[i] == Some(Callback::OnPress)
            <==> msgs[i] == PressableMessage::Pressed(Press::Released)) by {
            if i < msgs.len() - 1 {
                assert(callbacks[i] == c1[i]);
                assert(msgs[i] == msgs.drop_last()[i]);
            }
        }
    }
}

/// A cancelled press leaves the pressable not pressed, whatever came before.
pub proof fn lemma_cancel_clears_pressed(s: PressState, msgs: Seq<PressableMessage>)
    requires
        msgs.len() > 0,
        msgs.last() == PressableMessage::Pressed(Press::Cancelled),
    ensures
        !run_presses(s, msgs).0.pressed,
{
}

/// The state a pressable keeps across rebuilds.
#[derive(Clone, Copy, Debug, PartialEq, Eq, Structural, Hash)]
pub struct PressableState {
    pub press: PressState,
    pub view_id: ViewId,
}

/// What handling a message addressed to a pressable decided: the callback to
/// invoke, and that the contents are to be rebuilt from the new state.
#[derive(Clone, Copy, Debug, PartialEq, Eq, Structural, Hash)]
pub struct PressOutcome {
    pub callback: Option<Callback>,
    pub press: PressState,
}

impl PressableState {
    /// A pressable with a fresh view id and no flag set.
    pub fn build(ids: &mut ViewIds) -> (r: PressableState)
        requires
            old(ids).next < u64::MAX,
        ensures
            r.press == (PressState { pressed: false, hovered: false, focused: false }),
            !old(ids).issued(r.view_id),
            final(ids).issued(r.view_id),
            final(ids).next == old(ids).next + 1,
    {
        PressableState { press: PressState::new(), view_id: ids.mint() }
    }

    /// Handles `m` if it is addressed to this pressable (`target` is its view
    /// id); otherwise leaves the state alone and returns `None`, and the
    /// message goes on to the contents.
    pub fn message(&mut self, target: ViewId, m: PressableMessage) -> (r: Option<PressOutcome>)
        ensures
            target != old(self).view_id ==> r.is_none() && *final(self) == *old(self),
            target == old(self).view_id ==> {
                let (next, callback) = press_step(old(self).press, m);
                &&& final(self).press == next
                &&& final(self).view_id == old(self).view_id
                &&& r == Some(PressOutcome { callback, press: next })
            },
    {
        if target != self.view_id {
            return None;
        }
        let callback = match m {
            PressableMessage::Pressed(p) => {
                self.press.pressed = p == Press::Pressed;
                if p == Press::Released {
                    Some(Callback::OnPress)
                } else {
                    None
                }
            },
            PressableMessage::Hovered(h) => {
                self.press.hovered = h;
                Some(Callback::OnHover(h))
            },
            PressableMessage::Focused(f) => {
                self.press.focused = f;
                Some(Callback::OnFocus(f))
            },
        };
        Some(PressOutcome { callback, press: self.press })
    }

    /// The size to give the native press target when the layout signal
    /// passes: that of its layout node, if the node is still live.
    pub fn layout_size(&self, tree: &LayoutTree, node: NodeId) -> (r: Option<Size>)
        ensures
            tree.live(node) ==> r == Some(tree.layout_of(node).size),
            !tree.live(node) ==> r.is_none(),
    {
        match tree.layout(node) {
            Ok(b) => Some(b.size),
            Err(_) => None,
        }
    }
}

/// What a pressable did with a message passing through it.
#[derive(Clone, Copy, Debug, PartialEq, Eq, Structural, Hash)]
pub struct PressDispatch {
    /// The outcome, when the message was this pressable's own.
    pub outcome: Option<PressOutcome>,
    /// The size to give the native press target, on the layout signal.
    pub resize: Option<Size>,
    /// Whether the message goes on to the contents.
    pub forward: bool,
}

/// Builds a pressable around the element `contents`: the native press target
/// `pressable` wraps it and shares its layout node, and the state gets a
/// fresh view id for the native callbacks to address.
pub fn build_pressable<R>(cx: &mut Context<R>, pressable: WidgetHandle, contents: AnyShadow) -> (r: (Pod<PressableShadow>, PressableState))
    requires
        old(cx).ids.next < u64::MAX,
    ensures
        r.0.node == contents.node,
        r.0.shadow.pressable == pressable,
        *r.0.shadow.contents == contents.shadow,
        r.1.press == (PressState { pressed: false, hovered: false, focused: false }),
        !old(cx).ids.issued(r.1.view_id),
        final(cx).ids.issued(r.1.view_id),
        final(cx).tree == old(cx).tree,
        final(cx).outbox == old(cx).outbox,
{
    let state = PressableState::build(&mut cx.ids);
    let node = contents.node;
    let shadow = PressableShadow::new(pressable, contents.shadow);
    (Pod { node, shadow }, state)
}

impl PressableState {
    /// Routes `message` at a pressable whose layout node is `node`. The
    /// layout signal makes the native target take its node's size, and goes
    /// on. A message addressed to this pressable is handled here and not
    /// forwarded; any other goes on to the contents unchanged.
    pub fn dispatch(&mut self, tree: &LayoutTree, node: NodeId, message: &mut Message) -> (r: PressDispatch)
        ensures
            r.resize == if old(message).target.is_none() && old(message).payload == Some(Payload::Lifecycle(Lifecycle::Layout)) && tree.live(node) {
                Some(tree.layout_of(node).size)
            } else {
                None::<Size>
            },
            old(message).target == Some(old(self).view_id) ==> {
                &&& !r.forward
                &&& final(message).payload.is_none()
                &&& match old(message).payload {
                    Some(Payload::Pressable(m)) => {
                        let (next, callback) = press_step(old(self).press, m);
                        &&& final(self).press == next
                        &&& r.outcome == Some(PressOutcome { callback, press: next })
                    },
                    _ => r.outcome.is_none() && final(self).press == old(self).press,
                }
            },
            old(message).target != Some(old(self).view_id) ==> {
                &&& r.forward
                &&& r.outcome.is_none()
                &&& *final(message) == *old(message)
                &&& final(self).press == old(self).press
            },
            final(self).view_id == old(self).view_id,
    {
        let mut resize: Option<Size> = None;
        if message.get() == Some(Payload::Lifecycle(Lifecycle::Layout)) {
            resize = self.layout_size(tree, node);
        }
        let id = self.view_id;
        match message.take_targeted(id) {
            Some(Payload::Pressable(m)) => {
                let outcome = self.message(id, m);
                PressDispatch { outcome, resize, forward: false }
            },
            Some(_) => PressDispatch { outcome: None, resize, forward: false },
            None => {
                if message.target == Some(id) {
                    PressDispatch { outcome: None, resize, forward: false }
                } else {
                    PressDispatch { outcome: None, resize, forward: true }
                }
            },
        }
    }
}

} // verus!
