use ori_native::{
    Route,
    LayoutError, TextShadow, ErasedShadow, Pod, WidgetHandle,
    AvailableSpace, Context, Lifecycle, Message, Payload, LayoutBox, LayoutEngine, LayoutTree, NodeId, Size, SpaceRequest,
    Style, WindowCommand, WindowMessage, WindowState,
};

/// Lays the root out at the room it is given and the content at a fixed
/// minimum size.
struct FixedEngine {
    content_min: Size,
    content: NodeId,
    calls: usize,
}

impl LayoutEngine for FixedEngine {
    fn compute(&mut self, _tree: &LayoutTree, root: NodeId, space: SpaceRequest) -> Vec<(NodeId, LayoutBox)> {
        self.calls += 1;
        let size = match (space.width, space.height) {
            (AvailableSpace::Definite(w), AvailableSpace::Definite(h)) => Size::new(w, h),
            _ => Size::zero(),
        };
        let root_box = LayoutBox { x: 0, y: 0, size, content_size: self.content_min };
        let content_box = LayoutBox { x: 0, y: 0, size, content_size: self.content_min };
        vec![(root, root_box), (self.content, content_box)]
    }
}

fn open_window(cx: &mut Context<u8>, native: Size) -> (WindowState, NodeId) {
    let (id, saved) = WindowState::begin_build(cx);
    assert_eq!(cx.layout_controller, Some(id));
    let content = cx.tree.new_leaf(Style::new());
    let mut engine = FixedEngine { content_min: Size::new(1, 1), content, calls: 0 };
    let (state, commands) = WindowState::build(cx, &mut engine, saved, id, content, native).unwrap();
    assert_eq!(commands, vec![WindowCommand::SetMinSize(Size::new(1, 1)), WindowCommand::DeliverLayout]);
    assert_eq!(state.view_id, id);
    assert_eq!(cx.layout_controller, None);
    (state, content)
}

#[test]
fn overlapping_animations_start_and_stop_frames_once() {
    let mut cx: Context<u8> = Context::new();
    let native = Size::new(800, 600);
    let (mut w, _) = open_window(&mut cx, native);
    let mut all = Vec::new();
    for m in [
        WindowMessage::StartAnimating,
        WindowMessage::StartAnimating,
        WindowMessage::StopAnimating,
        WindowMessage::StopAnimating,
    ] {
        all.extend(w.message(m, native).commands);
    }
    assert_eq!(all, vec![WindowCommand::StartFrames, WindowCommand::StopFrames]);
    assert_eq!(w.animating, 0);
}

#[test]
fn frame_without_animation_is_dropped() {
    let mut cx: Context<u8> = Context::new();
    let native = Size::new(800, 600);
    let (mut w, _) = open_window(&mut cx, native);
    let r = w.message(WindowMessage::AnimationFrame(16_000_000), native);
    assert!(r.commands.is_empty());
    w.message(WindowMessage::StartAnimating, native);
    let r = w.message(WindowMessage::AnimationFrame(16_000_000), native);
    assert_eq!(r.commands, vec![WindowCommand::ForwardFrame(16_000_000)]);
}

#[test]
fn unmatched_stop_is_ignored() {
    let mut cx: Context<u8> = Context::new();
    let native = Size::new(800, 600);
    let (mut w, _) = open_window(&mut cx, native);
    let r = w.message(WindowMessage::StopAnimating, native);
    assert!(r.commands.is_empty());
    assert_eq!(w.animating, 0);
}

#[test]
fn resize_relayouts_only_on_change() {
    let mut cx: Context<u8> = Context::new();
    let native = Size::new(800, 600);
    let (mut w, _) = open_window(&mut cx, native);
    assert!(!w.message(WindowMessage::Resized, native).relayout);
    assert!(w.message(WindowMessage::Resized, Size::new(400, 300)).relayout);
    assert!(w.message(WindowMessage::Relayout, native).relayout);
}

#[test]
fn close_quits_and_stops_handling() {
    let mut cx: Context<u8> = Context::new();
    let native = Size::new(800, 600);
    let (mut w, _) = open_window(&mut cx, native);
    assert_eq!(w.message(WindowMessage::CloseRequested, native).commands, vec![WindowCommand::Quit]);
    assert!(w.message(WindowMessage::StartAnimating, native).commands.is_empty());
    assert!(!w.message(WindowMessage::Relayout, native).relayout);
}

#[test]
fn resize_sets_min_size_from_content() {
    let mut cx: Context<u8> = Context::new();
    let (mut w, content) = open_window(&mut cx, Size::new(800, 600));
    let mut engine = FixedEngine { content_min: Size::new(500, 400), content, calls: 0 };
    w.layout(&mut cx, &mut engine, Size::new(800, 600));
    let r = w.message(WindowMessage::Resized, Size::new(400, 300));
    assert!(r.relayout);
    assert_eq!(w.measure_min(&mut cx, &mut engine), Size::new(500, 400));
    let commands = w.layout(&mut cx, &mut engine, Size::new(400, 300));
    assert_eq!(commands[0], WindowCommand::SetMinSize(Size::new(500, 400)));
    assert_eq!((w.width, w.height), (400, 300));
    assert_eq!(cx.tree.layout(content).unwrap().size, Size::new(400, 300));
}

#[test]
fn second_layout_repeats_the_same_commands() {
    let mut cx: Context<u8> = Context::new();
    let native = Size::new(800, 600);
    let (mut w, content) = open_window(&mut cx, native);
    let mut engine = FixedEngine { content_min: Size::new(100, 50), content, calls: 0 };
    let first = w.layout(&mut cx, &mut engine, native);
    let root_first = cx.tree.layout(w.node).unwrap();
    let second = w.layout(&mut cx, &mut engine, native);
    let root_second = cx.tree.layout(w.node).unwrap();
    assert_eq!(
        first,
        vec![WindowCommand::SetMinSize(Size::new(100, 50)), WindowCommand::DeliverLayout]
    );
    assert_eq!(second, first);
    assert!(cx.take_posted().is_empty());
    assert_eq!(root_first, root_second);
}

#[test]
fn window_build_needs_live_content() {
    let mut cx: Context<u8> = Context::new();
    let (id, saved) = WindowState::begin_build(&mut cx);
    let content = NodeId { index: 3 };
    let mut engine = FixedEngine { content_min: Size::zero(), content, calls: 0 };
    let r = WindowState::build(&mut cx, &mut engine, saved, id, content, Size::new(10, 10));
    assert_eq!(r.err(), Some(LayoutError::NodeNotFound));
}

#[test]
fn relayout_inside_window_posts_once() {
    let mut cx: Context<u8> = Context::new();
    let (w, _) = open_window(&mut cx, Size::new(800, 600));
    cx.take_posted();
    let saved = cx.with_window(w.view_id);
    let a = cx.tree.new_leaf(Style::new());
    cx.insert_layout_child(w.node, 1, a).unwrap();
    cx.remove_layout_child(w.node, 1).unwrap();
    cx.leave_window(saved);
    let posted = cx.take_posted();
    assert_eq!(posted.len(), 1);
    assert_eq!(posted[0].target, w.view_id);
    assert_eq!(posted[0].message, WindowMessage::Relayout);
}

#[test]
fn animation_requests_go_to_enclosing_window() {
    let mut cx: Context<u8> = Context::new();
    let (w, _) = open_window(&mut cx, Size::new(800, 600));
    cx.take_posted();
    cx.start_animating();
    assert!(cx.take_posted().is_empty());
    let saved = cx.with_window(w.view_id);
    cx.start_animating();
    cx.stop_animating();
    cx.leave_window(saved);
    let posted = cx.take_posted();
    assert_eq!(posted.len(), 2);
    assert_eq!(posted[0].message, WindowMessage::StartAnimating);
    assert_eq!(posted[1].message, WindowMessage::StopAnimating);
    assert!(cx.animation_controller.is_none());
}

#[test]
fn window_dispatch_takes_only_its_own_messages() {
    let mut cx: Context<u8> = Context::new();
    let native = Size::new(800, 600);
    let (mut w, _) = open_window(&mut cx, native);
    let mut own = Message::new(Payload::Window(WindowMessage::StartAnimating), Some(w.view_id));
    let r = w.dispatch(&mut own, native).unwrap();
    assert_eq!(r.commands, vec![WindowCommand::StartFrames]);
    assert_eq!(own.payload, None);
    let mut broadcast = Message::new(Payload::Lifecycle(Lifecycle::Layout), None);
    assert!(w.dispatch(&mut broadcast, native).is_none());
    assert_eq!(broadcast.payload, Some(Payload::Lifecycle(Lifecycle::Layout)));
}

#[test]
fn animation_count_saturates_at_its_largest_value() {
    let mut cx: Context<u8> = Context::new();
    let native = Size::new(800, 600);
    let (mut w, _) = open_window(&mut cx, native);
    w.animating = u32::MAX;
    assert!(w.message(WindowMessage::StartAnimating, native).commands.is_empty());
    assert_eq!(w.animating, u32::MAX);
}

#[test]
fn compute_layout_reuses_an_unchanged_pass() {
    let mut cx: Context<u8> = Context::new();
    let (w, content) = open_window(&mut cx, Size::new(800, 600));
    let mut engine = FixedEngine { content_min: Size::new(10, 10), content, calls: 0 };
    let space = SpaceRequest { width: AvailableSpace::Definite(700), height: AvailableSpace::Definite(500) };
    cx.compute_layout(&mut engine, w.node, space).unwrap();
    cx.compute_layout(&mut engine, w.node, space).unwrap();
    assert_eq!(engine.calls, 1);
    let mut grown = Style::new();
    grown.flex_grow = 1;
    cx.set_layout_style(content, grown).unwrap();
    cx.compute_layout(&mut engine, w.node, space).unwrap();
    assert_eq!(engine.calls, 2);
    assert!(cx.compute_layout(&mut engine, NodeId { index: 50 }, space).is_err());
}

#[test]
fn closing_tears_contents_down_inside_the_window() {
    let mut cx: Context<u8> = Context::new();
    let (w, content) = open_window(&mut cx, Size::new(800, 600));
    let contents = Pod { node: content, shadow: ErasedShadow::Text(TextShadow::new(WidgetHandle { id: 5 })) };
    let mut released = Vec::new();
    w.teardown_contents(&mut cx, contents, &mut released);
    assert_eq!(released, vec![WidgetHandle { id: 5 }]);
    assert!(!cx.tree.is_live(content));
    assert_eq!(cx.layout_controller, None);
    w.teardown(&mut cx).unwrap();
    assert!(!cx.tree.is_live(w.node));
}

#[test]
fn route_hands_other_messages_to_the_contents_inside_the_window() {
    let mut cx: Context<u8> = Context::new();
    let native = Size::new(800, 600);
    let (mut w, _) = open_window(&mut cx, native);
    let mut broadcast = Message::new(Payload::Lifecycle(Lifecycle::Layout), None);
    match w.route(&mut cx, &mut broadcast, native) {
        Route::Contents(saved) => {
            assert_eq!(cx.layout_controller, Some(w.view_id));
            assert_eq!(cx.animation_controller, Some(w.view_id));
            cx.leave_window(saved);
        }
        Route::Handled(_) => panic!("the message is not the window's own"),
    }
    assert_eq!(cx.layout_controller, None);
    let mut own = Message::new(Payload::Window(WindowMessage::StartAnimating), Some(w.view_id));
    match w.route(&mut cx, &mut own, native) {
        Route::Handled(r) => assert_eq!(r.commands, vec![WindowCommand::StartFrames]),
        Route::Contents(_) => panic!("the message is the window's own"),
    }
}
