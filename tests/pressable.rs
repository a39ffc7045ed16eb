use ori_native::{
    build_pressable, AvailableSpace, Callback, Context, ErasedShadow, LayoutBox, Lifecycle, Message,
    Payload, Pod, Press, PressState, PressableMessage, PressableState, Size, SpaceRequest, Style,
    TextShadow, ViewIds, WidgetHandle,
};

fn fresh() -> PressableState {
    let mut ids = ViewIds::new();
    PressableState::build(&mut ids)
}

#[test]
fn press_fires_once_on_release() {
    let mut p = fresh();
    let id = p.view_id;
    let down = p.message(id, PressableMessage::Pressed(Press::Pressed)).unwrap();
    assert_eq!(down.callback, None);
    assert!(p.press.pressed);
    let up = p.message(id, PressableMessage::Pressed(Press::Released)).unwrap();
    assert_eq!(up.callback, Some(Callback::OnPress));
    assert!(!p.press.pressed);
}

#[test]
fn cancelled_press_never_fires() {
    let mut p = fresh();
    let id = p.view_id;
    let mut fired = 0;
    for m in [Press::Pressed, Press::Cancelled] {
        if let Some(out) = p.message(id, PressableMessage::Pressed(m)) {
            if out.callback == Some(Callback::OnPress) {
                fired += 1;
            }
        }
    }
    assert_eq!(fired, 0);
    assert!(!p.press.pressed);
}

#[test]
fn hover_and_focus_fire_on_every_transition() {
    let mut p = fresh();
    let id = p.view_id;
    let a = p.message(id, PressableMessage::Hovered(true)).unwrap();
    let b = p.message(id, PressableMessage::Hovered(true)).unwrap();
    let c = p.message(id, PressableMessage::Focused(true)).unwrap();
    assert_eq!(a.callback, Some(Callback::OnHover(true)));
    assert_eq!(b.callback, Some(Callback::OnHover(true)));
    assert_eq!(c.callback, Some(Callback::OnFocus(true)));
    assert_eq!(p.press, PressState { pressed: false, hovered: true, focused: true });
}

#[test]
fn message_for_another_view_passes_through() {
    let mut ids = ViewIds::new();
    let mut p = PressableState::build(&mut ids);
    let other = ids.mint();
    assert!(p.message(other, PressableMessage::Pressed(Press::Pressed)).is_none());
    assert!(!p.press.pressed);
}

#[test]
fn dispatch_handles_own_message_and_forwards_others() {
    let mut cx: Context<u8> = Context::new();
    let node = cx.tree.new_leaf(Style::new());
    let contents = Pod { node, shadow: ErasedShadow::Text(TextShadow::new(WidgetHandle { id: 1 })) };
    let (pod, mut state) = build_pressable(&mut cx, WidgetHandle { id: 2 }, contents);
    assert_eq!(pod.node, node);
    assert_eq!(pod.shadow.pressable, WidgetHandle { id: 2 });
    let mut own = Message::new(Payload::Pressable(PressableMessage::Pressed(Press::Released)), Some(state.view_id));
    let d = state.dispatch(&cx.tree, node, &mut own);
    assert!(!d.forward);
    assert_eq!(d.outcome.unwrap().callback, Some(Callback::OnPress));
    assert_eq!(own.payload, None);
    let other_id = cx.ids.mint();
    let mut other = Message::new(Payload::Event(5), Some(other_id));
    let d = state.dispatch(&cx.tree, node, &mut other);
    assert!(d.forward);
    assert_eq!(other.payload, Some(Payload::Event(5)));
}

#[test]
fn layout_signal_resizes_the_press_target() {
    let mut cx: Context<u8> = Context::new();
    let node = cx.tree.new_leaf(Style::new());
    let b = LayoutBox { x: 0, y: 0, size: Size::new(40, 20), content_size: Size::zero() };
    let space = SpaceRequest { width: AvailableSpace::MaxContent, height: AvailableSpace::MaxContent };
    cx.tree.record_pass(node, space, &vec![(node, b)]);
    let contents = Pod { node, shadow: ErasedShadow::Text(TextShadow::new(WidgetHandle { id: 1 })) };
    let (_, mut state) = build_pressable(&mut cx, WidgetHandle { id: 2 }, contents);
    let mut layout = Message::new(Payload::Lifecycle(Lifecycle::Layout), None);
    let d = state.dispatch(&cx.tree, node, &mut layout);
    assert_eq!(d.resize, Some(Size::new(40, 20)));
    assert!(d.forward);
}
