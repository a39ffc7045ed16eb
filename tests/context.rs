use ori_native::{
    build_text, FontAttributes, FontStretch, LeafId, TextSpan,
    Action, App, Context, FlexContainer, FlexDirection, FlexItem, Justify, Layout, Message, Payload,
    Registry, RunError, Style, ViewIds, WindowMessage, flex_column, flex_row, percent, Align,
    Dimension, FontWeight, Lifecycle,
};

#[test]
fn pop_takes_the_latest_matching_resource() {
    let mut cx: Context<&str> = Context::new();
    cx.push(1, "a");
    cx.push(2, "b");
    cx.push(1, "c");
    cx.push(3, "d");
    assert_eq!(cx.get(1), Some(&"c"));
    assert_eq!(cx.pop(1), Some("c"));
    assert_eq!(cx.get(1), Some(&"a"));
    assert_eq!(cx.resources.len(), 3);
    assert_eq!(cx.pop(9), None);
    assert_eq!(cx.get(9), None);
}

#[test]
fn get_mut_changes_the_latest_matching_resource() {
    let mut cx: Context<u32> = Context::new();
    cx.push(1, 10);
    cx.push(1, 20);
    *cx.get_mut(1).unwrap() += 5;
    assert_eq!(cx.pop(1), Some(25));
    assert_eq!(cx.pop(1), Some(10));
    assert!(cx.get_mut(1).is_none());
}

#[test]
fn view_ids_are_never_reused() {
    let mut ids = ViewIds::new();
    let a = ids.mint();
    let b = ids.mint();
    assert_ne!(a, b);
}

#[test]
fn relayout_without_controller_posts_nothing() {
    let mut cx: Context<u8> = Context::new();
    cx.relayout();
    assert!(cx.take_posted().is_empty());
}

#[test]
fn restyle_asks_for_pass_only_on_change() {
    let mut cx: Context<u8> = Context::new();
    let n = cx.tree.new_leaf(Style::new());
    let mut ids = ViewIds::new();
    let w = ids.mint();
    let saved = cx.with_window(w);
    cx.set_layout_style(n, Style::new()).unwrap();
    assert!(cx.take_posted().is_empty());
    assert_eq!(cx.layout_controller, Some(w));
    let flex = flex_row(()).flex(2);
    flex.rebuild(&mut cx, n).unwrap();
    let posted = cx.take_posted();
    assert_eq!(posted.len(), 1);
    assert_eq!(posted[0].message, WindowMessage::Relayout);
    cx.leave_window(saved);
    assert_eq!(cx.layout_controller, None);
}

#[test]
fn flex_builders_set_the_style() {
    let f = flex_column(())
        .size(Dimension::Length(10), percent(50))
        .align_items(Align::Center)
        .justify_contents(Justify::SpaceBetween)
        .flex_grow(1);
    let s = f.style();
    assert_eq!(s.direction, FlexDirection::Column);
    assert_eq!(s.size.width, Dimension::Length(10));
    assert_eq!(s.size.height, Dimension::Percent(50));
    assert_eq!(s.align_items, Some(Align::Center));
    assert_eq!(s.justify_content, Some(Justify::SpaceBetween));
    assert_eq!(s.flex_grow, 1);
    assert_eq!(s.flex_shrink, 1);
}

#[test]
fn flex_build_makes_a_styled_node() {
    let mut cx: Context<u8> = Context::new();
    let f = flex_row(()).align_contents(Justify::Center);
    let pod = f.build(&mut cx, ori_native::WidgetHandle { id: 4 });
    assert_eq!(cx.tree.style(pod.node).unwrap().align_content, Some(Justify::Center));
    assert_eq!(pod.shadow.len(), 0);
}

#[test]
fn targeted_message_is_taken_once() {
    let mut ids = ViewIds::new();
    let a = ids.mint();
    let b = ids.mint();
    let mut m = Message::new(Payload::Window(WindowMessage::Relayout), Some(a));
    assert_eq!(m.take_targeted(b), None);
    assert_eq!(m.take_targeted(a), Some(Payload::Window(WindowMessage::Relayout)));
    assert_eq!(m.take_targeted(a), None);
    let broadcast = Message::new(Payload::Lifecycle(Lifecycle::Layout), None);
    assert_eq!(broadcast.get(), Some(Payload::Lifecycle(Lifecycle::Layout)));
}

#[test]
fn message_to_torn_down_view_is_dropped() {
    let mut ids = ViewIds::new();
    let a = ids.mint();
    let b = ids.mint();
    let mut reg = Registry::new();
    reg.register(a);
    reg.register(b);
    reg.unregister(a);
    assert!(!reg.deliverable(&Message::new(Payload::Event(1), Some(a))));
    assert!(reg.deliverable(&Message::new(Payload::Event(1), Some(b))));
    assert!(reg.deliverable(&Message::new(Payload::Event(1), None)));
}

#[test]
fn run_is_refused_inside_async_runtime() {
    let mut app = App::new();
    assert_eq!(app.begin_run(true), Err(RunError::InsideAsyncRuntime));
    assert!(!app.running);
    assert_eq!(app.begin_run(false), Ok(()));
    assert_eq!(app.begin_run(false), Err(RunError::AlreadyRunning));
    app.end_run();
    assert!(!app.running);
}

#[test]
fn font_weights_have_their_values() {
    assert_eq!(FontWeight::normal(), FontWeight(400));
    assert_eq!(FontWeight::bold().0, 700);
    assert!(FontWeight::thin() < FontWeight::heavy());
}

#[test]
fn merged_actions_ask_for_what_either_asks() {
    let empty = Action::new();
    let rebuild = Action::rebuild();
    assert_eq!(empty.merge(empty), empty);
    assert_eq!(empty.merge(rebuild), rebuild);
    assert_eq!(rebuild.merge(empty), rebuild);
    let relayout = Action { rebuild: false, relayout: true };
    assert_eq!(rebuild.merge(relayout), Action { rebuild: true, relayout: true });
}

#[test]
fn text_element_gets_a_measured_leaf() {
    let mut cx: Context<u8> = Context::new();
    let pod = build_text(&mut cx, ori_native::WidgetHandle { id: 3 }, LeafId { id: 8 });
    assert_eq!(cx.tree.leaf(pod.node), Ok(Some(LeafId { id: 8 })));
    assert_eq!(pod.shadow.text.id, 3);
    let attributes = FontAttributes {
        size: 14,
        family: String::from("Sans"),
        weight: FontWeight::normal(),
        stretch: FontStretch::Normal,
        italic: false,
    };
    let span = TextSpan::whole(attributes, 5);
    assert_eq!((span.start, span.end), (0, 5));
}
