use ori_native::{
    subtree_geometry,
    teardown, ImageShadow, PressableShadow,
    AvailableSpace, LayoutBox, Size, SpaceRequest, ErasedShadow, GroupEdit, GroupShadow, LayoutTree, NativeWidget, NodeId, Pod, Style,
    TextShadow, WidgetHandle,
};

fn text_pod(node: NodeId, id: u64) -> Pod<TextShadow> {
    Pod { node, shadow: TextShadow { text: WidgetHandle { id } } }
}

#[test]
fn upcast_then_downcast_gives_back_the_element() {
    let pod = text_pod(NodeId { index: 4 }, 9);
    let any = Pod::upcast(pod);
    let back = Pod::<TextShadow>::downcast(any).ok().unwrap();
    assert_eq!(back.node, NodeId { index: 4 });
    assert_eq!(back.shadow.text, WidgetHandle { id: 9 });
}

#[test]
fn downcast_to_other_kind_hands_back_the_input() {
    let any = Pod::upcast(text_pod(NodeId { index: 4 }, 9));
    let back = match Pod::<GroupShadow>::downcast(any) {
        Ok(_) => panic!("a text element is not a group"),
        Err(unchanged) => unchanged,
    };
    assert_eq!(back.node, NodeId { index: 4 });
    assert!(matches!(back.shadow, ErasedShadow::Text(TextShadow { text: WidgetHandle { id: 9 } })));
}

#[test]
fn replace_keeps_the_node_and_takes_the_style() {
    let mut tree = LayoutTree::new();
    let old_node = tree.new_leaf(Style::new());
    let parent = tree.new_container(Style::new(), vec![old_node]).unwrap();
    let mut styled = Style::new();
    styled.flex_grow = 3;
    let new_node = tree.new_leaf(styled);
    let mut slot = Pod::upcast(text_pod(old_node, 1));
    let replaced = Pod::replace(&mut tree, &mut slot, text_pod(new_node, 2));
    assert_eq!(replaced.native_widget(), WidgetHandle { id: 1 });
    assert_eq!(slot.node, old_node);
    assert_eq!(slot.shadow.native_widget(), WidgetHandle { id: 2 });
    assert!(!tree.is_live(new_node));
    assert_eq!(tree.style(old_node), Ok(styled));
    assert_eq!(tree.children(parent).unwrap(), vec![old_node]);
}

fn child(tree: &mut LayoutTree, id: u64) -> ori_native::AnyShadow {
    let node = tree.new_leaf(Style::new());
    Pod::upcast(text_pod(node, id))
}

fn child_nodes(g: &GroupShadow) -> Vec<NodeId> {
    g.children.iter().map(|c| c.node).collect()
}

#[test]
fn group_edits_keep_layout_children_in_step() {
    let mut tree = LayoutTree::new();
    let node = tree.new_container(Style::new(), vec![]).unwrap();
    let mut g = GroupShadow::new(WidgetHandle { id: 100 });
    for (i, id) in [1u64, 2, 3].into_iter().enumerate() {
        let c = child(&mut tree, id);
        let edit = g.insert(&mut tree, node, i, c).ok().unwrap();
        assert_eq!(edit, GroupEdit::InsertChild { index: i, widget: WidgetHandle { id } });
    }
    assert_eq!(tree.children(node).unwrap(), child_nodes(&g));
    assert_eq!(g.swap(&mut tree, node, 0, 2), Some(GroupEdit::SwapChildren { first: 0, second: 2 }));
    assert_eq!(tree.children(node).unwrap(), child_nodes(&g));
    assert_eq!(g.children[0].shadow.native_widget(), WidgetHandle { id: 3 });
    let (removed, edit) = g.remove(&mut tree, node, 1).unwrap();
    assert_eq!(edit, GroupEdit::RemoveChild { index: 1 });
    assert_eq!(removed.shadow.native_widget(), WidgetHandle { id: 2 });
    assert!(!tree.is_live(removed.node));
    assert_eq!(tree.children(node).unwrap(), child_nodes(&g));
    assert_eq!(g.len(), 2);
}

#[test]
fn group_refuses_bad_edits() {
    let mut tree = LayoutTree::new();
    let node = tree.new_container(Style::new(), vec![]).unwrap();
    let mut g = GroupShadow::new(WidgetHandle { id: 100 });
    let c = child(&mut tree, 1);
    let again = Pod { node: c.node, shadow: ErasedShadow::Text(TextShadow { text: WidgetHandle { id: 5 } }) };
    g.insert(&mut tree, node, 0, c).ok().unwrap();
    assert!(g.insert(&mut tree, node, 1, again).is_err());
    let far = child(&mut tree, 2);
    assert!(g.insert(&mut tree, node, 5, far).is_err());
    assert!(g.remove(&mut tree, node, 3).is_none());
    assert!(g.swap(&mut tree, node, 0, 0).is_none());
    assert!(g.swap(&mut tree, node, 0, 1).is_none());
    assert_eq!(tree.children(node).unwrap(), child_nodes(&g));
}

#[test]
fn group_geometry_follows_the_last_pass() {
    let mut tree = LayoutTree::new();
    let node = tree.new_container(Style::new(), vec![]).unwrap();
    let mut g = GroupShadow::new(WidgetHandle { id: 100 });
    let a = child(&mut tree, 1);
    let an = a.node;
    g.insert(&mut tree, node, 0, a).ok().unwrap();
    let space = SpaceRequest { width: AvailableSpace::MaxContent, height: AvailableSpace::MaxContent };
    let whole = LayoutBox { x: 0, y: 0, size: Size::new(30, 20), content_size: Size::zero() };
    let part = LayoutBox { x: 5, y: 7, size: Size::new(10, 10), content_size: Size::zero() };
    tree.record_pass(node, space, &vec![(node, whole), (an, part)]);
    let geo = g.geometry(&tree, node);
    assert_eq!(geo.size, Size::new(30, 20));
    assert_eq!(geo.positions, vec![(5, 7)]);
}

#[test]
fn teardown_releases_children_before_parent() {
    let mut tree = LayoutTree::new();
    let node = tree.new_container(Style::new(), vec![]).unwrap();
    let mut g = GroupShadow::new(WidgetHandle { id: 100 });
    let a = child(&mut tree, 1);
    let an = a.node;
    g.insert(&mut tree, node, 0, a).ok().unwrap();
    let pn = tree.new_leaf(Style::new());
    let wrapped = PressableShadow::new(
        WidgetHandle { id: 3 },
        ErasedShadow::Image(ImageShadow::new(WidgetHandle { id: 2 })),
    );
    g.insert(&mut tree, node, 1, Pod { node: pn, shadow: ErasedShadow::Pressable(wrapped) }).ok().unwrap();
    let mut released = Vec::new();
    teardown(&mut tree, Pod { node, shadow: ErasedShadow::Group(g) }, &mut released);
    let ids: Vec<u64> = released.iter().map(|w| w.id).collect();
    assert_eq!(ids, vec![1, 2, 3, 100]);
    assert!(!tree.is_live(node));
    assert!(!tree.is_live(an));
    assert!(!tree.is_live(pn));
}

#[test]
fn downcast_mut_changes_the_element_in_place() {
    let mut any = Pod::upcast(text_pod(NodeId { index: 2 }, 9));
    match Pod::<TextShadow>::downcast_mut(&mut any) {
        Some(text) => text.text = WidgetHandle { id: 11 },
        None => panic!("the element is a text element"),
    }
    assert_eq!(any.shadow.native_widget(), WidgetHandle { id: 11 });
    assert!(Pod::<GroupShadow>::downcast_mut(&mut any).is_none());
    assert_eq!(any.node, NodeId { index: 2 });
}

#[test]
fn subtree_geometry_reaches_every_element() {
    let mut tree = LayoutTree::new();
    let node = tree.new_container(Style::new(), vec![]).unwrap();
    let mut g = GroupShadow::new(WidgetHandle { id: 100 });
    let a = child(&mut tree, 1);
    let an = a.node;
    g.insert(&mut tree, node, 0, a).ok().unwrap();
    let pn = tree.new_leaf(Style::new());
    let wrapped = PressableShadow::new(
        WidgetHandle { id: 3 },
        ErasedShadow::Image(ImageShadow::new(WidgetHandle { id: 2 })),
    );
    g.insert(&mut tree, node, 1, Pod { node: pn, shadow: ErasedShadow::Pressable(wrapped) }).ok().unwrap();
    let space = SpaceRequest { width: AvailableSpace::MaxContent, height: AvailableSpace::MaxContent };
    let whole = LayoutBox { x: 0, y: 0, size: Size::new(30, 20), content_size: Size::zero() };
    let first = LayoutBox { x: 1, y: 2, size: Size::new(10, 10), content_size: Size::zero() };
    let second = LayoutBox { x: 11, y: 2, size: Size::new(5, 5), content_size: Size::zero() };
    tree.record_pass(node, space, &vec![(node, whole), (an, first), (pn, second)]);
    let element = Pod { node, shadow: ErasedShadow::Group(g) };
    let geo = subtree_geometry(&tree, &element);
    assert_eq!(
        geo,
        vec![
            (WidgetHandle { id: 100 }, Some(whole)),
            (WidgetHandle { id: 1 }, Some(first)),
            (WidgetHandle { id: 3 }, Some(second)),
            (WidgetHandle { id: 2 }, Some(second)),
        ]
    );
}

#[test]
fn replace_moves_the_new_children_onto_the_kept_node() {
    let mut tree = LayoutTree::new();
    let old_node = tree.new_leaf(Style::new());
    let a = tree.new_leaf(Style::new());
    let new_node = tree.new_container(Style::new(), vec![a]).unwrap();
    let mut slot = Pod::upcast(text_pod(old_node, 1));
    let group = Pod { node: new_node, shadow: GroupShadow::new(WidgetHandle { id: 2 }) };
    Pod::replace(&mut tree, &mut slot, group);
    assert_eq!(tree.children(old_node).unwrap(), vec![a]);
    assert!(!tree.is_live(new_node));
}
