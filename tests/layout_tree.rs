use ori_native::{
    AvailableSpace, LayoutBox, LayoutError, LayoutTree, LeafId, NodeId, Size, SpaceRequest, Style,
};

fn space(w: u32, h: u32) -> SpaceRequest {
    SpaceRequest { width: AvailableSpace::Definite(w), height: AvailableSpace::Definite(h) }
}

#[test]
fn container_keeps_child_order() {
    let mut t = LayoutTree::new();
    let a = t.new_leaf(Style::new());
    let b = t.new_leaf(Style::new());
    let p = t.new_container(Style::new(), vec![a, b]).unwrap();
    let c = t.new_leaf(Style::new());
    t.insert_child_at(p, 1, c).unwrap();
    assert_eq!(t.children(p).unwrap(), vec![a, c, b]);
    assert_eq!(t.remove_child_at(p, 0), Ok(a));
    assert_eq!(t.children(p).unwrap(), vec![c, b]);
    assert_eq!(t.replace_child_at(p, 1, a), Ok(b));
    assert_eq!(t.children(p).unwrap(), vec![c, a]);
}

#[test]
fn container_with_dead_child_is_refused() {
    let mut t = LayoutTree::new();
    let a = t.new_leaf(Style::new());
    t.remove(a).unwrap();
    assert_eq!(t.new_container(Style::new(), vec![a]), Err(LayoutError::NodeNotFound));
}

#[test]
fn stale_node_reports_not_found() {
    let mut t = LayoutTree::new();
    let a = t.new_leaf(Style::new());
    let p = t.new_container(Style::new(), vec![a]).unwrap();
    t.remove(a).unwrap();
    assert_eq!(t.children(p).unwrap(), vec![]);
    assert_eq!(t.remove(a), Err(LayoutError::NodeNotFound));
    assert_eq!(t.layout(a), Err(LayoutError::NodeNotFound));
    assert_eq!(t.set_style(a, Style::new()), Err(LayoutError::NodeNotFound));
    assert_eq!(t.insert_child_at(p, 0, a), Err(LayoutError::NodeNotFound));
    assert_eq!(t.layout(NodeId { index: 99 }), Err(LayoutError::NodeNotFound));
}

#[test]
fn index_past_end_is_refused() {
    let mut t = LayoutTree::new();
    let p = t.new_leaf(Style::new());
    let a = t.new_leaf(Style::new());
    assert_eq!(t.insert_child_at(p, 1, a), Err(LayoutError::ChildIndexOutOfBounds));
    assert_eq!(t.remove_child_at(p, 0), Err(LayoutError::ChildIndexOutOfBounds));
    assert_eq!(t.replace_child_at(p, 0, a), Err(LayoutError::ChildIndexOutOfBounds));
}

#[test]
fn measured_leaf_takes_no_children() {
    let mut t = LayoutTree::new();
    let leaf = t.new_measured_leaf(Style::new(), LeafId { id: 7 });
    let a = t.new_leaf(Style::new());
    assert_eq!(t.insert_child_at(leaf, 0, a), Err(LayoutError::MeasuredLeaf));
    let p = t.new_container(Style::new(), vec![a]).unwrap();
    assert_eq!(t.set_leaf(p, Some(LeafId { id: 8 })), Err(LayoutError::MeasuredLeaf));
    assert_eq!(t.leaf(leaf), Ok(Some(LeafId { id: 7 })));
    t.set_leaf(leaf, None).unwrap();
    t.insert_child_at(leaf, 0, a).unwrap();
}

#[test]
fn pass_is_cached_until_something_changes() {
    let mut t = LayoutTree::new();
    let root = t.new_leaf(Style::new());
    assert!(t.dirty);
    assert!(t.needs_pass(root, space(100, 50)));
    let b = LayoutBox { x: 0, y: 0, size: Size::new(100, 50), content_size: Size::zero() };
    t.record_pass(root, space(100, 50), &vec![(root, b)]);
    assert!(!t.needs_pass(root, space(100, 50)));
    assert!(t.needs_pass(root, space(200, 50)));
    assert_eq!(t.layout(root), Ok(b));
    assert_eq!(t.set_style(root, Style::new()), Ok(false));
    assert!(!t.needs_pass(root, space(100, 50)));
    let mut wide = Style::new();
    wide.flex_grow = 1;
    assert_eq!(t.set_style(root, wide), Ok(true));
    assert!(t.needs_pass(root, space(100, 50)));
}

#[test]
fn later_result_for_a_node_wins() {
    let mut t = LayoutTree::new();
    let root = t.new_leaf(Style::new());
    let first = LayoutBox { x: 1, y: 1, size: Size::new(1, 1), content_size: Size::zero() };
    let second = LayoutBox { x: 2, y: 2, size: Size::new(2, 2), content_size: Size::zero() };
    t.record_pass(root, space(1, 1), &vec![(root, first), (root, second), (NodeId { index: 40 }, first)]);
    assert_eq!(t.layout(root), Ok(second));
}

#[test]
fn removing_a_parent_keeps_its_children() {
    let mut t = LayoutTree::new();
    let a = t.new_leaf(Style::new());
    let p = t.new_container(Style::new(), vec![a]).unwrap();
    t.remove(p).unwrap();
    assert!(t.is_live(a));
    assert!(!t.is_live(p));
}
