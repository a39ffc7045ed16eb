use ori_native::{
    flex_row, Context,
    diff, AnyShadow, Edit, ErasedShadow, GroupEdit, GroupShadow, ImageShadow, LayoutTree, Pod, Style,
    TextShadow, WidgetHandle,
};

const A: u64 = 1;
const B: u64 = 2;
const C: u64 = 3;

#[test]
fn swap_of_two_positions_is_one_swap() {
    let edits = diff(&vec![A, B, C], &vec![A, C, B]);
    assert_eq!(edits, vec![Edit::Swap { index: 1, offset: 1 }]);
}

#[test]
fn appended_view_is_one_insert_at_tail() {
    let edits = diff(&vec![A, B], &vec![A, B, C]);
    assert_eq!(edits, vec![Edit::Insert { index: 2, key: C }]);
}

#[test]
fn identical_sequences_need_no_edits() {
    let edits = diff(&vec![A, B, C, A], &vec![A, B, C, A]);
    assert!(edits.is_empty());
}

#[test]
fn first_build_inserts_every_view() {
    let edits = diff(&vec![], &vec![C, A, B]);
    assert_eq!(
        edits,
        vec![
            Edit::Insert { index: 0, key: C },
            Edit::Insert { index: 1, key: A },
            Edit::Insert { index: 2, key: B },
        ]
    );
}

#[test]
fn rebuild_after_build_creates_nothing() {
    let views = vec![A, B, C];
    let built = diff(&vec![], &views);
    let creations = built.iter().filter(|e| matches!(e, Edit::Insert { .. })).count();
    assert_eq!(creations, 3);
    let rebuilt = diff(&views, &views);
    let creations = rebuilt.iter().filter(|e| matches!(e, Edit::Insert { .. })).count();
    assert_eq!(creations, 0);
}

#[test]
fn shorter_list_removes_the_tail() {
    let edits = diff(&vec![A, B, C], &vec![A]);
    assert_eq!(edits, vec![Edit::Remove { index: 1 }, Edit::Remove { index: 1 }]);
}

#[test]
fn reversed_list_uses_swaps() {
    let edits = diff(&vec![A, B, C], &vec![C, B, A]);
    assert_eq!(edits, vec![Edit::Swap { index: 0, offset: 2 }]);
}

#[test]
fn unknown_view_is_inserted_and_leftover_removed() {
    let edits = diff(&vec![A, B], &vec![C, B]);
    assert_eq!(
        edits,
        vec![
            Edit::Insert { index: 0, key: C },
            Edit::Swap { index: 1, offset: 1 },
            Edit::Remove { index: 2 },
        ]
    );
}

fn element(tree: &mut LayoutTree, key: u64, id: u64) -> AnyShadow {
    let node = tree.new_leaf(Style::new());
    let w = WidgetHandle { id };
    let shadow = match key {
        1 => ErasedShadow::Text(TextShadow::new(w)),
        3 => ErasedShadow::Image(ImageShadow::new(w)),
        _ => ErasedShadow::Group(GroupShadow::new(w)),
    };
    Pod { node, shadow }
}

fn keys(g: &GroupShadow) -> Vec<u64> {
    g.children.iter().map(|c| c.shadow.key()).collect()
}

#[test]
fn edits_applied_to_a_group_follow_the_views() {
    let mut tree = LayoutTree::new();
    let node = tree.new_container(Style::new(), vec![]).unwrap();
    let mut g = GroupShadow::new(WidgetHandle { id: 100 });
    let views = vec![1, 3, 0];
    let mut created = 0;
    for edit in diff(&keys(&g), &views) {
        let built = match edit {
            Edit::Insert { key, .. } => {
                created += 1;
                Some(element(&mut tree, key, created))
            }
            _ => None,
        };
        assert!(g.apply(&mut tree, node, edit, built).is_ok());
    }
    assert_eq!(created, 3);
    assert_eq!(keys(&g), views);
    let swapped = vec![1, 0, 3];
    let edits = diff(&keys(&g), &swapped);
    assert_eq!(edits, vec![Edit::Swap { index: 1, offset: 1 }]);
    for edit in edits {
        let applied = g.apply(&mut tree, node, edit, None).ok().unwrap();
        assert_eq!(applied.edit, GroupEdit::SwapChildren { first: 1, second: 2 });
    }
    assert_eq!(keys(&g), swapped);
    let nodes: Vec<_> = g.children.iter().map(|c| c.node).collect();
    assert_eq!(tree.children(node).unwrap(), nodes);
    assert!(diff(&keys(&g), &swapped).is_empty());
}

#[test]
fn apply_refuses_an_element_of_the_wrong_kind() {
    let mut tree = LayoutTree::new();
    let node = tree.new_container(Style::new(), vec![]).unwrap();
    let mut g = GroupShadow::new(WidgetHandle { id: 100 });
    let wrong = element(&mut tree, 3, 1);
    let back = g.apply(&mut tree, node, Edit::Insert { index: 0, key: 1 }, Some(wrong));
    assert!(matches!(back, Err(Some(_))));
    assert_eq!(g.len(), 0);
    assert!(g.apply(&mut tree, node, Edit::Remove { index: 0 }, None).is_err());
}

#[test]
fn rebuild_with_apply_all_builds_one_element_per_insert() {
    let mut tree = LayoutTree::new();
    let node = tree.new_container(Style::new(), vec![]).unwrap();
    let mut g = GroupShadow::new(WidgetHandle { id: 100 });
    let views = vec![1, 3];
    let edits = diff(&g.keys(), &views);
    let built: Vec<AnyShadow> = edits
        .iter()
        .enumerate()
        .filter_map(|(n, e)| match e {
            Edit::Insert { key, .. } => Some(element(&mut tree, *key, n as u64)),
            _ => None,
        })
        .collect();
    assert_eq!(built.len(), 2);
    assert!(g.apply_all(&mut tree, node, &edits, built).is_ok());
    assert_eq!(g.keys(), views);
    let again = diff(&g.keys(), &views);
    assert!(again.is_empty());
    let before: Vec<_> = g.children.iter().map(|c| c.node).collect();
    assert!(g.apply_all(&mut tree, node, &again, Vec::new()).unwrap().is_empty());
    let after: Vec<_> = g.children.iter().map(|c| c.node).collect();
    assert_eq!(before, after);
    let fewer = vec![3];
    let edits = diff(&g.keys(), &fewer);
    let removed = g.apply_all(&mut tree, node, &edits, Vec::new()).unwrap();
    assert_eq!(removed.len(), 1);
    assert_eq!(g.keys(), fewer);
    assert_eq!(tree.children(node).unwrap(), vec![g.children[0].node]);
}

#[test]
fn apply_all_stops_at_an_edit_that_does_not_fit() {
    let mut tree = LayoutTree::new();
    let node = tree.new_container(Style::new(), vec![]).unwrap();
    let mut g = GroupShadow::new(WidgetHandle { id: 100 });
    let edits = vec![Edit::Remove { index: 0 }];
    assert_eq!(g.apply_all(&mut tree, node, &edits, Vec::new()).err(), Some(0));
    assert_eq!(g.len(), 0);
}

#[test]
fn flex_rebuild_swaps_exchanged_children() {
    let mut cx: Context<u8> = Context::new();
    let f = flex_row(());
    let mut pod = f.build(&mut cx, WidgetHandle { id: 100 });
    let views = vec![1, 3, 0];
    let built: Vec<AnyShadow> = views.iter().enumerate().map(|(n, k)| element(&mut cx.tree, *k, n as u64)).collect();
    assert!(f.rebuild_children(&mut cx, &mut pod.shadow, pod.node, &views, built).is_ok());
    let nodes: Vec<_> = pod.shadow.children.iter().map(|c| c.node).collect();
    let swapped = vec![1, 0, 3];
    assert!(f.rebuild_children(&mut cx, &mut pod.shadow, pod.node, &swapped, Vec::new()).unwrap().is_empty());
    assert_eq!(pod.shadow.keys(), swapped);
    let after: Vec<_> = pod.shadow.children.iter().map(|c| c.node).collect();
    assert_eq!(after, vec![nodes[0], nodes[2], nodes[1]]);
    assert_eq!(cx.tree.children(pod.node).unwrap(), after);
    let longer = vec![1, 0, 3, 1];
    let extra = vec![element(&mut cx.tree, 1, 9)];
    assert!(f.rebuild_children(&mut cx, &mut pod.shadow, pod.node, &longer, extra).is_ok());
    assert_eq!(pod.shadow.keys(), longer);
    assert_eq!(&pod.shadow.children.iter().map(|c| c.node).collect::<Vec<_>>()[..3], &after[..]);
}
