use vstd::prelude::*;

use crate::context::Context;
use crate::group::{edit_fits, keys_of, nodes_of, offered, run_children, run_removed};
use crate::reconcile::{diff, diff_spec, insert_count};
use crate::shadow::AnyShadow;
use crate::layout::{LayoutError, NodeId};
use crate::shadow::{GroupShadow, Pod, WidgetHandle};
use crate::style::{FlexContainer, FlexDirection, FlexItem, Layout, Style};

verus! {

/// A flex container view around the child views `contents`.
pub struct Flex<V> {
    pub contents: V,
    pub style: Style,
}

/// A flex container laying `contents` out in a row.
pub fn flex_row<V>(contents: V) -> (r: Flex<V>)
    ensures
        r.contents == contents,
        r.style == (Style { direction: FlexDirection::Row, ..Style::default_spec() }),
{
    Flex::new(contents, FlexDirection::Row)
}

/// A flex container laying `contents` out in a column.
pub fn flex_column<V>(contents: V) -> (r: Flex<V>)
    ensures
        r.contents == contents,
        r.style == (Style { direction: FlexDirection::Column, ..Style::default_spec() }),
{
    Flex::new(contents, FlexDirection::Column)
}

impl<V> Flex<V> {
    pub fn new(contents: V, direction: FlexDirection) -> (r: Flex<V>)
        ensures
            r.contents == contents,
            r.style == (Style { direction, ..Style::default_spec() }),
    {
        Flex { contents, style: Style::flex(direction) }
    }

    /// Builds the container's element: a layout node with the view's style
    /// and a group around the native group `group`, with no children yet.
    pub fn build<R>(&self, cx: &mut Context<R>, group: WidgetHandle) -> (r: Pod<GroupShadow>)
        requires
            old(cx).wf(),
            old(cx).tree.nodes@.len() < usize::MAX,
        ensures
            final(cx).wf(),
            !old(cx).tree.live(r.node),
            final(cx).tree.live(r.node),
            final(cx).tree.style_of(r.node) == self.style,
            r.shadow.group == group,
            r.shadow.children@.len() == 0,
            final(cx).tree.children_of(r.node).len() == 0,
            r.shadow.synced(&final(cx).tree, r.node),
            final(cx).tree.others_unchanged(&old(cx).tree, r.node),
            final(cx).outbox@ == old(cx).outbox@ + Context::<R>::relayout_posts(old(cx).layout_controller),
    {
        cx.relayout();
        let node = cx.tree.new_leaf(self.style);
        let shadow = GroupShadow::new(group);
        proof {
            assert(nodes_of(shadow.children@) =~= Seq::<NodeId>::empty());
            assert(cx.tree.children_of(node) =~= nodes_of(shadow.children@));
        }
        Pod { node, shadow }
    }

    /// Brings the element up to this view: restyles its node, which asks for
    /// a layout pass exactly when the style changed.
    pub fn rebuild<R>(&self, cx: &mut Context<R>, node: NodeId) -> (r: Result<(), LayoutError>)
        requires
            old(cx).wf(),
        ensures
            final(cx).wf(),
            r.is_ok() <==> old(cx).tree.live(node),
            (old(cx).tree.live(node) && old(cx).tree.style_of(node) != self.style) ==> {
                &&& final(cx).outbox@ == old(cx).outbox@ + Context::<R>::relayout_posts(old(cx).layout_controller)
                &&& final(cx).layout_controller.is_none()
            },
            !(old(cx).tree.live(node) && old(cx).tree.style_of(node) != self.style) ==> {
                &&& final(cx).outbox == old(cx).outbox
                &&& final(cx).layout_controller == old(cx).layout_controller
            },
            r.is_ok() ==> final(cx).tree.style_of(node) == self.style,
            r.is_ok() ==> final(cx).tree.children_of(node) == old(cx).tree.children_of(node),
            r.is_ok() ==> final(cx).tree.leaf_of(node) == old(cx).tree.leaf_of(node),
            r.is_ok() ==> final(cx).tree.others_unchanged(&old(cx).tree, node),
            r.is_ok() ==> final(cx).tree.nodes@.len() == old(cx).tree.nodes@.len(),
            r.is_err() ==> final(cx).tree == old(cx).tree,
    {
        cx.set_layout_style(node, self.style)
    }
}

impl<V> Flex<V> {
    /// Reconciles the container's children with child views whose kind keys
    /// are `views`: the reconciler's edits (see [`diff_spec`]) are made on the
    /// element list and the layout tree together, the insertions placing the
    /// elements of `built`, built for the inserted views in order. Views that
    /// match the elements, kind for kind, take no edit and build nothing.
    /// Returns the elements that removals took out, for teardown, or the
    /// position of an edit that did not fit.
    pub fn rebuild_children<R>(
        &self,
        cx: &mut Context<R>,
        group: &mut GroupShadow,
        node: NodeId,
        views: &Vec<u64>,
        built: Vec<AnyShadow>,
    ) -> (r: Result<Vec<AnyShadow>, usize>)
        requires
            old(cx).wf(),
            old(group).synced(&old(cx).tree, node),
            built@.len() == insert_count(diff_spec(keys_of(old(group).children@), views@)),
        ensures
            final(cx).wf(),
            final(group).synced(&final(cx).tree, node),
            final(group).group == old(group).group,
            ({
                let edits = diff_spec(keys_of(old(group).children@), views@);
                &&& r.is_ok() ==> keys_of(final(group).children@) == views@
                &&& r.is_ok() ==> final(group).children@ == run_children(old(group).children@, edits, built@)
                &&& r.is_ok() ==> r->Ok_0@ == run_removed(old(group).children@, edits, built@)
                &&& r.is_err() ==> r->Err_0 < edits.len() && final(group).children@ == run_children(
                    old(group).children@,
                    edits.take(r->Err_0 as int),
                    built@,
                ) && !edit_fits(final(group).children@, &final(cx).tree, node, edits[r->Err_0 as int], offered(built@, edits, r->Err_0 as int))
                &&& edits.len() == 0 ==> final(group).children@ == old(group).children@ && final(cx).tree == old(cx).tree
                    && final(cx).outbox == old(cx).outbox
                &&& edits.len() > 0 ==> final(cx).outbox@ == old(cx).outbox@ + Context::<R>::relayout_posts(old(cx).layout_controller)
            }),
    {
        let keys = group.keys();
        let edits = diff(&keys, views);
        if edits.len() > 0 {
            cx.relayout();
        }
        group.apply_all(&mut cx.tree, node, &edits, built)
    }
}

impl<V> Layout for Flex<V> {
    open spec fn style_view(&self) -> Style {
        self.style
    }

    fn style(&self) -> (r: Style) {
        self.style
    }

    fn with_style(self, style: Style) -> (r: Self) {
        Flex { contents: self.contents, style }
    }
}

impl<V> FlexItem for Flex<V> {

}

impl<V> FlexContainer for Flex<V> {

}

} // verus!
