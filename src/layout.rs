use vstd::prelude::*;

use crate::geometry::{AvailableSpace, LayoutBox};
use crate::style::Style;

verus! {

/// The identity of a node of a [`LayoutTree`]. Ids are never reused: a node
/// that was removed keeps its slot, and any later use of its id fails.
#[derive(Clone, Copy, Debug, PartialEq, Eq, Structural, Hash)]
pub struct NodeId {
    pub index: usize,
}

/// The handle of a measurement leaf: something outside the tree that reports
/// the intrinsic size of a node's content when the layout pass asks for it.
#[derive(Clone, Copy, Debug, PartialEq, Eq, Structural, Hash)]
pub struct LeafId {
    pub id: u64,
}

/// The room that a layout pass was given, along both axes.
#[derive(Clone, Copy, Debug, PartialEq, Eq, Structural, Hash)]
pub struct SpaceRequest {
    pub width: AvailableSpace,
    pub height: AvailableSpace,
}

/// Why an operation on a [`LayoutTree`] did nothing.
#[derive(Clone, Copy, Debug, PartialEq, Eq, Structural, Hash)]
pub enum LayoutError {
    /// The id names no live node: it was removed, or never issued.
    NodeNotFound,
    /// A child index past the end of the parent's children.
    ChildIndexOutOfBounds,
    /// A node that carries a measurement leaf cannot also hold children.
    MeasuredLeaf,
}

/// One slot of the tree.
pub struct LayoutNode {
    pub live: bool,
    pub style: Style,
    pub children: Vec<NodeId>,
    pub leaf: Option<LeafId>,
    pub layout: LayoutBox,
}

/// The retained flexbox layout graph: nodes with a style, ordered children and
/// an optional measurement leaf, plus the geometry of the last layout pass.
///
/// Every change of structure, style or leaf marks the tree dirty; a pass is
/// needed again only when the tree is dirty or the pass asks for other room.
pub struct LayoutTree {
    pub nodes: Vec<LayoutNode>,
    pub dirty: bool,
    pub last_pass: Option<(NodeId, SpaceRequest)>,
}

/// `s` with every occurrence of `x` taken out, order kept.
pub open spec fn without(s: Seq<NodeId>, x: NodeId) -> Seq<NodeId>
    decreases s.len(),
{
    if s.len() == 0 {
        s
    } else {
        let rest = without(s.drop_last(), x);
        if s.last() == x {
            rest
        } else {
            rest.push(s.last())
        }
    }
}

pub proof fn lemma_without_not_contains(s: Seq<NodeId>, x: NodeId)
    ensures
        !s.contains(x) ==> without(s, x) == s,
        !without(s, x).contains(x),
        forall|y: NodeId| without(s, x).contains(y) ==> s.contains(y),
    decreases s.len(),
{
    if s.len() > 0 {
        lemma_without_not_contains(s.drop_last(), x);
        assert(s.drop_last().push(s.last()) == s);
        let rest = without(s.drop_last(), x);
        assert forall|y: NodeId| without(s, x).contains(y) implies s.contains(y) by {
            if s.last() != x {
                let k = choose|k: int| 0 <= k < rest.push(s.last()).len() && rest.push(s.last())[k] == y;
                if k < rest.len() {
                    assert(rest.contains(y));
                    assert(s.drop_last().contains(y));
                    let k2 = choose|k2: int| 0 <= k2 < s.drop_last().len() && s.drop_last()[k2] == y;
                    assert(s[k2] == y);
                } else {
                    assert(s[s.len() - 1] == y);
                }
            } else {
                assert(rest.contains(y));
                assert(s.drop_last().contains(y));
                let k2 = choose|k2: int| 0 <= k2 < s.drop_last().len() && s.drop_last()[k2] == y;
                assert(s[k2] == y);
            }
        }
        if !s.contains(x) {
            assert(!s.drop_last().contains(x)) by {
                if s.drop_last().contains(x) {
                    let k2 = choose|k2: int| 0 <= k2 < s.drop_last().len() && s.drop_last()[k2] == x;
                    assert(s[k2] == x);
                }
            }
        }
    }
}

impl LayoutTree {
    pub open spec fn live(&self, id: NodeId) -> bool {
        id.index < self.nodes@.len() && self.nodes@[id.index as int].live
    }

    pub open spec fn children_of(&self, id: NodeId) -> Seq<NodeId> {
        self.nodes@[id.index as int].children@
    }

    pub open spec fn style_of(&self, id: NodeId) -> Style {
        self.nodes@[id.index as int].style
    }

    pub open spec fn leaf_of(&self, id: NodeId) -> Option<LeafId> {
        self.nodes@[id.index as int].leaf
    }

    pub open spec fn layout_of(&self, id: NodeId) -> LayoutBox {
        self.nodes@[id.index as int].layout
    }

    /// Every child of a live node is live, and a node with a measurement leaf
    /// has no children.
    pub open spec fn wf(&self) -> bool {
        forall|i: int|
            0 <= i < self.nodes@.len() && #[trigger] self.nodes@[i].live ==> {
                &&& forall|j: int|
                    0 <= j < self.nodes@[i].children@.len() ==> self.live(
                        #[trigger] self.nodes@[i].children@[j],
                    )
                &&& self.nodes@[i].leaf.is_some() ==> self.nodes@[i].children@.len() == 0
            }
    }

    /// A change that keeps every old node live or dead as it was with the
    /// same children, gives new nodes only children live before, and keeps a
    /// live node with a measurement leaf childless, keeps the tree well formed.
    proof fn lemma_wf_kept(&self, old: &LayoutTree)
        requires
            old.wf(),
            self.nodes@.len() >= old.nodes@.len(),
            forall|i: int|
                0 <= i < old.nodes@.len() ==> {
                    &&& #[trigger] self.nodes@[i].live == old.nodes@[i].live
                    &&& self.nodes@[i].children == old.nodes@[i].children
                },
            forall|i: int, j: int|
                old.nodes@.len() <= i < self.nodes@.len() && 0 <= j < self.nodes@[i].children@.len()
                    ==> old.live(#[trigger] self.nodes@[i].children@[j]),
            forall|i: int|
                0 <= i < self.nodes@.len() && #[trigger] self.nodes@[i].live && self.nodes@[i].leaf.is_some()
                    ==> self.nodes@[i].children@.len() == 0,
        ensures
            self.wf(),
    {
        assert forall|i: int| 0 <= i < self.nodes@.len() && #[trigger] self.nodes@[i].live implies
            forall|j: int| 0 <= j < self.nodes@[i].children@.len() ==> self.live(#[trigger] self.nodes@[i].children@[j]) by {
            assert forall|j: int| 0 <= j < self.nodes@[i].children@.len() implies self.live(#[trigger] self.nodes@[i].children@[j]) by {
                let c = self.nodes@[i].children@[j];
                if i < old.nodes@.len() {
                    assert(old.live(old.nodes@[i].children@[j]));
                } else {
                    assert(old.live(c));
                }
                assert(self.nodes@[c.index as int].live == old.nodes@[c.index as int].live);
            }
        }
    }

    /// The nodes other than `id` are as they were in `old`.
    pub open spec fn others_unchanged(&self, old: &LayoutTree, id: NodeId) -> bool {
        &&& self.nodes@.len() >= old.nodes@.len()
        &&& forall|i: int|
            0 <= i < old.nodes@.len() && i != id.index ==> #[trigger] self.nodes@[i]
                == old.nodes@[i]
    }

    pub fn new() -> (r: LayoutTree)
        ensures
            r.wf(),
            r.nodes@.len() == 0,
            !r.dirty,
            r.last_pass.is_none(),
    {
        LayoutTree { nodes: Vec::new(), dirty: false, last_pass: None }
    }

    pub fn is_live(&self, id: NodeId) -> (r: bool)
        ensures
            r == self.live(id),
    {
        id.index < self.nodes.len() && self.nodes[id.index].live
    }

    fn push_node(&mut self, style: Style, children: Vec<NodeId>, leaf: Option<LeafId>) -> (r:
        NodeId)
        requires
            old(self).nodes@.len() < usize::MAX,
        ensures
            r.index == old(self).nodes@.len(),
            final(self).nodes@ == old(self).nodes@.push(
                LayoutNode { live: true, style, children, leaf, layout: LayoutBox::empty_spec() },
            ),
            final(self).dirty,
            final(self).last_pass == old(self).last_pass,
    {
        let index = self.nodes.len();
        self.nodes.push(
            LayoutNode { live: true, style, children, leaf, layout: LayoutBox::empty() },
        );
        self.dirty = true;
        NodeId { index }
    }

    /// A new leaf node without a measurement leaf.
    pub fn new_leaf(&mut self, style: Style) -> (r: NodeId)
        requires
            old(self).wf(),
            old(self).nodes@.len() < usize::MAX,
        ensures
            final(self).wf(),
            r.index == old(self).nodes@.len(),
            final(self).nodes@.len() == old(self).nodes@.len() + 1,
            final(self).live(r),
            !old(self).live(r),
            final(self).style_of(r) == style,
            final(self).children_of(r).len() == 0,
            final(self).leaf_of(r).is_none(),
            final(self).others_unchanged(old(self), r),
            final(self).dirty,
    {
        let r = self.push_node(style, Vec::new(), None);
        proof {
            self.lemma_wf_kept(old(self));
        }
        r
    }
}

/// The geometry that a pass handing out `results` leaves on `n`, where `n`
/// had `prior` before: the last entry for `n` wins.
pub open spec fn box_after(results: Seq<(NodeId, LayoutBox)>, n: int, prior: LayoutBox) -> LayoutBox
    decreases results.len(),
{
    if results.len() == 0 {
        prior
    } else if results.last().0.index == n {
        results.last().1
    } else {
        box_after(results.drop_last(), n, prior)
    }
}

/// Slot `a` is slot `b` with `node` taken out of its children.
pub open spec fn pruned(a: LayoutNode, b: LayoutNode, node: NodeId) -> bool {
    &&& a.live == b.live
    &&& a.style == b.style
    &&& a.leaf == b.leaf
    &&& a.layout == b.layout
    &&& a.children@ == without(b.children@, node)
}

/// Slot `a` is slot `b` with the geometry that `results` leaves on slot `i`.
pub open spec fn laid_out(a: LayoutNode, b: LayoutNode, results: Seq<(NodeId, LayoutBox)>, i: int) -> bool {
    &&& a.live == b.live
    &&& a.style == b.style
    &&& a.leaf == b.leaf
    &&& a.children == b.children
    &&& a.layout == box_after(results, i, b.layout)
}

impl LayoutTree {
    /// `self` is `old` with the geometry of a pass that returned `results`:
    /// each node keeps all else and takes the last box that `results` gives it.
    pub open spec fn laid_out_by(&self, old: &LayoutTree, results: Seq<(NodeId, LayoutBox)>) -> bool {
        &&& self.nodes@.len() == old.nodes@.len()
        &&& forall|i: int|
            0 <= i < self.nodes@.len() ==> laid_out(#[trigger] self.nodes@[i], old.nodes@[i], results, i)
    }

    /// The tree after node `p`'s children became `children`, all else kept.
    pub open spec fn children_replaced(&self, old: &LayoutTree, p: NodeId, children: Seq<NodeId>) -> bool {
        &&& self.nodes@.len() == old.nodes@.len()
        &&& self.others_unchanged(old, p)
        &&& self.children_of(p) == children
        &&& self.live(p) == old.live(p)
        &&& self.style_of(p) == old.style_of(p)
        &&& self.leaf_of(p) == old.leaf_of(p)
        &&& self.layout_of(p) == old.layout_of(p)
        &&& self.last_pass == old.last_pass
        &&& self.dirty
    }

    proof fn lemma_children_replaced_wf(&self, old: &LayoutTree, p: NodeId, children: Seq<NodeId>)
        requires
            old.wf(),
            old.live(p),
            self.children_replaced(old, p, children),
            forall|j: int| 0 <= j < children.len() ==> old.live(#[trigger] children[j]),
            children.len() > 0 ==> old.leaf_of(p).is_none(),
        ensures
            self.wf(),
            forall|n: NodeId| #[trigger] self.live(n) == old.live(n),
    {
        assert forall|n: NodeId| #[trigger] self.live(n) == old.live(n) by {
            if n.index < self.nodes@.len() && n.index != p.index {
                assert(self.nodes@[n.index as int] == old.nodes@[n.index as int]);
            }
        }
        assert forall|i: int| 0 <= i < self.nodes@.len() && #[trigger] self.nodes@[i].live implies {
            &&& forall|j: int|
                0 <= j < self.nodes@[i].children@.len() ==> self.live(
                    #[trigger] self.nodes@[i].children@[j],
                )
            &&& self.nodes@[i].leaf.is_some() ==> self.nodes@[i].children@.len() == 0
        } by {
            if i != p.index {
                assert(self.nodes@[i] == old.nodes@[i]);
                assert forall|j: int| 0 <= j < self.nodes@[i].children@.len() implies self.live(
                    #[trigger] self.nodes@[i].children@[j],
                ) by {
                    assert(old.live(old.nodes@[i].children@[j]));
                }
            } else {
                assert forall|j: int| 0 <= j < self.nodes@[i].children@.len() implies self.live(
                    #[trigger] self.nodes@[i].children@[j],
                ) by {
                    assert(old.live(children[j]));
                }
            }
        }
    }

    /// A new leaf node whose size is reported by the measurement leaf `leaf`.
    pub fn new_measured_leaf(&mut self, style: Style, leaf: LeafId) -> (r: NodeId)
        requires
            old(self).wf(),
            old(self).nodes@.len() < usize::MAX,
        ensures
            final(self).wf(),
            r.index == old(self).nodes@.len(),
            final(self).nodes@.len() == old(self).nodes@.len() + 1,
            final(self).live(r),
            final(self).style_of(r) == style,
            final(self).children_of(r).len() == 0,
            final(self).leaf_of(r) == Some(leaf),
            final(self).others_unchanged(old(self), r),
            final(self).dirty,
    {
        let r = self.push_node(style, Vec::new(), Some(leaf));
        proof {
            self.lemma_wf_kept(old(self));
        }
        r
    }

    /// A new container node whose children are `children`, in order. Fails,
    /// changing nothing, when one of them is not live.
    pub fn new_container(&mut self, style: Style, children: Vec<NodeId>) -> (r: Result<NodeId, LayoutError>)
        requires
            old(self).wf(),
            old(self).nodes@.len() < usize::MAX,
        ensures
            final(self).wf(),
            r.is_err() <==> exists|j: int| 0 <= j < children@.len() && !old(self).live(#[trigger] children@[j]),
            r.is_err() ==> r == Err::<NodeId, LayoutError>(LayoutError::NodeNotFound) && *final(self) == *old(self),
            r.is_ok() ==> {
                let n = r.unwrap();
                &&& n.index == old(self).nodes@.len()
                &&& final(self).nodes@.len() == old(self).nodes@.len() + 1
                &&& final(self).live(n)
                &&& final(self).style_of(n) == style
                &&& final(self).children_of(n) == children@
                &&& final(self).leaf_of(n).is_none()
                &&& final(self).others_unchanged(old(self), n)
                &&& final(self).dirty
            },
    {
        let mut k: usize = 0;
        while k < children.len()
            invariant
                k <= children@.len(),
                *self == *old(self),
                self.wf(),
                forall|j: int| 0 <= j < k ==> self.live(#[trigger] children@[j]),
            decreases children@.len() - k,
        {
            if !self.is_live(children[k]) {
                return Err(LayoutError::NodeNotFound);
            }
            k += 1;
        }
        let r = self.push_node(style, children, None);
        proof {
            self.lemma_wf_kept(old(self));
        }
        Ok(r)
    }

    /// Gives `node` the style `style`. Answers whether the style differed; the
    /// tree turns dirty exactly then.
    pub fn set_style(&mut self, node: NodeId, style: Style) -> (r: Result<bool, LayoutError>)
        requires
            old(self).wf(),
        ensures
            final(self).wf(),
            !old(self).live(node) ==> r == Err::<bool, LayoutError>(LayoutError::NodeNotFound) && *final(self) == *old(self),
            old(self).live(node) ==> {
                &&& r == Ok::<bool, LayoutError>(old(self).style_of(node) != style)
                &&& final(self).nodes@.len() == old(self).nodes@.len()
                &&& final(self).others_unchanged(old(self), node)
                &&& final(self).live(node)
                &&& final(self).style_of(node) == style
                &&& final(self).children_of(node) == old(self).children_of(node)
                &&& final(self).leaf_of(node) == old(self).leaf_of(node)
                &&& final(self).layout_of(node) == old(self).layout_of(node)
                &&& final(self).dirty == (old(self).dirty || old(self).style_of(node) != style)
                &&& final(self).last_pass == old(self).last_pass
                &&& final(self).nodes@[node.index as int] == (LayoutNode { style, ..old(self).nodes@[node.index as int] })
            },
    {
        if !self.is_live(node) {
            return Err(LayoutError::NodeNotFound);
        }
        let changed = self.nodes[node.index].style != style;
        if changed {
            self.nodes[node.index].style = style;
            self.dirty = true;
        }
        proof {
            self.lemma_wf_kept(old(self));
        }
        Ok(changed)
    }
}

impl LayoutTree {
    /// Makes `child` the child of `parent` at `index`, moving later children
    /// one place on.
    pub fn insert_child_at(&mut self, parent: NodeId, index: usize, child: NodeId) -> (r: Result<(), LayoutError>)
        requires
            old(self).wf(),
        ensures
            final(self).wf(),
            r.is_err() ==> *final(self) == *old(self),
            (!old(self).live(parent) || !old(self).live(child)) <==> r == Err::<(), LayoutError>(LayoutError::NodeNotFound),
            (old(self).live(parent) && old(self).live(child) && old(self).leaf_of(parent).is_some())
                <==> r == Err::<(), LayoutError>(LayoutError::MeasuredLeaf),
            (old(self).live(parent) && old(self).live(child) && old(self).leaf_of(parent).is_none()
                && index > old(self).children_of(parent).len())
                <==> r == Err::<(), LayoutError>(LayoutError::ChildIndexOutOfBounds),
            r.is_ok() <==> (old(self).live(parent) && old(self).live(child) && old(self).leaf_of(parent).is_none()
                && index <= old(self).children_of(parent).len()),
            r.is_ok() ==> final(self).children_replaced(
                old(self),
                parent,
                old(self).children_of(parent).insert(index as int, child),
            ),
    {
        if !self.is_live(parent) || !self.is_live(child) {
            return Err(LayoutError::NodeNotFound);
        }
        if self.nodes[parent.index].leaf.is_some() {
            return Err(LayoutError::MeasuredLeaf);
        }
        if index > self.nodes[parent.index].children.len() {
            return Err(LayoutError::ChildIndexOutOfBounds);
        }
        self.nodes[parent.index].children.insert(index, child);
        self.dirty = true;
        proof {
            let kids = old(self).children_of(parent).insert(index as int, child);
            assert forall|j: int| 0 <= j < kids.len() implies old(self).live(#[trigger] kids[j]) by {
                if j < index {
                    assert(kids[j] == old(self).children_of(parent)[j]);
                } else if j > index {
                    assert(kids[j] == old(self).children_of(parent)[j - 1]);
                }
                assert(old(self).nodes@[parent.index as int].live);
            }
            self.lemma_children_replaced_wf(old(self), parent, kids);
        }
        Ok(())
    }

    /// Makes `children` the children of `parent`, in order, in place of the
    /// ones it had; those stay in the tree.
    pub fn set_children(&mut self, parent: NodeId, children: Vec<NodeId>) -> (r: Result<(), LayoutError>)
        requires
            old(self).wf(),
        ensures
            final(self).wf(),
            r.is_err() ==> *final(self) == *old(self),
            (!old(self).live(parent) || exists|j: int| 0 <= j < children@.len() && !old(self).live(#[trigger] children@[j]))
                <==> r == Err::<(), LayoutError>(LayoutError::NodeNotFound),
            r.is_ok() <==> (old(self).live(parent) && (forall|j: int| 0 <= j < children@.len() ==> old(self).live(#[trigger] children@[j]))
                && (children@.len() == 0 || old(self).leaf_of(parent).is_none())),
            r.is_ok() ==> final(self).children_replaced(old(self), parent, children@),
    {
        if !self.is_live(parent) {
            return Err(LayoutError::NodeNotFound);
        }
        let mut k: usize = 0;
        while k < children.len()
            invariant
                k <= children@.len(),
                *self == *old(self),
                self.wf(),
                forall|j: int| 0 <= j < k ==> self.live(#[trigger] children@[j]),
            decreases children@.len() - k,
        {
            if !self.is_live(children[k]) {
                return Err(LayoutError::NodeNotFound);
            }
            k += 1;
        }
        if children.len() > 0 && self.nodes[parent.index].leaf.is_some() {
            return Err(LayoutError::MeasuredLeaf);
        }
        let ghost kids = children@;
        self.nodes[parent.index].children = children;
        self.dirty = true;
        proof {
            assert(old(self).nodes@[parent.index as int].live);
            self.lemma_children_replaced_wf(old(self), parent, kids);
        }
        Ok(())
    }

    /// Detaches the child of `parent` at `index` and returns it. The child
    /// stays in the tree.
    pub fn remove_child_at(&mut self, parent: NodeId, index: usize) -> (r: Result<NodeId, LayoutError>)
        requires
            old(self).wf(),
        ensures
            final(self).wf(),
            r.is_err() ==> *final(self) == *old(self),
            !old(self).live(parent) <==> r == Err::<NodeId, LayoutError>(LayoutError::NodeNotFound),
            (old(self).live(parent) && index >= old(self).children_of(parent).len())
                <==> r == Err::<NodeId, LayoutError>(LayoutError::ChildIndexOutOfBounds),
            r.is_ok() <==> (old(self).live(parent) && index < old(self).children_of(parent).len()),
            r.is_ok() ==> {
                &&& r.unwrap() == old(self).children_of(parent)[index as int]
                &&& final(self).children_replaced(
                    old(self),
                    parent,
                    old(self).children_of(parent).remove(index as int),
                )
            },
    {
        if !self.is_live(parent) {
            return Err(LayoutError::NodeNotFound);
        }
        if index >= self.nodes[parent.index].children.len() {
            return Err(LayoutError::ChildIndexOutOfBounds);
        }
        let child = self.nodes[parent.index].children.remove(index);
        self.dirty = true;
        proof {
            let kids = old(self).children_of(parent).remove(index as int);
            assert forall|j: int| 0 <= j < kids.len() implies old(self).live(#[trigger] kids[j]) by {
                if j < index {
                    assert(kids[j] == old(self).children_of(parent)[j]);
                } else {
                    assert(kids[j] == old(self).children_of(parent)[j + 1]);
                }
                assert(old(self).nodes@[parent.index as int].live);
            }
            self.lemma_children_replaced_wf(old(self), parent, kids);
        }
        Ok(child)
    }

    /// Puts `child` in the place of the child of `parent` at `index`, and
    /// returns the child it took the place of, which stays in the tree.
    pub fn replace_child_at(&mut self, parent: NodeId, index: usize, child: NodeId) -> (r: Result<NodeId, LayoutError>)
        requires
            old(self).wf(),
        ensures
            final(self).wf(),
            r.is_err() ==> *final(self) == *old(self),
            (!old(self).live(parent) || !old(self).live(child)) <==> r == Err::<NodeId, LayoutError>(LayoutError::NodeNotFound),
            (old(self).live(parent) && old(self).live(child) && index >= old(self).children_of(parent).len())
                <==> r == Err::<NodeId, LayoutError>(LayoutError::ChildIndexOutOfBounds),
            r.is_ok() <==> (old(self).live(parent) && old(self).live(child) && index < old(self).children_of(parent).len()),
            r.is_ok() ==> {
                &&& r.unwrap() == old(self).children_of(parent)[index as int]
                &&& final(self).children_replaced(
                    old(self),
                    parent,
                    old(self).children_of(parent).update(index as int, child),
                )
            },
    {
        if !self.is_live(parent) || !self.is_live(child) {
            return Err(LayoutError::NodeNotFound);
        }
        if index >= self.nodes[parent.index].children.len() {
            return Err(LayoutError::ChildIndexOutOfBounds);
        }
        let previous = self.nodes[parent.index].children[index];
        self.nodes[parent.index].children.set(index, child);
        self.dirty = true;
        proof {
            let kids = old(self).children_of(parent).update(index as int, child);
            assert forall|j: int| 0 <= j < kids.len() implies old(self).live(#[trigger] kids[j]) by {
                if j != index {
                    assert(kids[j] == old(self).children_of(parent)[j]);
                }
                assert(old(self).nodes@[parent.index as int].live);
            }
            self.lemma_children_replaced_wf(old(self), parent, kids);
        }
        Ok(previous)
    }
}

/// `children` with every occurrence of `x` taken out, order kept.
fn without_node(children: &Vec<NodeId>, x: NodeId) -> (r: Vec<NodeId>)
    ensures
        r@ == without(children@, x),
{
    let mut r: Vec<NodeId> = Vec::new();
    let mut k: usize = 0;
    while k < children.len()
        invariant
            k <= children@.len(),
            r@ == without(children@.take(k as int), x),
        decreases children@.len() - k,
    {
        proof {
            assert(children@.take(k as int + 1).drop_last() == children@.take(k as int));
        }
        if children[k] != x {
            r.push(children[k]);
        }
        k += 1;
    }
    proof {
        assert(children@.take(k as int) == children@);
    }
    r
}

impl LayoutTree {
    /// `self` is `old` with `node` removed: `node` is no longer live, no node
    /// lists it as a child, and nothing else changed.
    pub open spec fn node_removed(&self, old: &LayoutTree, node: NodeId) -> bool {
        &&& self.nodes@.len() == old.nodes@.len()
        &&& !self.live(node)
        &&& forall|i: int|
            0 <= i < self.nodes@.len() && i != node.index ==> pruned(
                #[trigger] self.nodes@[i],
                old.nodes@[i],
                node,
            )
        &&& self.last_pass == old.last_pass
        &&& self.dirty
    }

    /// Removes `node` from the tree and from its parent's children. Its own
    /// children stay in the tree, without a parent.
    pub fn remove(&mut self, node: NodeId) -> (r: Result<(), LayoutError>)
        requires
            old(self).wf(),
        ensures
            final(self).wf(),
            !old(self).live(node) <==> r == Err::<(), LayoutError>(LayoutError::NodeNotFound),
            r.is_ok() <==> old(self).live(node),
            r.is_err() ==> *final(self) == *old(self),
            r.is_ok() ==> final(self).node_removed(old(self), node),
    {
        if !self.is_live(node) {
            return Err(LayoutError::NodeNotFound);
        }
        let mut i: usize = 0;
        while i < self.nodes.len()
            invariant
                i <= self.nodes@.len(),
                self.nodes@.len() == old(self).nodes@.len(),
                self.last_pass == old(self).last_pass,
                forall|k: int| 0 <= k < i ==> pruned(#[trigger] self.nodes@[k], old(self).nodes@[k], node),
                forall|k: int| i <= k < self.nodes@.len() ==> #[trigger] self.nodes@[k] == old(self).nodes@[k],
            decreases self.nodes@.len() - i,
        {
            let ghost pre = self.nodes@;
            let kept = without_node(&self.nodes[i].children, node);
            self.nodes[i].children = kept;
            proof {
                assert forall|k: int| 0 <= k < i + 1 implies pruned(#[trigger] self.nodes@[k], old(self).nodes@[k], node) by {
                    if k < i {
                        assert(self.nodes@[k] == pre[k]);
                    }
                }
                assert forall|k: int| i + 1 <= k < self.nodes@.len() implies #[trigger] self.nodes@[k] == old(self).nodes@[k] by {
                    assert(self.nodes@[k] == pre[k]);
                }
            }
            i += 1;
        }
        self.nodes[node.index].live = false;
        self.nodes[node.index].children = Vec::new();
        self.dirty = true;
        proof {
            assert forall|i: int| 0 <= i < self.nodes@.len() && #[trigger] self.nodes@[i].live implies {
                &&& forall|j: int|
                    0 <= j < self.nodes@[i].children@.len() ==> self.live(
                        #[trigger] self.nodes@[i].children@[j],
                    )
                &&& self.nodes@[i].leaf.is_some() ==> self.nodes@[i].children@.len() == 0
            } by {
                let oc = old(self).nodes@[i].children@;
                lemma_without_not_contains(oc, node);
                if i != node.index {
                    assert(pruned(self.nodes@[i], old(self).nodes@[i], node));
                }
                assert forall|j: int| 0 <= j < self.nodes@[i].children@.len() implies self.live(
                    #[trigger] self.nodes@[i].children@[j],
                ) by {
                    let c = self.nodes@[i].children@[j];
                    assert(without(oc, node).contains(c));
                    assert(oc.contains(c));
                    let k = choose|k: int| 0 <= k < oc.len() && oc[k] == c;
                    assert(old(self).live(oc[k]));
                    assert(c != node);
                    assert(pruned(self.nodes@[c.index as int], old(self).nodes@[c.index as int], node));
                }
                if self.nodes@[i].leaf.is_some() {
                    assert(oc.len() == 0);
                    assert(oc == Seq::<NodeId>::empty());
                }
            }
        }
        Ok(())
    }

    /// Gives `node` the measurement leaf `leaf`, or takes its leaf away.
    pub fn set_leaf(&mut self, node: NodeId, leaf: Option<LeafId>) -> (r: Result<(), LayoutError>)
        requires
            old(self).wf(),
        ensures
            final(self).wf(),
            r.is_err() ==> *final(self) == *old(self),
            !old(self).live(node) <==> r == Err::<(), LayoutError>(LayoutError::NodeNotFound),
            (old(self).live(node) && leaf.is_some() && old(self).children_of(node).len() > 0)
                <==> r == Err::<(), LayoutError>(LayoutError::MeasuredLeaf),
            r.is_ok() <==> (old(self).live(node) && (leaf.is_none() || old(self).children_of(node).len() == 0)),
            r.is_ok() ==> {
                &&& final(self).nodes@.len() == old(self).nodes@.len()
                &&& final(self).others_unchanged(old(self), node)
                &&& final(self).live(node)
                &&& final(self).leaf_of(node) == leaf
                &&& final(self).style_of(node) == old(self).style_of(node)
                &&& final(self).children_of(node) == old(self).children_of(node)
                &&& final(self).layout_of(node) == old(self).layout_of(node)
                &&& final(self).last_pass == old(self).last_pass
                &&& final(self).dirty
            },
    {
        if !self.is_live(node) {
            return Err(LayoutError::NodeNotFound);
        }
        if leaf.is_some() && self.nodes[node.index].children.len() > 0 {
            return Err(LayoutError::MeasuredLeaf);
        }
        self.nodes[node.index].leaf = leaf;
        self.dirty = true;
        proof {
            self.lemma_wf_kept(old(self));
        }
        Ok(())
    }

    /// The children of `node`, in order.
    pub fn children(&self, node: NodeId) -> (r: Result<Vec<NodeId>, LayoutError>)
        ensures
            !self.live(node) <==> r == Err::<Vec<NodeId>, LayoutError>(LayoutError::NodeNotFound),
            r.is_ok() <==> self.live(node),
            r.is_ok() ==> r.unwrap()@ == self.children_of(node),
    {
        if !self.is_live(node) {
            return Err(LayoutError::NodeNotFound);
        }
        let mut out: Vec<NodeId> = Vec::new();
        let mut k: usize = 0;
        while k < self.nodes[node.index].children.len()
            invariant
                self.live(node),
                k <= self.children_of(node).len(),
                out@ == self.children_of(node).take(k as int),
            decreases self.children_of(node).len() - k,
        {
            out.push(self.nodes[node.index].children[k]);
            k += 1;
            proof {
                assert(out@ =~= self.children_of(node).take(k as int));
            }
        }
        proof {
            assert(out@ =~= self.children_of(node));
        }
        Ok(out)
    }

    /// The geometry that the last layout pass gave `node`.
    pub fn layout(&self, node: NodeId) -> (r: Result<LayoutBox, LayoutError>)
        ensures
            !self.live(node) ==> r == Err::<LayoutBox, LayoutError>(LayoutError::NodeNotFound),
            self.live(node) ==> r == Ok::<LayoutBox, LayoutError>(self.layout_of(node)),
    {
        if !self.is_live(node) {
            return Err(LayoutError::NodeNotFound);
        }
        Ok(self.nodes[node.index].layout)
    }

    /// The style of `node`.
    pub fn style(&self, node: NodeId) -> (r: Result<Style, LayoutError>)
        ensures
            !self.live(node) ==> r == Err::<Style, LayoutError>(LayoutError::NodeNotFound),
            self.live(node) ==> r == Ok::<Style, LayoutError>(self.style_of(node)),
    {
        if !self.is_live(node) {
            return Err(LayoutError::NodeNotFound);
        }
        Ok(self.nodes[node.index].style)
    }

    /// The measurement leaf of `node`, if it has one.
    pub fn leaf(&self, node: NodeId) -> (r: Result<Option<LeafId>, LayoutError>)
        ensures
            !self.live(node) ==> r == Err::<Option<LeafId>, LayoutError>(LayoutError::NodeNotFound),
            self.live(node) ==> r == Ok::<Option<LeafId>, LayoutError>(self.leaf_of(node)),
    {
        if !self.is_live(node) {
            return Err(LayoutError::NodeNotFound);
        }
        Ok(self.nodes[node.index].leaf)
    }

    pub open spec fn needs_pass_spec(&self, root: NodeId, space: SpaceRequest) -> bool {
        self.dirty || self.last_pass != Some((root, space))
    }

    /// Whether a layout pass from `root` in `space` has to run: the tree
    /// changed since the last pass, or the last pass was asked for other room.
    pub fn needs_pass(&self, root: NodeId, space: SpaceRequest) -> (r: bool)
        ensures
            r == self.needs_pass_spec(root, space),
    {
        if self.dirty {
            return true;
        }
        match self.last_pass {
            Some((last_root, last_space)) => last_root != root || last_space != space,
            None => true,
        }
    }

    /// Stores the geometry of a pass from `root` in `space`: each entry of
    /// `results` gives one node its box, a later entry winning over an earlier
    /// one. The tree is clean afterwards until it changes again.
    pub fn record_pass(&mut self, root: NodeId, space: SpaceRequest, results: &Vec<(NodeId, LayoutBox)>)
        requires
            old(self).wf(),
        ensures
            final(self).wf(),
            !final(self).dirty,
            final(self).last_pass == Some((root, space)),
            final(self).nodes@.len() == old(self).nodes@.len(),
            forall|i: int|
                0 <= i < final(self).nodes@.len() ==> laid_out(
                    #[trigger] final(self).nodes@[i],
                    old(self).nodes@[i],
                    results@,
                    i,
                ),
    {
        let mut k: usize = 0;
        while k < results.len()
            invariant
                k <= results@.len(),
                self.nodes@.len() == old(self).nodes@.len(),
                self.last_pass == old(self).last_pass,
                self.dirty == old(self).dirty,
                forall|i: int|
                    0 <= i < self.nodes@.len() ==> laid_out(
                        #[trigger] self.nodes@[i],
                        old(self).nodes@[i],
                        results@.take(k as int),
                        i,
                    ),
            decreases results@.len() - k,
        {
            let ghost pre = self.nodes@;
            let (id, b) = results[k];
            if id.index < self.nodes.len() {
                self.nodes[id.index].layout = b;
            }
            proof {
                let t = results@.take(k as int + 1);
                assert(t.drop_last() == results@.take(k as int));
                assert forall|i: int| 0 <= i < self.nodes@.len() implies laid_out(
                    #[trigger] self.nodes@[i],
                    old(self).nodes@[i],
                    t,
                    i,
                ) by {
                    assert(laid_out(pre[i], old(self).nodes@[i], results@.take(k as int), i));
                    if i != id.index {
                        assert(self.nodes@[i] == pre[i]);
                    }
                }
            }
            k += 1;
        }
        self.dirty = false;
        self.last_pass = Some((root, space));
        proof {
            assert(results@.take(k as int) == results@);
            assert forall|i: int| 0 <= i < old(self).nodes@.len() implies {
                &&& #[trigger] self.nodes@[i].live == old(self).nodes@[i].live
                &&& self.nodes@[i].children == old(self).nodes@[i].children
            } by {
                assert(laid_out(self.nodes@[i], old(self).nodes@[i], results@, i));
            }
            self.lemma_wf_kept(old(self));
        }
    }
}

impl LayoutBox {
    pub open spec fn empty_spec() -> LayoutBox {
        LayoutBox {
            x: 0,
            y: 0,
            size: crate::geometry::Size::zero_spec(),
            content_size: crate::geometry::Size::zero_spec(),
        }
    }
}

} // verus!
