use vstd::prelude::*;

use crate::geometry::Size;
use crate::layout::{LayoutTree, NodeId, lemma_without_not_contains, pruned};
use crate::reconcile::{Edit, apply_edit, apply_edits, insert_count};
use crate::shadow::{AnyShadow, GroupShadow, WidgetHandle, kind_key};

verus! {

/// A change that the native group widget has to make to stay in step with
/// its element.
#[derive(Clone, Copy, Debug, PartialEq, Eq, Structural, Hash)]
pub enum GroupEdit {
    InsertChild { index: usize, widget: WidgetHandle },
    RemoveChild { index: usize },
    SwapChildren { first: usize, second: usize },
}

/// What the native group is told after a layout pass: its own size, and the
/// position of each child, in child order.
pub struct GroupGeometry {
    pub size: Size,
    pub positions: Vec<(i32, i32)>,
}

/// The kind keys of a sequence of elements, in order: what the sequence
/// reconciler compares against the views.
pub open spec fn keys_of(children: Seq<AnyShadow>) -> Seq<u64> {
    children.map_values(|c: AnyShadow| kind_key(c.shadow.kind_spec()))
}

/// What applying one reconciler edit to a group did.
pub struct Applied {
    /// The change the native group has to make.
    pub edit: GroupEdit,
    /// The element that a removal took out, for the caller to tear down.
    pub removed: Option<AnyShadow>,
}

/// The layout nodes of a sequence of elements, in order.
pub open spec fn nodes_of(children: Seq<AnyShadow>) -> Seq<NodeId> {
    children.map_values(|c: AnyShadow| c.node)
}

impl GroupShadow {
    /// The element list and the children of `node` in `tree` agree, one node
    /// per element, in the same order and without repeats.
    pub open spec fn synced(&self, tree: &LayoutTree, node: NodeId) -> bool {
        &&& tree.live(node)
        &&& tree.leaf_of(node).is_none()
        &&& tree.children_of(node) == nodes_of(self.children@)
        &&& nodes_of(self.children@).no_duplicates()
        &&& !nodes_of(self.children@).contains(node)
    }

    /// A group element around the native group `group`, with no children.
    pub fn new(group: WidgetHandle) -> (r: GroupShadow)
        ensures
            r.group == group,
            r.children@.len() == 0,
    {
        GroupShadow { group, children: Vec::new() }
    }

    /// The geometry that the last layout pass left on the group's node and
    /// its children's nodes.
    pub fn geometry(&self, tree: &LayoutTree, node: NodeId) -> (r: GroupGeometry)
        requires
            tree.wf(),
            self.synced(tree, node),
        ensures
            r.size == tree.layout_of(node).size,
            r.positions@.len() == self.children@.len(),
            forall|i: int|
                0 <= i < self.children@.len() ==> #[trigger] r.positions@[i] == (
                    tree.layout_of(self.children@[i].node).x,
                    tree.layout_of(self.children@[i].node).y,
                ),
    {
        let size = tree.nodes[node.index].layout.size;
        let mut positions: Vec<(i32, i32)> = Vec::new();
        let mut k: usize = 0;
        while k < self.children.len()
            invariant
                tree.wf(),
                self.synced(tree, node),
                k <= self.children@.len(),
                positions@.len() == k,
                forall|i: int|
                    0 <= i < k ==> #[trigger] positions@[i] == (
                        tree.layout_of(self.children@[i].node).x,
                        tree.layout_of(self.children@[i].node).y,
                    ),
            decreases self.children@.len() - k,
        {
            let child = self.children[k].node;
            proof {
                assert(nodes_of(self.children@)[k as int] == child);
                assert(tree.nodes@[node.index as int].live);
                assert(tree.live(tree.children_of(node)[k as int]));
            }
            let b = tree.nodes[child.index].layout;
            positions.push((b.x, b.y));
            k += 1;
        }
        GroupGeometry { size, positions }
    }

    /// How many child elements the group holds.
    pub fn len(&self) -> (r: usize)
        ensures
            r == self.children@.len(),
    {
        self.children.len()
    }

    fn holds_node(&self, n: NodeId) -> (r: bool)
        ensures
            r == nodes_of(self.children@).contains(n),
    {
        let mut k: usize = 0;
        while k < self.children.len()
            invariant
                k <= self.children@.len(),
                forall|m: int| 0 <= m < k ==> self.children@[m].node != n,
            decreases self.children@.len() - k,
        {
            if self.children[k].node == n {
                proof {
                    assert(nodes_of(self.children@)[k as int] == n);
                }
                return true;
            }
            k += 1;
        }
        proof {
            if nodes_of(self.children@).contains(n) {
                let m = choose|m: int| 0 <= m < nodes_of(self.children@).len() && nodes_of(self.children@)[m] == n;
                assert(self.children@[m].node == n);
            }
        }
        false
    }

    /// Inserts `element` at `index`, in the element list and as a child of
    /// `node` in the layout tree together. When the tree refuses (the node is
    /// not live, the index is past the end) or the element's node is already
    /// here, nothing changes and `element` comes back.
    pub fn insert(&mut self, tree: &mut LayoutTree, node: NodeId, index: usize, element: AnyShadow) -> (r: Result<GroupEdit, AnyShadow>)
        requires
            old(tree).wf(),
            old(self).synced(old(tree), node),
        ensures
            final(tree).wf(),
            final(self).synced(final(tree), node),
            final(self).group == old(self).group,
            r.is_ok() <==> (old(tree).live(element.node) && index <= old(self).children@.len()
                && element.node != node && !nodes_of(old(self).children@).contains(element.node)),
            r.is_err() ==> r == Err::<GroupEdit, AnyShadow>(element) && *final(tree) == *old(tree)
                && final(self).children@ == old(self).children@,
            r.is_ok() ==> {
                &&& r == Ok::<GroupEdit, AnyShadow>(GroupEdit::InsertChild { index, widget: element.shadow.widget_spec() })
                &&& final(self).children@ == old(self).children@.insert(index as int, element)
                &&& final(tree).children_replaced(old(tree), node, final(tree).children_of(node))
            },
    {
        if element.node == node || self.holds_node(element.node) {
            return Err(element);
        }
        match tree.insert_child_at(node, index, element.node) {
            Ok(()) => {
                let widget = element.shadow.widget();
                let ghost el = element;
                self.children.insert(index, element);
                proof {
                    let before = nodes_of(old(self).children@);
                    let after = nodes_of(self.children@);
                    assert(after =~= before.insert(index as int, el.node));
                    assert forall|a: int, b: int| 0 <= a < after.len() && 0 <= b < after.len() && a != b
                        implies after[a] != after[b] by {
                        if a != index && b != index {
                            let a0 = if a < index { a } else { a - 1 };
                            let b0 = if b < index { b } else { b - 1 };
                            assert(after[a] == before[a0]);
                            assert(after[b] == before[b0]);
                        } else if a == index {
                            let b0 = if b < index { b } else { b - 1 };
                            assert(after[b] == before[b0]);
                        } else {
                            let a0 = if a < index { a } else { a - 1 };
                            assert(after[a] == before[a0]);
                        }
                    }
                    assert(!after.contains(node)) by {
                        if after.contains(node) {
                            let m = choose|m: int| 0 <= m < after.len() && after[m] == node;
                            if m != index {
                                let m0 = if m < index { m } else { m - 1 };
                                assert(before[m0] == node);
                            }
                        }
                    }
                }
                Ok(GroupEdit::InsertChild { index, widget })
            },
            Err(_) => Err(element),
        }
    }

    /// Takes the child element at `index` out of the group and removes its
    /// layout node from the tree. The caller tears down what comes back.
    pub fn remove(&mut self, tree: &mut LayoutTree, node: NodeId, index: usize) -> (r: Option<(AnyShadow, GroupEdit)>)
        requires
            old(tree).wf(),
            old(self).synced(old(tree), node),
        ensures
            final(tree).wf(),
            final(self).synced(final(tree), node),
            final(self).group == old(self).group,
            r.is_some() <==> index < old(self).children@.len(),
            r.is_none() ==> *final(tree) == *old(tree) && final(self).children@ == old(self).children@,
            r.is_some() ==> {
                let (child, edit) = r.unwrap();
                &&& child == old(self).children@[index as int]
                &&& edit == GroupEdit::RemoveChild { index }
                &&& final(self).children@ == old(self).children@.remove(index as int)
                &&& !final(tree).live(child.node)
            },
    {
        if index >= self.children.len() {
            return None;
        }
        let ghost before = nodes_of(old(self).children@);
        let detached = tree.remove_child_at(node, index);
        assert(detached.is_ok());
        let child = self.children.remove(index);
        proof {
            let after = nodes_of(self.children@);
            assert(after =~= before.remove(index as int));
            assert(old(tree).live(before[index as int]));
            assert(old(tree).nodes@[node.index as int].live);
            assert(!after.contains(child.node)) by {
                if after.contains(child.node) {
                    let m = choose|m: int| 0 <= m < after.len() && after[m] == child.node;
                    let m0 = if m < index { m } else { m + 1 };
                    assert(before[m0] == child.node);
                }
            }
            assert(tree.live(child.node)) by {
                if child.node.index != node.index {
                    assert(tree.nodes@[child.node.index as int] == old(tree).nodes@[child.node.index as int]);
                }
            }
        }
        let ghost mid = *tree;
        let removed = tree.remove(child.node);
        assert(removed.is_ok());
        proof {
            let after = nodes_of(self.children@);
            assert(child.node != node);
            assert(pruned(tree.nodes@[node.index as int], mid.nodes@[node.index as int], child.node));
            lemma_without_not_contains(after, child.node);
            assert(tree.children_of(node) == after);
            assert forall|a: int, b: int| 0 <= a < after.len() && 0 <= b < after.len() && a != b
                implies after[a] != after[b] by {
                let a0 = if a < index { a } else { a + 1 };
                let b0 = if b < index { b } else { b + 1 };
                assert(after[a] == before[a0]);
                assert(after[b] == before[b0]);
            }
            assert(!after.contains(node)) by {
                if after.contains(node) {
                    let m = choose|m: int| 0 <= m < after.len() && after[m] == node;
                    let m0 = if m < index { m } else { m + 1 };
                    assert(before[m0] == node);
                }
            }
        }
        Some((child, GroupEdit::RemoveChild { index }))
    }

    /// Exchanges the child element at `index` with the one `offset` places
    /// after it, in the element list and among the children of `node`.
    pub fn swap(&mut self, tree: &mut LayoutTree, node: NodeId, index: usize, offset: usize) -> (r: Option<GroupEdit>)
        requires
            old(tree).wf(),
            old(self).synced(old(tree), node),
        ensures
            final(tree).wf(),
            final(self).synced(final(tree), node),
            final(self).group == old(self).group,
            r.is_some() <==> (offset > 0 && index + offset < old(self).children@.len()),
            r.is_none() ==> *final(tree) == *old(tree) && final(self).children@ == old(self).children@,
            r.is_some() ==> {
                let j = index + offset;
                &&& r == Some(GroupEdit::SwapChildren { first: index, second: j as usize })
                &&& final(self).children@ == old(self).children@.update(
                    index as int,
                    old(self).children@[j],
                ).update(j, old(self).children@[index as int])
            },
    {
        if offset == 0 || index >= self.children.len() || offset >= self.children.len() - index {
            return None;
        }
        let j = index + offset;
        let ghost before = nodes_of(old(self).children@);
        let ni = self.children[index].node;
        let nj = self.children[j].node;
        proof {
            assert(old(tree).live(before[index as int]));
            assert(old(tree).live(before[j as int]));
            assert(old(tree).nodes@[node.index as int].live);
        }
        let first = tree.replace_child_at(node, index, nj);
        assert(first.is_ok());
        proof {
            assert(tree.live(ni)) by {
                if ni.index != node.index {
                    assert(tree.nodes@[ni.index as int] == old(tree).nodes@[ni.index as int]);
                }
            }
        }
        let second = tree.replace_child_at(node, j, ni);
        assert(second.is_ok());
        let b = self.children.remove(j);
        let a = self.children.remove(index);
        let ghost ea = a;
        let ghost eb = b;
        self.children.insert(index, b);
        self.children.insert(j, a);
        proof {
            let want = old(self).children@.update(index as int, old(self).children@[j as int]).update(
                j as int,
                old(self).children@[index as int],
            );
            assert(self.children@ =~= want);
            let after = nodes_of(self.children@);
            assert(after =~= before.update(index as int, before[j as int]).update(j as int, before[index as int]));
            assert(tree.children_of(node) =~= after);
            assert forall|x: int, y: int| 0 <= x < after.len() && 0 <= y < after.len() && x != y
                implies after[x] != after[y] by {
                let x0 = if x == index { j as int } else if x == j { index as int } else { x };
                let y0 = if y == index { j as int } else if y == j { index as int } else { y };
                assert(after[x] == before[x0]);
                assert(after[y] == before[y0]);
            }
            assert(!after.contains(node)) by {
                if after.contains(node) {
                    let m = choose|m: int| 0 <= m < after.len() && after[m] == node;
                    let m0 = if m == index { j as int } else if m == j { index as int } else { m };
                    assert(before[m0] == node);
                }
            }
        }
        Some(GroupEdit::SwapChildren { first: index, second: j })
    }
}

/// Whether `edit`, offered the element `built`, can be made on a group
/// whose node is `node` and whose children are `children`.
pub open spec fn edit_fits(children: Seq<AnyShadow>, tree: &LayoutTree, node: NodeId, edit: Edit, built: Option<AnyShadow>) -> bool {
    match edit {
        Edit::Insert { index, key } => built.is_some() && kind_key(built.unwrap().shadow.kind_spec()) == key
            && tree.live(built.unwrap().node) && index <= children.len() && built.unwrap().node != node
            && !nodes_of(children).contains(built.unwrap().node),
        Edit::Remove { index } => built.is_none() && index < children.len(),
        Edit::Swap { index, offset } => built.is_none() && offset > 0 && index + offset < children.len(),
    }
}

/// The children after `edit` is made on `children` with the element `built`.
pub open spec fn step_children(children: Seq<AnyShadow>, edit: Edit, built: Option<AnyShadow>) -> Seq<AnyShadow> {
    match edit {
        Edit::Insert { index, .. } => children.insert(index as int, built.unwrap()),
        Edit::Remove { index } => children.remove(index as int),
        Edit::Swap { index, offset } => children.update(index as int, children[index + offset]).update(
            index + offset,
            children[index as int],
        ),
    }
}

/// The element that a removal `edit` takes out of `children`, if any.
pub open spec fn step_removed(children: Seq<AnyShadow>, edit: Edit) -> Seq<AnyShadow> {
    match edit {
        Edit::Remove { index } => seq![children[index as int]],
        _ => seq![],
    }
}

/// The element offered to edit `k` of `edits`: for an insertion, the next
/// of `built` not taken by an earlier insertion.
pub open spec fn offered(built: Seq<AnyShadow>, edits: Seq<Edit>, k: int) -> Option<AnyShadow> {
    match edits[k] {
        Edit::Insert { .. } => if insert_count(edits.take(k)) < built.len() {
            Some(built[insert_count(edits.take(k)) as int])
        } else {
            None
        },
        _ => None,
    }
}

/// The children after making `edits` in order on `children`, insertions
/// placing the elements of `built` in order.
pub open spec fn run_children(children: Seq<AnyShadow>, edits: Seq<Edit>, built: Seq<AnyShadow>) -> Seq<AnyShadow>
    decreases edits.len(),
{
    if edits.len() == 0 {
        children
    } else {
        step_children(run_children(children, edits.drop_last(), built), edits.last(), offered(built, edits, edits.len() - 1))
    }
}

/// The elements that the removals among `edits` take out, in order.
pub open spec fn run_removed(children: Seq<AnyShadow>, edits: Seq<Edit>, built: Seq<AnyShadow>) -> Seq<AnyShadow>
    decreases edits.len(),
{
    if edits.len() == 0 {
        seq![]
    } else {
        run_removed(children, edits.drop_last(), built) + step_removed(run_children(children, edits.drop_last(), built), edits.last())
    }
}

impl GroupShadow {
    /// Makes the reconciler edit `edit`: an insertion places `built`, the
    /// element freshly built for the inserted view. On success the kind keys
    /// of the children change exactly as the edit says. Fails, changing
    /// nothing and handing `built` back, when the edit does not fit: an
    /// insertion without an element of the edit's key or that the group
    /// refuses, an element handed to an edit that builds none, an index out
    /// of range, a swap with itself.
    pub fn apply(&mut self, tree: &mut LayoutTree, node: NodeId, edit: Edit, built: Option<AnyShadow>) -> (r: Result<Applied, Option<AnyShadow>>)
        requires
            old(tree).wf(),
            old(self).synced(old(tree), node),
        ensures
            final(tree).wf(),
            final(self).synced(final(tree), node),
            final(self).group == old(self).group,
            r.is_err() ==> r == Err::<Applied, Option<AnyShadow>>(built) && *final(tree) == *old(tree)
                && final(self).children@ == old(self).children@,
            r.is_ok() ==> keys_of(final(self).children@) == apply_edit(keys_of(old(self).children@), edit),
            r.is_ok() <==> edit_fits(old(self).children@, old(tree), node, edit, built),
            r.is_ok() ==> final(self).children@ == step_children(old(self).children@, edit, built),
            r.is_ok() ==> match r->Ok_0.removed {
                Some(gone) => seq![gone] == step_removed(old(self).children@, edit),
                None => step_removed(old(self).children@, edit) == Seq::<AnyShadow>::empty(),
            },
    {
        let ghost before = keys_of(self.children@);
        match edit {
            Edit::Insert { index, key } => {
                match built {
                    Some(element) => {
                        if element.shadow.key() != key {
                            return Err(Some(element));
                        }
                        let ghost el = element;
                        match self.insert(tree, node, index, element) {
                            Ok(e) => {
                                proof {
                                    assert(keys_of(self.children@) =~= before.insert(index as int, key));
                                }
                                Ok(Applied { edit: e, removed: None })
                            },
                            Err(element) => Err(Some(element)),
                        }
                    },
                    None => Err(None),
                }
            },
            Edit::Remove { index } => {
                if built.is_some() {
                    return Err(built);
                }
                match self.remove(tree, node, index) {
                    Some((child, e)) => {
                        proof {
                            assert(keys_of(self.children@) =~= before.remove(index as int));
                        }
                        Ok(Applied { edit: e, removed: Some(child) })
                    },
                    None => Err(built),
                }
            },
            Edit::Swap { index, offset } => {
                if built.is_some() {
                    return Err(built);
                }
                match self.swap(tree, node, index, offset) {
                    Some(e) => {
                        proof {
                            let j = index + offset;
                            assert(keys_of(self.children@) =~= before.update(index as int, before[j as int]).update(j as int, before[index as int]));
                        }
                        Ok(Applied { edit: e, removed: None })
                    },
                    None => Err(built),
                }
            },
        }
    }
}

impl GroupShadow {
    /// The kind keys of the child elements, in order.
    pub fn keys(&self) -> (r: Vec<u64>)
        ensures
            r@ == keys_of(self.children@),
    {
        let mut r: Vec<u64> = Vec::new();
        let mut k: usize = 0;
        while k < self.children.len()
            invariant
                k <= self.children@.len(),
                r@ == keys_of(self.children@.take(k as int)),
            decreases self.children@.len() - k,
        {
            r.push(self.children[k].shadow.key());
            k += 1;
            proof {
                assert(r@ =~= keys_of(self.children@.take(k as int)));
            }
        }
        proof {
            assert(self.children@.take(k as int) =~= self.children@);
        }
        r
    }

    /// Makes the reconciler's `edits` in order, the `n`-th insertion placing
    /// the `n`-th element of `built`: a rebuild of the group's children. So
    /// the elements built are exactly one per insertion, and a rebuild whose
    /// edits are none builds none. Stops at the first edit that does not fit
    /// and returns its position, the edits before it made; otherwise returns
    /// the elements that removals took out, for the caller to tear down.
    pub fn apply_all(&mut self, tree: &mut LayoutTree, node: NodeId, edits: &Vec<Edit>, built: Vec<AnyShadow>) -> (r: Result<Vec<AnyShadow>, usize>)
        requires
            old(tree).wf(),
            old(self).synced(old(tree), node),
            built@.len() == insert_count(edits@),
        ensures
            final(tree).wf(),
            final(self).synced(final(tree), node),
            final(self).group == old(self).group,
            edits@.len() == 0 ==> final(self).children@ == old(self).children@ && *final(tree) == *old(tree),
            r.is_ok() ==> keys_of(final(self).children@) == apply_edits(keys_of(old(self).children@), edits@),
            r.is_err() ==> r->Err_0 < edits@.len() && keys_of(final(self).children@) == apply_edits(
                keys_of(old(self).children@),
                edits@.take(r->Err_0 as int),
            ),
            r.is_ok() ==> final(self).children@ == run_children(old(self).children@, edits@, built@),
            r.is_ok() ==> r->Ok_0@ == run_removed(old(self).children@, edits@, built@),
            r.is_err() ==> final(self).children@ == run_children(old(self).children@, edits@.take(r->Err_0 as int), built@),
            r.is_err() ==> !edit_fits(
                final(self).children@,
                final(tree),
                node,
                edits@[r->Err_0 as int],
                offered(built@, edits@, r->Err_0 as int),
            ),
    {
        let ghost all = built@;
        let mut pending = built;
        let mut removed: Vec<AnyShadow> = Vec::new();
        let mut i: usize = 0;
        while i < edits.len()
            invariant
                i <= edits@.len(),
                tree.wf(),
                self.synced(tree, node),
                self.group == old(self).group,
                keys_of(self.children@) == apply_edits(keys_of(old(self).children@), edits@.take(i as int)),
                pending@.len() + insert_count(edits@.take(i as int)) == insert_count(edits@),
                i == 0 ==> self.children@ == old(self).children@ && *tree == *old(tree),
                pending@ == all.subrange(insert_count(edits@.take(i as int)) as int, all.len() as int),
                all.len() == insert_count(edits@),
                all == built@,
                self.children@ == run_children(old(self).children@, edits@.take(i as int), all),
                removed@ == run_removed(old(self).children@, edits@.take(i as int), all),
            decreases edits@.len() - i,
        {
            let edit = edits[i];
            let ghost before = self.children@;
            let ghost removed_before = removed@;
            proof {
                let t = edits@.take(i as int + 1);
                assert(t.drop_last() =~= edits@.take(i as int));
                lemma_insert_count_bound(edits@, i as int);
                assert(t.last() == edit);
                assert(t.take(i as int) =~= edits@.take(i as int));
                assert(offered(all, t, i as int) == offered(all, edits@, i as int));
            }
            let inserting = match edit {
                Edit::Insert { .. } => true,
                _ => false,
            };
            let element = if inserting && pending.len() > 0 {
                Some(pending.remove(0))
            } else {
                None
            };
            proof {
                assert(element == offered(all, edits@, i as int));
            }
            let ghost t_before = *tree;
            match self.apply(tree, node, edit, element) {
                Ok(applied) => {
                    if let Some(gone) = applied.removed {
                        removed.push(gone);
                    }
                    proof {
                        assert(removed@ =~= removed_before + step_removed(before, edit));
                    }
                },
                Err(_) => {
                    proof {
                        assert(*tree == t_before);
                        assert(self.children@ == before);
                        assert(!edit_fits(before, &t_before, node, edit, element));
                        assert(edits@[i as int] == edit);
                        assert(self.children@ == run_children(old(self).children@, edits@.take(i as int), all));
                        assert(!edit_fits(self.children@, tree, node, edits@[i as int], offered(all, edits@, i as int)));
                    }
                    return Err(i);
                },
            }
            proof {
                let t = edits@.take(i as int + 1);
                assert(pending@ =~= all.subrange(insert_count(t) as int, all.len() as int));
            }
            i += 1;
        }
        proof {
            assert(edits@.take(i as int) =~= edits@);
            assert(self.children@ == run_children(old(self).children@, edits@, all));
            assert(removed@ == run_removed(old(self).children@, edits@, all));
        }
        Ok(removed)
    }
}

proof fn lemma_insert_count_bound(edits: Seq<Edit>, i: int)
    requires
        0 <= i < edits.len(),
    ensures
        insert_count(edits.take(i + 1)) == insert_count(edits.take(i)) + if edits[i] is Insert { 1nat } else { 0nat },
        insert_count(edits.take(i + 1)) <= insert_count(edits),
    decreases edits.len() - i,
{
    assert(edits.take(i + 1).drop_last() =~= edits.take(i));
    if i + 1 < edits.len() {
        lemma_insert_count_bound(edits, i + 1);
    } else {
        assert(edits.take(i + 1) =~= edits);
    }
}

} // verus!
