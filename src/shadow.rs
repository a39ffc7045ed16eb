use vstd::prelude::*;

use crate::geometry::LayoutBox;
use crate::layout::{LayoutTree, NodeId};
use crate::style::Style;

verus! {

/// The handle of one live native widget. What it names belongs to the platform.
#[derive(Clone, Copy, Debug, PartialEq, Eq, Structural, Hash)]
pub struct WidgetHandle {
    pub id: u64,
}

/// The runtime tag that tells the kinds of element apart once erased.
#[derive(Clone, Copy, Debug, PartialEq, Eq, Structural, Hash)]
pub enum ShadowKind {
    Group,
    Text,
    Pressable,
    Image,
}

/// The element of a flex container: a native group and its child elements.
pub struct GroupShadow {
    pub group: WidgetHandle,
    pub children: Vec<AnyShadow>,
}

/// The element of a text view.
pub struct TextShadow {
    pub text: WidgetHandle,
}

/// The element of an image view.
pub struct ImageShadow {
    pub image: WidgetHandle,
}

/// The element of a pressable: a native press target wrapped around the
/// element of its contents, which shares its layout node.
pub struct PressableShadow {
    pub pressable: WidgetHandle,
    pub contents: Box<ErasedShadow>,
}

/// An element of any kind, its kind kept as the variant.
pub enum ErasedShadow {
    Group(GroupShadow),
    Text(TextShadow),
    Pressable(PressableShadow),
    Image(ImageShadow),
}

/// An element together with its layout node.
pub struct Pod<T> {
    pub node: NodeId,
    pub shadow: T,
}

/// The number under which the reconciler tells element kinds apart.
pub open spec fn kind_key(kind: ShadowKind) -> u64 {
    match kind {
        ShadowKind::Group => 0,
        ShadowKind::Text => 1,
        ShadowKind::Pressable => 2,
        ShadowKind::Image => 3,
    }
}

/// An element of any kind together with its layout node: what a container
/// holds as a child.
pub type AnyShadow = Pod<ErasedShadow>;

impl TextShadow {
    pub fn new(text: WidgetHandle) -> (r: TextShadow)
        ensures
            r.text == text,
    {
        TextShadow { text }
    }
}

impl ImageShadow {
    pub fn new(image: WidgetHandle) -> (r: ImageShadow)
        ensures
            r.image == image,
    {
        ImageShadow { image }
    }
}

impl PressableShadow {
    /// The native press target `pressable` wrapped around the element
    /// `contents`.
    pub fn new(pressable: WidgetHandle, contents: ErasedShadow) -> (r: PressableShadow)
        ensures
            r.pressable == pressable,
            *r.contents == contents,
    {
        PressableShadow { pressable, contents: Box::new(contents) }
    }
}

impl ErasedShadow {
    pub open spec fn kind_spec(&self) -> ShadowKind {
        match self {
            ErasedShadow::Group(_) => ShadowKind::Group,
            ErasedShadow::Text(_) => ShadowKind::Text,
            ErasedShadow::Pressable(_) => ShadowKind::Pressable,
            ErasedShadow::Image(_) => ShadowKind::Image,
        }
    }

    /// The runtime tag of this element.
    pub fn kind(&self) -> (r: ShadowKind)
        ensures
            r == self.kind_spec(),
    {
        match self {
            ErasedShadow::Group(_) => ShadowKind::Group,
            ErasedShadow::Text(_) => ShadowKind::Text,
            ErasedShadow::Pressable(_) => ShadowKind::Pressable,
            ErasedShadow::Image(_) => ShadowKind::Image,
        }
    }

    pub open spec fn widget_spec(&self) -> WidgetHandle {
        match self {
            ErasedShadow::Group(g) => g.group,
            ErasedShadow::Text(t) => t.text,
            ErasedShadow::Pressable(p) => p.pressable,
            ErasedShadow::Image(i) => i.image,
        }
    }

    /// The key of this element's kind, as the sequence reconciler compares it.
    pub fn key(&self) -> (r: u64)
        ensures
            r == kind_key(self.kind_spec()),
    {
        match self {
            ErasedShadow::Group(_) => 0,
            ErasedShadow::Text(_) => 1,
            ErasedShadow::Pressable(_) => 2,
            ErasedShadow::Image(_) => 3,
        }
    }

    /// The native widget that this element places in its parent.
    pub fn widget(&self) -> (r: WidgetHandle)
        ensures
            r == self.widget_spec(),
    {
        match self {
            ErasedShadow::Group(g) => g.group,
            ErasedShadow::Text(t) => t.text,
            ErasedShadow::Pressable(p) => p.pressable,
            ErasedShadow::Image(i) => i.image,
        }
    }
}

/// Something that owns one native widget and can name it.
pub trait NativeWidget {
    spec fn widget_view(&self) -> WidgetHandle;

    fn native_widget(&self) -> (r: WidgetHandle)
        ensures
            r == self.widget_view(),
    ;
}

impl NativeWidget for GroupShadow {
    open spec fn widget_view(&self) -> WidgetHandle {
        self.group
    }

    fn native_widget(&self) -> (r: WidgetHandle) {
        self.group
    }
}

impl NativeWidget for TextShadow {
    open spec fn widget_view(&self) -> WidgetHandle {
        self.text
    }

    fn native_widget(&self) -> (r: WidgetHandle) {
        self.text
    }
}

impl NativeWidget for ImageShadow {
    open spec fn widget_view(&self) -> WidgetHandle {
        self.image
    }

    fn native_widget(&self) -> (r: WidgetHandle) {
        self.image
    }
}

impl NativeWidget for PressableShadow {
    open spec fn widget_view(&self) -> WidgetHandle {
        self.pressable
    }

    fn native_widget(&self) -> (r: WidgetHandle) {
        self.pressable
    }
}

impl NativeWidget for ErasedShadow {
    open spec fn widget_view(&self) -> WidgetHandle {
        self.widget_spec()
    }

    fn native_widget(&self) -> (r: WidgetHandle) {
        self.widget()
    }
}

/// A concrete kind of element, which can be erased into an [`ErasedShadow`]
/// and recovered from one by its runtime tag.
pub trait Shadow: Sized {
    spec fn kind_spec() -> ShadowKind;

    spec fn erase_spec(self) -> ErasedShadow;

    /// The element of this kind that `e` holds, if its tag is this kind's.
    spec fn recover_spec(e: ErasedShadow) -> Option<Self>;

    proof fn lemma_erase_recover(self)
        ensures
            self.erase_spec().kind_spec() == Self::kind_spec(),
            Self::recover_spec(self.erase_spec()) == Some(self),
    ;

    proof fn lemma_recover_kind(e: ErasedShadow)
        ensures
            Self::recover_spec(e).is_some() <==> e.kind_spec() == Self::kind_spec(),
    ;

    fn erase(self) -> (r: ErasedShadow)
        ensures
            r == self.erase_spec(),
    ;

    fn recover(e: ErasedShadow) -> (r: Result<Self, ErasedShadow>)
        ensures
            match Self::recover_spec(e) {
                Some(s) => r == Ok::<Self, ErasedShadow>(s),
                None => r == Err::<Self, ErasedShadow>(e),
            },
    ;

    /// The element of this kind inside `e`, to change in place.
    fn recover_mut(e: &mut ErasedShadow) -> (r: Option<&mut Self>)
        ensures
            match Self::recover_spec(*old(e)) {
                Some(s) => r.is_some() && *r.unwrap() == s && *final(e) == (*final(r.unwrap())).erase_spec(),
                None => r.is_none() && *final(e) == *old(e),
            },
    ;
}

impl Shadow for GroupShadow {
    open spec fn kind_spec() -> ShadowKind {
        ShadowKind::Group
    }

    open spec fn erase_spec(self) -> ErasedShadow {
        ErasedShadow::Group(self)
    }

    open spec fn recover_spec(e: ErasedShadow) -> Option<Self> {
        match e {
            ErasedShadow::Group(g) => Some(g),
            _ => None,
        }
    }

    proof fn lemma_erase_recover(self) {
    }

    proof fn lemma_recover_kind(e: ErasedShadow) {
    }

    fn erase(self) -> (r: ErasedShadow) {
        ErasedShadow::Group(self)
    }

    fn recover(e: ErasedShadow) -> (r: Result<Self, ErasedShadow>) {
        match e {
            ErasedShadow::Group(g) => Ok(g),
            other => Err(other),
        }
    }

    fn recover_mut(e: &mut ErasedShadow) -> (r: Option<&mut Self>) {
        match e {
            ErasedShadow::Group(inner) => Some(inner),
            _ => None,
        }
    }
}

impl Shadow for TextShadow {
    open spec fn kind_spec() -> ShadowKind {
        ShadowKind::Text
    }

    open spec fn erase_spec(self) -> ErasedShadow {
        ErasedShadow::Text(self)
    }

    open spec fn recover_spec(e: ErasedShadow) -> Option<Self> {
        match e {
            ErasedShadow::Text(t) => Some(t),
            _ => None,
        }
    }

    proof fn lemma_erase_recover(self) {
    }

    proof fn lemma_recover_kind(e: ErasedShadow) {
    }

    fn erase(self) -> (r: ErasedShadow) {
        ErasedShadow::Text(self)
    }

    fn recover(e: ErasedShadow) -> (r: Result<Self, ErasedShadow>) {
        match e {
            ErasedShadow::Text(t) => Ok(t),
            other => Err(other),
        }
    }

    fn recover_mut(e: &mut ErasedShadow) -> (r: Option<&mut Self>) {
        match e {
            ErasedShadow::Text(inner) => Some(inner),
            _ => None,
        }
    }
}

impl Shadow for PressableShadow {
    open spec fn kind_spec() -> ShadowKind {
        ShadowKind::Pressable
    }

    open spec fn erase_spec(self) -> ErasedShadow {
        ErasedShadow::Pressable(self)
    }

    open spec fn recover_spec(e: ErasedShadow) -> Option<Self> {
        match e {
            ErasedShadow::Pressable(p) => Some(p),
            _ => None,
        }
    }

    proof fn lemma_erase_recover(self) {
    }

    proof fn lemma_recover_kind(e: ErasedShadow) {
    }

    fn erase(self) -> (r: ErasedShadow) {
        ErasedShadow::Pressable(self)
    }

    fn recover(e: ErasedShadow) -> (r: Result<Self, ErasedShadow>) {
        match e {
            ErasedShadow::Pressable(p) => Ok(p),
            other => Err(other),
        }
    }

    fn recover_mut(e: &mut ErasedShadow) -> (r: Option<&mut Self>) {
        match e {
            ErasedShadow::Pressable(inner) => Some(inner),
            _ => None,
        }
    }
}

impl Shadow for ImageShadow {
    open spec fn kind_spec() -> ShadowKind {
        ShadowKind::Image
    }

    open spec fn erase_spec(self) -> ErasedShadow {
        ErasedShadow::Image(self)
    }

    open spec fn recover_spec(e: ErasedShadow) -> Option<Self> {
        match e {
            ErasedShadow::Image(i) => Some(i),
            _ => None,
        }
    }

    proof fn lemma_erase_recover(self) {
    }

    proof fn lemma_recover_kind(e: ErasedShadow) {
    }

    fn erase(self) -> (r: ErasedShadow) {
        ErasedShadow::Image(self)
    }

    fn recover(e: ErasedShadow) -> (r: Result<Self, ErasedShadow>) {
        match e {
            ErasedShadow::Image(i) => Ok(i),
            other => Err(other),
        }
    }

    fn recover_mut(e: &mut ErasedShadow) -> (r: Option<&mut Self>) {
        match e {
            ErasedShadow::Image(inner) => Some(inner),
            _ => None,
        }
    }
}

pub open spec fn upcast_spec<S: Shadow>(this: Pod<S>) -> AnyShadow {
    Pod { node: this.node, shadow: this.shadow.erase_spec() }
}

pub open spec fn downcast_spec<S: Shadow>(this: AnyShadow) -> Result<Pod<S>, AnyShadow> {
    match S::recover_spec(this.shadow) {
        Some(s) => Ok(Pod { node: this.node, shadow: s }),
        None => Err(this),
    }
}

/// Erasing an element and recovering it as its own kind gives back the same
/// node and element; recovering it as any other kind fails and hands back the
/// erased value unchanged.
pub proof fn lemma_upcast_downcast<S: Shadow, T: Shadow>(pod: Pod<S>)
    ensures
        downcast_spec::<S>(upcast_spec(pod)) == Ok::<Pod<S>, AnyShadow>(pod),
        T::kind_spec() != S::kind_spec() ==> downcast_spec::<T>(upcast_spec(pod)) == Err::<
            Pod<T>,
            AnyShadow,
        >(upcast_spec(pod)),
{
    pod.shadow.lemma_erase_recover();
    T::lemma_recover_kind(pod.shadow.erase_spec());
}

impl<S: Shadow> Pod<S> {
    /// Erases the element's kind, keeping its node.
    pub fn upcast(this: Pod<S>) -> (r: AnyShadow)
        ensures
            r == upcast_spec(this),
    {
        Pod { node: this.node, shadow: this.shadow.erase() }
    }

    /// Recovers an element of kind `S`. When `this` holds another kind, hands
    /// `this` back unchanged.
    pub fn downcast(this: AnyShadow) -> (r: Result<Pod<S>, AnyShadow>)
        ensures
            r == downcast_spec::<S>(this),
            r.is_ok() <==> this.shadow.kind_spec() == S::kind_spec(),
            r.is_err() ==> r == Err::<Pod<S>, AnyShadow>(this),
    {
        proof {
            S::lemma_recover_kind(this.shadow);
        }
        let node = this.node;
        match S::recover(this.shadow) {
            Ok(shadow) => Ok(Pod { node, shadow }),
            Err(shadow) => Err(Pod { node, shadow }),
        }
    }

    /// The element of kind `S` inside `this`, to change in place; `None`,
    /// changing nothing, when `this` holds another kind. The node stays.
    pub fn downcast_mut(this: &mut AnyShadow) -> (r: Option<&mut S>)
        ensures
            final(this).node == old(this).node,
            r.is_some() <==> old(this).shadow.kind_spec() == S::kind_spec(),
            match S::recover_spec(old(this).shadow) {
                Some(s) => r.is_some() && *r.unwrap() == s && final(this).shadow == (*final(r.unwrap())).erase_spec(),
                None => *final(this) == *old(this),
            },
    {
        proof {
            S::lemma_recover_kind(this.shadow);
        }
        S::recover_mut(&mut this.shadow)
    }

    /// Puts this element in the place of `other`, keeping `other`'s layout
    /// node (and with it the place among its siblings): that node takes this
    /// element's style, and this element's own node leaves the tree. Returns
    /// the element that was replaced, whose native widget the caller releases.
    pub fn replace(tree: &mut LayoutTree, other: &mut AnyShadow, this: Pod<S>) -> (r: ErasedShadow)
        requires
            old(tree).wf(),
            old(tree).live(old(other).node),
            old(tree).live(this.node),
            this.node != old(other).node,
            !old(tree).children_of(this.node).contains(this.node),
        ensures
            final(tree).wf(),
            r == old(other).shadow,
            final(other).node == old(other).node,
            final(other).shadow == this.shadow.erase_spec(),
            !final(tree).live(this.node),
            final(tree).live(old(other).node),
            final(tree).style_of(old(other).node) == old(tree).style_of(this.node),
            final(tree).children_of(old(other).node) == old(tree).children_of(this.node),
            final(tree).leaf_of(old(other).node) == old(tree).leaf_of(this.node),
    {
        let node = other.node;
        let style = match tree.style(this.node) {
            Ok(s) => s,
            Err(_) => Style::new(),
        };
        let kids = match tree.children(this.node) {
            Ok(k) => k,
            Err(_) => Vec::new(),
        };
        let leaf = match tree.leaf(this.node) {
            Ok(l) => l,
            Err(_) => None,
        };
        let ghost kv = kids@;
        let ghost t0 = *tree;
        let _ = tree.set_leaf(node, None);
        proof {
            assert(tree.nodes@[this.node.index as int] == t0.nodes@[this.node.index as int]);
            assert forall|j: int| 0 <= j < kv.len() implies tree.live(#[trigger] kv[j]) by {
                assert(old(tree).nodes@[this.node.index as int].live);
                assert(old(tree).live(kv[j]));
                if kv[j].index != node.index {
                    assert(tree.nodes@[kv[j].index as int] == t0.nodes@[kv[j].index as int]);
                }
            }
        }
        let ghost t1 = *tree;
        assert(t1.live(node) && t1.leaf_of(node).is_none());
        let set = tree.set_children(node, kids);
        proof {
            assert(set.is_ok());
            assert(tree.children_of(node) == kv);
            assert(tree.nodes@[this.node.index as int] == t1.nodes@[this.node.index as int]);
        }
        let ghost t2 = *tree;
        let _ = tree.set_leaf(node, leaf);
        proof {
            assert(tree.children_of(node) == kv);
            assert(tree.nodes@[this.node.index as int] == t2.nodes@[this.node.index as int]);
            assert(old(tree).wf());
            if leaf.is_some() {
                assert(old(tree).nodes@[this.node.index as int].live);
                assert(kv.len() == 0);
            }
        }
        let _ = tree.set_style(node, style);
        proof {
            assert(tree.children_of(node) == kv);
            assert(kv == old(tree).children_of(this.node));
            assert(tree.live(this.node)) by {
                assert(tree.nodes@[this.node.index as int] == old(tree).nodes@[this.node.index as int]);
            }
        }
        let ghost mid = *tree;
        let removed = tree.remove(this.node);
        proof {
            assert(removed.is_ok());
            assert(crate::layout::pruned(tree.nodes@[node.index as int], mid.nodes@[node.index as int], this.node));
            crate::layout::lemma_without_not_contains(kv, this.node);
        }
        let mut replaced = Pod { node, shadow: this.shadow.erase() };
        core::mem::swap(other, &mut replaced);
        replaced.shadow
    }
}

/// The elements of the subtree of `e`, whose layout node is `node`, in tree
/// order, each a pair of its native widget and its layout node: an element
/// comes before its children, and children come in order. The contents of a
/// pressable share its node.
pub open spec fn tree_order(e: ErasedShadow, node: NodeId) -> Seq<(WidgetHandle, NodeId)>
    decreases e,
{
    match e {
        ErasedShadow::Group(g) => seq![(g.group, node)] + tree_order_all(g.children@),
        ErasedShadow::Text(t) => seq![(t.text, node)],
        ErasedShadow::Pressable(p) => seq![(p.pressable, node)] + tree_order(*p.contents, node),
        ErasedShadow::Image(i) => seq![(i.image, node)],
    }
}

/// [`tree_order`] of each of `children`, one after the other.
pub open spec fn tree_order_all(children: Seq<AnyShadow>) -> Seq<(WidgetHandle, NodeId)>
    decreases children,
{
    if children.len() == 0 {
        seq![]
    } else {
        tree_order_all(children.drop_last()) + tree_order(children.last().shadow, children.last().node)
    }
}

/// The elements of the subtree of `e` in teardown order: every element comes
/// after all of its children, and children come in order.
pub open spec fn teardown_order(e: ErasedShadow, node: NodeId) -> Seq<(WidgetHandle, NodeId)>
    decreases e,
{
    match e {
        ErasedShadow::Group(g) => teardown_order_all(g.children@) + seq![(g.group, node)],
        ErasedShadow::Text(t) => seq![(t.text, node)],
        ErasedShadow::Pressable(p) => teardown_order(*p.contents, node) + seq![(p.pressable, node)],
        ErasedShadow::Image(i) => seq![(i.image, node)],
    }
}

/// [`teardown_order`] of each of `children`, one after the other.
pub open spec fn teardown_order_all(children: Seq<AnyShadow>) -> Seq<(WidgetHandle, NodeId)>
    decreases children,
{
    if children.len() == 0 {
        seq![]
    } else {
        teardown_order_all(children.drop_last()) + teardown_order(children.last().shadow, children.last().node)
    }
}

/// The native widgets of `entries`, in order.
pub open spec fn widgets_of(entries: Seq<(WidgetHandle, NodeId)>) -> Seq<WidgetHandle> {
    entries.map_values(|p: (WidgetHandle, NodeId)| p.0)
}

/// The geometry that `tree` holds for `node`: none once the node is gone.
pub open spec fn geometry_of(tree: &LayoutTree, node: NodeId) -> Option<LayoutBox> {
    if tree.live(node) {
        Some(tree.layout_of(node))
    } else {
        None
    }
}

/// Each entry's widget with the geometry of its node.
pub open spec fn with_geometry(tree: &LayoutTree, entries: Seq<(WidgetHandle, NodeId)>) -> Seq<(WidgetHandle, Option<LayoutBox>)> {
    entries.map_values(|p: (WidgetHandle, NodeId)| (p.0, geometry_of(tree, p.1)))
}

proof fn lemma_tree_order_all_step(children: Seq<AnyShadow>, k: int)
    requires
        0 <= k < children.len(),
    ensures
        tree_order_all(children.take(k + 1)) == tree_order_all(children.take(k)) + tree_order(children[k].shadow, children[k].node),
        teardown_order_all(children.take(k + 1)) == teardown_order_all(children.take(k)) + teardown_order(children[k].shadow, children[k].node),
{
    assert(children.take(k + 1).drop_last() =~= children.take(k));
}

fn walk_geometry(tree: &LayoutTree, shadow: &ErasedShadow, node: NodeId, out: &mut Vec<(WidgetHandle, Option<LayoutBox>)>)
    ensures
        final(out)@ == old(out)@ + with_geometry(tree, tree_order(*shadow, node)),
    decreases shadow,
{
    let here = (shadow.widget(), match tree.layout(node) {
        Ok(b) => Some(b),
        Err(_) => None,
    });
    out.push(here);
    let ghost mid = out@;
    match shadow {
        ErasedShadow::Group(g) => {
            let mut k: usize = 0;
            while k < g.children.len()
                invariant
                    k <= g.children@.len(),
                    out@ == mid + with_geometry(tree, tree_order_all(g.children@.take(k as int))),
                    *shadow == ErasedShadow::Group(*g),
                decreases g.children@.len() - k,
            {
                proof {
                    lemma_tree_order_all_step(g.children@, k as int);
                    assert(decreases_to!(g.children => g.children[k as int]));
                    assert(decreases_to!(*shadow => (*shadow)->Group_0));
                    assert(decreases_to!((*shadow)->Group_0 => (*shadow)->Group_0.children));
                }
                walk_geometry(tree, &g.children[k].shadow, g.children[k].node, out);
                proof {
                    let a = tree_order_all(g.children@.take(k as int));
                    let b = tree_order(g.children@[k as int].shadow, g.children@[k as int].node);
                    assert(with_geometry(tree, a + b) =~= with_geometry(tree, a) + with_geometry(tree, b));
                }
                k += 1;
            }
            proof {
                assert(g.children@.take(k as int) =~= g.children@);
                let a = seq![(g.group, node)];
                let b = tree_order_all(g.children@);
                assert(with_geometry(tree, a + b) =~= with_geometry(tree, a) + with_geometry(tree, b));
            }
        },
        ErasedShadow::Pressable(p) => {
            walk_geometry(tree, &*p.contents, node, out);
            proof {
                let a = seq![(p.pressable, node)];
                let b = tree_order(*p.contents, node);
                assert(with_geometry(tree, a + b) =~= with_geometry(tree, a) + with_geometry(tree, b));
            }
        },
        _ => {
            proof {
                assert(with_geometry(tree, tree_order(*shadow, node)) =~= seq![here]);
            }
        },
    }
}

/// The geometry of every element of the subtree of `element`, in tree
/// order: each element's native widget with the box that the last layout
/// pass left on its layout node (none if that node is gone). The platform
/// sizes and places each widget from it.
pub fn subtree_geometry(tree: &LayoutTree, element: &AnyShadow) -> (r: Vec<(WidgetHandle, Option<LayoutBox>)>)
    ensures
        r@ == with_geometry(tree, tree_order(element.shadow, element.node)),
{
    let mut out: Vec<(WidgetHandle, Option<LayoutBox>)> = Vec::new();
    walk_geometry(tree, &element.shadow, element.node, &mut out);
    proof {
        assert(out@ =~= with_geometry(tree, tree_order(element.shadow, element.node)));
    }
    out
}

/// The nodes of `entries` are all gone from `tree`.
pub open spec fn all_removed(tree: &LayoutTree, entries: Seq<(WidgetHandle, NodeId)>) -> bool {
    forall|i: int| 0 <= i < entries.len() ==> !tree.live(#[trigger] entries[i].1)
}

fn teardown_walk(tree: &mut LayoutTree, shadow: ErasedShadow, node: NodeId, released: &mut Vec<WidgetHandle>)
    requires
        old(tree).wf(),
    ensures
        final(tree).wf(),
        forall|n: NodeId| final(tree).live(n) ==> old(tree).live(n),
        final(tree).nodes@.len() == old(tree).nodes@.len(),
        final(released)@ == old(released)@ + widgets_of(teardown_order(shadow, node)),
        all_removed(final(tree), teardown_order(shadow, node)),
    decreases shadow,
{
    let widget = shadow.widget();
    let ghost whole = shadow;
    let ghost start = released@;
    match shadow {
        ErasedShadow::Group(g) => {
            let ghost gg = g;
            let ghost orig = g.children@;
            let mut children = g.children;
            let total = children.len();
            assert(orig.len() == total);
            let mut k: usize = 0;
            while children.len() > 0
                invariant
                    tree.wf(),
                    forall|n: NodeId| tree.live(n) ==> old(tree).live(n),
                    tree.nodes@.len() == old(tree).nodes@.len(),
                    k <= orig.len(),
                    orig.len() <= usize::MAX,
                    children@ == orig.subrange(k as int, orig.len() as int),
                    released@ == start + widgets_of(teardown_order_all(orig.take(k as int))),
                    all_removed(tree, teardown_order_all(orig.take(k as int))),
                    whole == ErasedShadow::Group(gg),
                    whole == shadow,
                    gg.children@ == orig,
                decreases children@.len(),
            {
                let child = children.remove(0);
                proof {
                    assert(child == orig[k as int]);
                    lemma_tree_order_all_step(orig, k as int);
                    assert(decreases_to!(gg.children => gg.children[k as int]));
                    assert(decreases_to!(whole => whole->Group_0));
                    assert(decreases_to!(whole->Group_0 => whole->Group_0.children));
                }
                let ghost t0 = *tree;
                let ghost r0 = released@;
                teardown_walk(tree, child.shadow, child.node, released);
                proof {
                    let a = teardown_order_all(orig.take(k as int));
                    let b = teardown_order(child.shadow, child.node);
                    assert(widgets_of(a + b) =~= widgets_of(a) + widgets_of(b));
                    assert forall|i: int| 0 <= i < (a + b).len() implies !tree.live(#[trigger] (a + b)[i].1) by {
                        if i < a.len() {
                            assert((a + b)[i] == a[i]);
                            assert(!t0.live(a[i].1));
                        } else {
                            assert((a + b)[i] == b[i - a.len()]);
                        }
                    }
                    assert(children@ =~= orig.subrange(k as int + 1, orig.len() as int));
                }
                k += 1;
            }
            proof {
                assert(orig.take(k as int) =~= orig);
            }
        },
        ErasedShadow::Pressable(p) => {
            teardown_walk(tree, *p.contents, node, released);
        },
        _ => {
            proof {
                assert(released@ =~= start + widgets_of(Seq::<(WidgetHandle, NodeId)>::empty()));
            }
        },
    }
    let ghost mid = released@;
    let ghost t1 = *tree;
    released.push(widget);
    let _ = tree.remove(node);
    proof {
        let before = match whole {
            ErasedShadow::Group(g) => teardown_order_all(g.children@),
            ErasedShadow::Pressable(p) => teardown_order(*p.contents, node),
            _ => Seq::<(WidgetHandle, NodeId)>::empty(),
        };
        let all = teardown_order(whole, node);
        assert(all =~= before + seq![(widget, node)]);
        assert(widgets_of(all) =~= widgets_of(before) + seq![widget]);
        assert forall|i: int| 0 <= i < all.len() implies !tree.live(#[trigger] all[i].1) by {
            if i < before.len() {
                assert(all[i] == before[i]);
                assert(!t1.live(before[i].1));
            }
        }
    }
}

/// Tears down `element` and everything under it: every element after all of
/// its children, and each native widget before the layout node it sits in.
/// The native widgets to release are appended to `released` in that order,
/// exactly the subtree's, and every layout node of the subtree leaves the
/// tree. Nodes that are gone already are passed over.
pub fn teardown(tree: &mut LayoutTree, element: AnyShadow, released: &mut Vec<WidgetHandle>)
    requires
        old(tree).wf(),
    ensures
        final(tree).wf(),
        forall|n: NodeId| final(tree).live(n) ==> old(tree).live(n),
        final(tree).nodes@.len() == old(tree).nodes@.len(),
        final(released)@ == old(released)@ + widgets_of(teardown_order(element.shadow, element.node)),
        all_removed(final(tree), teardown_order(element.shadow, element.node)),
        !final(tree).live(element.node),
{
    let ghost e = element;
    teardown_walk(tree, element.shadow, element.node, released);
    proof {
        let all = teardown_order(e.shadow, e.node);
        assert(all.len() > 0 && all.last().1 == e.node) by {
            reveal_with_fuel(teardown_order, 1);
        }
        assert(!tree.live(all[all.len() - 1].1));
    }
}

} // verus!
