use vstd::prelude::*;

use crate::context::Context;
use crate::layout::LeafId;
use crate::shadow::{Pod, TextShadow, WidgetHandle};
use crate::style::Style;

verus! {

/// The weight of a font, from 1 (thinnest) to 1000 (heaviest).
#[derive(Clone, Copy, Debug, PartialEq, Eq, Structural, PartialOrd, Ord, Hash)]
pub struct FontWeight(pub u16);

impl FontWeight {
    pub fn thin() -> (r: FontWeight)
        ensures
            r.0 == 100,
    {
        FontWeight(100)
    }

    pub fn extra_light() -> (r: FontWeight)
        ensures
            r.0 == 200,
    {
        FontWeight(200)
    }

    pub fn light() -> (r: FontWeight)
        ensures
            r.0 == 300,
    {
        FontWeight(300)
    }

    pub fn normal() -> (r: FontWeight)
        ensures
            r.0 == 400,
    {
        FontWeight(400)
    }

    pub fn medium() -> (r: FontWeight)
        ensures
            r.0 == 500,
    {
        FontWeight(500)
    }

    pub fn semi_bold() -> (r: FontWeight)
        ensures
            r.0 == 600,
    {
        FontWeight(600)
    }

    pub fn bold() -> (r: FontWeight)
        ensures
            r.0 == 700,
    {
        FontWeight(700)
    }

    pub fn extra_bold() -> (r: FontWeight)
        ensures
            r.0 == 800,
    {
        FontWeight(800)
    }

    pub fn heavy() -> (r: FontWeight)
        ensures
            r.0 == 900,
    {
        FontWeight(900)
    }
}

/// How wide the glyphs of a font are drawn.
#[derive(Clone, Copy, Debug, PartialEq, Eq, Structural, PartialOrd, Ord, Hash)]
pub enum FontStretch {
    UltraCondensed,
    ExtraCondensed,
    Condensed,
    SemiCondensed,
    Normal,
    SemiExpanded,
    Expanded,
    ExtraExpanded,
    UntraExpanded,
}

/// How a run of text is set.
pub struct FontAttributes {
    /// The font size, in whole pixels.
    pub size: u32,
    pub family: String,
    pub weight: FontWeight,
    pub stretch: FontStretch,
    pub italic: bool,
}

/// A run of text, the characters `start..end`, set with `attributes`.
pub struct TextSpan {
    pub attributes: FontAttributes,
    pub start: usize,
    pub end: usize,
}

impl TextSpan {
    /// One span over the whole of a text of `len` characters.
    pub fn whole(attributes: FontAttributes, len: usize) -> (r: TextSpan)
        ensures
            r.start == 0,
            r.end == len,
            r.attributes == attributes,
    {
        TextSpan { attributes, start: 0, end: len }
    }
}

/// Builds the element of a text view around the native text `text`, whose
/// intrinsic size the measurement leaf `leaf` reports: a fresh leaf node with
/// the default style.
pub fn build_text<R>(cx: &mut Context<R>, text: WidgetHandle, leaf: LeafId) -> (r: Pod<TextShadow>)
    requires
        old(cx).wf(),
        old(cx).tree.nodes@.len() < usize::MAX,
    ensures
        final(cx).wf(),
        r.shadow.text == text,
        !old(cx).tree.live(r.node),
        final(cx).tree.live(r.node),
        final(cx).tree.style_of(r.node) == Style::default_spec(),
        final(cx).tree.children_of(r.node).len() == 0,
        final(cx).tree.leaf_of(r.node) == Some(leaf),
        final(cx).tree.others_unchanged(&old(cx).tree, r.node),
        final(cx).outbox@ == old(cx).outbox@ + Context::<R>::relayout_posts(old(cx).layout_controller),
{
    let node = cx.new_layout_leaf(Style::new(), leaf);
    Pod { node, shadow: TextShadow::new(text) }
}

} // verus!
