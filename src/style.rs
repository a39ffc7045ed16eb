use vstd::prelude::*;

verus! {

/// A length along one axis of a layout style.
#[derive(Clone, Copy, Debug, PartialEq, Eq, Structural, Hash)]
pub enum Dimension {
    /// A fixed number of pixels.
    Length(u32),
    /// A share of the parent's size, in hundredths.
    Percent(u32),
    /// Decided by the layout algorithm.
    Auto,
}

impl Dimension {
    pub fn from_length(length: u32) -> (r: Dimension)
        ensures
            r == Dimension::Length(length),
    {
        Dimension::Length(length)
    }
}

/// A dimension that is the given share of the parent, in hundredths.
pub fn percent(hundredths: u32) -> (r: Dimension)
    ensures
        r == Dimension::Percent(hundredths),
{
    Dimension::Percent(hundredths)
}

/// A width and a height, each a [`Dimension`].
#[derive(Clone, Copy, Debug, PartialEq, Eq, Structural, Hash)]
pub struct Dimensions {
    pub width: Dimension,
    pub height: Dimension,
}

impl Dimensions {
    pub fn auto() -> (r: Dimensions)
        ensures
            r == Dimensions::auto_spec(),
    {
        Dimensions { width: Dimension::Auto, height: Dimension::Auto }
    }

    pub open spec fn auto_spec() -> Dimensions {
        Dimensions { width: Dimension::Auto, height: Dimension::Auto }
    }

    pub fn lengths(width: u32, height: u32) -> (r: Dimensions)
        ensures
            r == Dimensions::lengths_spec(width, height),
    {
        Dimensions { width: Dimension::Length(width), height: Dimension::Length(height) }
    }

    pub open spec fn lengths_spec(width: u32, height: u32) -> Dimensions {
        Dimensions { width: Dimension::Length(width), height: Dimension::Length(height) }
    }
}

/// Cross-axis alignment of the items of a flex container.
#[derive(Clone, Copy, Debug, PartialEq, Eq, Structural, PartialOrd, Ord, Hash)]
pub enum Align {
    Start,
    Center,
    End,
    Baseline,
    Stretch,
    FlexStart,
    FlexEnd,
}

/// Distribution of free space between the lines or items of a flex container.
#[derive(Clone, Copy, Debug, PartialEq, Eq, Structural, PartialOrd, Ord, Hash)]
pub enum Justify {
    Start,
    Center,
    End,
    Stretch,
    SpaceBetween,
    SpaceEvenly,
    SpaceAround,
    FlexStart,
    FlexEnd,
}

/// The main axis of a flex container.
#[derive(Clone, Copy, Debug, PartialEq, Eq, Structural, Hash)]
pub enum FlexDirection {
    Row,
    Column,
}

/// The style record carried by a layout node.
#[derive(Clone, Copy, Debug, PartialEq, Eq, Structural, Hash)]
pub struct Style {
    pub direction: FlexDirection,
    pub size: Dimensions,
    pub min_size: Dimensions,
    pub max_size: Dimensions,
    pub align_items: Option<Align>,
    pub align_content: Option<Justify>,
    pub justify_content: Option<Justify>,
    pub flex_grow: u32,
    pub flex_shrink: u32,
}

impl Style {
    /// The style that a node has unless told otherwise.
    pub open spec fn default_spec() -> Style {
        Style {
            direction: FlexDirection::Row,
            size: Dimensions::auto_spec(),
            min_size: Dimensions::auto_spec(),
            max_size: Dimensions::auto_spec(),
            align_items: None,
            align_content: None,
            justify_content: None,
            flex_grow: 0,
            flex_shrink: 1,
        }
    }

    pub fn new() -> (r: Style)
        ensures
            r == Style::default_spec(),
    {
        Style {
            direction: FlexDirection::Row,
            size: Dimensions::auto(),
            min_size: Dimensions::auto(),
            max_size: Dimensions::auto(),
            align_items: None,
            align_content: None,
            justify_content: None,
            flex_grow: 0,
            flex_shrink: 1,
        }
    }

    /// The default style laid out along `direction`.
    pub fn flex(direction: FlexDirection) -> (r: Style)
        ensures
            r == (Style { direction, ..Style::default_spec() }),
    {
        Style { direction, ..Style::new() }
    }
}

/// Something that carries a layout style and can be restyled by value.
pub trait Layout: Sized {
    spec fn style_view(&self) -> Style;

    fn style(&self) -> (r: Style)
        ensures
            r == self.style_view(),
    ;

    fn with_style(self, style: Style) -> (r: Self)
        ensures
            r.style_view() == style,
    ;

    fn size(self, width: Dimension, height: Dimension) -> (r: Self)
        ensures
            r.style_view() == (Style { size: Dimensions { width, height }, ..self.style_view() }),
    {
        let s = self.style();
        self.with_style(Style { size: Dimensions { width, height }, ..s })
    }

    fn min_size(self, width: Dimension, height: Dimension) -> (r: Self)
        ensures
            r.style_view() == (Style {
                min_size: Dimensions { width, height },
                ..self.style_view()
            }),
    {
        let s = self.style();
        self.with_style(Style { min_size: Dimensions { width, height }, ..s })
    }

    fn max_size(self, width: Dimension, height: Dimension) -> (r: Self)
        ensures
            r.style_view() == (Style {
                max_size: Dimensions { width, height },
                ..self.style_view()
            }),
    {
        let s = self.style();
        self.with_style(Style { max_size: Dimensions { width, height }, ..s })
    }
}

/// A container whose children are placed by the flex algorithm.
pub trait FlexContainer: Layout {
    fn align_items(self, align: Align) -> (r: Self)
        ensures
            r.style_view() == (Style { align_items: Some(align), ..self.style_view() }),
    {
        let s = self.style();
        self.with_style(Style { align_items: Some(align), ..s })
    }

    fn align_contents(self, justify: Justify) -> (r: Self)
        ensures
            r.style_view() == (Style { align_content: Some(justify), ..self.style_view() }),
    {
        let s = self.style();
        self.with_style(Style { align_content: Some(justify), ..s })
    }

    fn justify_contents(self, justify: Justify) -> (r: Self)
        ensures
            r.style_view() == (Style { justify_content: Some(justify), ..self.style_view() }),
    {
        let s = self.style();
        self.with_style(Style { justify_content: Some(justify), ..s })
    }
}

/// An item of a flex container, which may grow and shrink.
pub trait FlexItem: Layout {
    fn flex_grow(self, amount: u32) -> (r: Self)
        ensures
            r.style_view() == (Style { flex_grow: amount, ..self.style_view() }),
    {
        let s = self.style();
        self.with_style(Style { flex_grow: amount, ..s })
    }

    fn flex_shrink(self, amount: u32) -> (r: Self)
        ensures
            r.style_view() == (Style { flex_shrink: amount, ..self.style_view() }),
    {
        let s = self.style();
        self.with_style(Style { flex_shrink: amount, ..s })
    }

    fn flex(self, amount: u32) -> (r: Self)
        ensures
            r.style_view() == (Style {
                flex_grow: amount,
                flex_shrink: amount,
                ..self.style_view()
            }),
    {
        self.flex_grow(amount).flex_shrink(amount)
    }
}

} // verus!
