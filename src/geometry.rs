use vstd::prelude::*;

verus! {

/// A width and a height in whole pixels.
#[derive(Clone, Copy, Debug, PartialEq, Eq, Structural, Hash)]
pub struct Size {
    pub width: u32,
    pub height: u32,
}

impl Size {
    pub fn new(width: u32, height: u32) -> (r: Size)
        ensures
            r.width == width,
            r.height == height,
    {
        Size { width, height }
    }

    pub fn zero() -> (r: Size)
        ensures
            r.width == 0,
            r.height == 0,
    {
        Size { width: 0, height: 0 }
    }
}

/// How much room a layout pass may use along one axis.
#[derive(Clone, Copy, Debug, PartialEq, Eq, Structural, Hash)]
pub enum AvailableSpace {
    Definite(u32),
    MinContent,
    MaxContent,
}

/// The geometry computed for one layout node: its position relative to its
/// parent, its size, and the size of its content.
#[derive(Clone, Copy, Debug, PartialEq, Eq, Structural, Hash)]
pub struct LayoutBox {
    pub x: i32,
    pub y: i32,
    pub size: Size,
    pub content_size: Size,
}

impl LayoutBox {
    pub fn empty() -> (r: LayoutBox)
        ensures
            r.x == 0,
            r.y == 0,
            r.size == Size::zero_spec(),
            r.content_size == Size::zero_spec(),
    {
        LayoutBox { x: 0, y: 0, size: Size::zero(), content_size: Size::zero() }
    }
}

impl Size {
    pub open spec fn zero_spec() -> Size {
        Size { width: 0, height: 0 }
    }
}

} // verus!
