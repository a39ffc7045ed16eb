use vstd::prelude::*;

verus! {

/// Signals that pass down through the whole element tree, addressed to no
/// view in particular.
#[derive(Clone, Copy, Debug, PartialEq, Eq, Structural, Hash)]
pub enum Lifecycle {
    /// An animation frame; nanoseconds since the last one.
    Animate(u64),
    /// A layout pass finished: elements read their new geometry.
    Layout,
}

} // verus!
