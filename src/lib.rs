//! A retained-mode UI core: a retained layout tree with dirty tracking, the
//! context threaded through every operation, a type-erased element tree, a
//! sequence reconciler, and the window and pressable state machines, all
//! stated over integer pixels.
//!
//! The platform (native widgets, the flexbox computation, the event loop)
//! stays outside: the library tells it what to do through returned commands
//! and edits, and takes what it computed as arguments.

pub mod app;
pub mod context;
pub mod flex;
pub mod geometry;
pub mod group;
pub mod layout;
pub mod lifecycle;
pub mod message;
pub mod pressable;
pub mod reconcile;
pub mod shadow;
pub mod style;
pub mod text;
pub mod window;

pub use app::{App, RunError};
pub use context::{Context, Controllers, Posted, ViewId, ViewIds, WindowMessage};
pub use flex::{Flex, flex_column, flex_row};
pub use geometry::{AvailableSpace, LayoutBox, Size};
pub use group::{Applied, GroupEdit, GroupGeometry};
pub use layout::{LayoutError, LayoutNode, LayoutTree, LeafId, NodeId, SpaceRequest};
pub use lifecycle::Lifecycle;
pub use message::{Action, Message, Payload, Registry};
pub use pressable::{
    Callback, Press, PressDispatch, PressOutcome, PressState, PressableMessage, PressableState,
    build_pressable,
};
pub use reconcile::{Edit, diff};
pub use shadow::{
    AnyShadow, ErasedShadow, GroupShadow, ImageShadow, NativeWidget, Pod, PressableShadow, Shadow,
    ShadowKind, TextShadow, WidgetHandle, subtree_geometry, teardown,
};
pub use style::{
    Align, Dimension, Dimensions, FlexContainer, FlexDirection, FlexItem, Justify, Layout, Style,
    percent,
};
pub use text::{FontAttributes, FontStretch, FontWeight, TextSpan, build_text};
pub use window::{LayoutEngine, Route, Window, WindowCommand, WindowResponse, WindowState, window};
