//! Layout directives: what a node asks of the container that places it.

use vstd::prelude::*;

pub mod engine;
pub mod geometry;
pub mod laws;
pub mod placed;
pub mod rules;

pub use self::engine::{layout, Layout, LayoutError};
pub use self::geometry::Rect;
pub use self::placed::PositionedNode;
pub use self::rules::LayoutFault;

verus! {

/// Where a node goes inside its container.
pub enum Position {
    /// In the container's flow, after the flow children declared before it.
    Auto,
    /// Below the named sibling: this node's top edge on the sibling's bottom edge.
    Top(String),
    /// Above the named sibling: this node's bottom edge on the sibling's top edge.
    Bottom(String),
    /// Right of the named sibling: this node's left edge on the sibling's right edge.
    Left(String),
    /// Left of the named sibling: this node's right edge on the sibling's left edge.
    Right(String),
    /// At this offset from the container's origin, outside the flow.
    Constant(usize, usize),
}

/// How much room a node takes.
#[derive(Clone, Copy)]
pub enum Size {
    /// A share of the space left on the main axis, with weight 1.
    Fill,
    /// A share of the space left on the main axis, with the given weight.
    FillRatio(usize),
    /// The node's own content size.
    Wrap,
    /// This width and height.
    Constant(usize, usize),
    /// This width; the height of the content.
    ConstantWidth(usize),
    /// This height; the width of the content.
    ConstantHeight(usize),
}

/// Where a node that is smaller than its line sits across the flow.
#[derive(Clone, Copy)]
pub enum Align {
    /// At the start of the line, as where nothing is asked.
    Start,
    Center,
    Left,
    Right,
    Top,
    Bottom,
}

/// A shift applied to a node after it was placed.
#[derive(Clone, Copy)]
pub enum Offset {
    /// No shift.
    Zero,
    Up(usize),
    Down(usize),
    Left(usize),
    Right(usize),
}

/// The axis along which a container lays out its flow children.
#[derive(Clone, Copy)]
pub enum Direction {
    /// Left to right; the width is the main axis.
    Row,
    /// Top to bottom; the height is the main axis.
    Column,
}

/// What a container asks for its children.
pub struct ContainerLayout {
    pub direction: Direction,
    /// Top, right, bottom, left.
    pub padding: (usize, usize, usize, usize),
    /// The gap between flow children along the main axis, and across it.
    pub spacing: (usize, usize),
}

impl Default for ContainerLayout {
    fn default() -> (r: ContainerLayout)
        ensures
            r.direction is Row,
            r.padding == (0usize, 0usize, 0usize, 0usize),
            r.spacing == (0usize, 0usize),
    {
        ContainerLayout { direction: Direction::Row, padding: (0, 0, 0, 0), spacing: (0, 0) }
    }
}

/// What a node asks for itself.
pub struct ItemLayout {
    pub position: Position,
    pub align: Align,
    pub offset: Offset,
    pub size: Size,
}

impl Default for ItemLayout {
    fn default() -> (r: ItemLayout)
        ensures
            r.position is Auto,
            r.align is Start,
            r.offset is Zero,
            r.size is Fill,
    {
        ItemLayout {
            position: Position::Auto,
            align: Align::Start,
            offset: Offset::Zero,
            size: Size::Fill,
        }
    }
}

} // verus!
