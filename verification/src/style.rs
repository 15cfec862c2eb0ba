//! Decoration attached to a node. The tree carries it and never reads it.

use vstd::prelude::*;

verus! {

/// Red, green, blue, alpha.
pub type Color = (u8, u8, u8, u8);

/// The border of a box.
pub struct Border {
    pub color: Color,
    pub width: usize,
}

/// The font of a text.
pub struct Font {
    pub name: String,
    pub size: usize,
}

/// The look of a node.
pub struct Style {
    pub color: Color,
    pub text_color: Color,
    pub font: Font,
    pub border: Border,
}

} // verus!
