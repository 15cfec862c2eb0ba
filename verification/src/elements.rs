//! The elements that applications start from.

use vstd::prelude::*;
use crate::layout::{ContainerLayout, Direction};
use crate::vnode::builder::{blank_item, Builder};
use crate::vnode::dynamic_node::DynamicNode;

verus! {

/// A container with the tag `panel`.
pub fn panel<R, M, A>() -> (r: Builder<R, M, A>)
    ensures
        r matches Builder::Container(c) && c.item@ == blank_item::<A>("panel"@) && c.children@
            == Seq::<DynamicNode<R, M, A>>::empty() && c.layout == (ContainerLayout {
            direction: Direction::Row,
            padding: (0usize, 0usize, 0usize, 0usize),
            spacing: (0usize, 0usize),
        }),
{
    Builder::container("panel")
}

/// A container with the tag `button`.
pub fn button<R, M, A>() -> (r: Builder<R, M, A>)
    ensures
        r matches Builder::Container(c) && c.item@ == blank_item::<A>("button"@) && c.children@
            == Seq::<DynamicNode<R, M, A>>::empty() && c.layout == (ContainerLayout {
            direction: Direction::Row,
            padding: (0usize, 0usize, 0usize, 0usize),
            spacing: (0usize, 0usize),
        }),
{
    Builder::container("button")
}

/// A text.
pub fn text<R, M, A>(content: &str) -> (r: Builder<R, M, A>)
    ensures
        r matches Builder::Text(t) && t.content@ == content@ && t.handlers.click is None,
{
    Builder::text(content)
}

} // verus!
