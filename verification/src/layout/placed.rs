//! The positioned tree: a resolved tree in which every node has its box.

use vstd::prelude::*;
use std::sync::Arc;
use crate::layout::ContainerLayout;
use crate::layout::geometry::Rect;
use crate::vnode::{Item, Text};
use crate::vnode::static_node::{StaticItem, StaticText, StaticView};

verus! {

/// A container with its box and its positioned children, in declared order.
#[verifier::reject_recursive_types(A)]
pub struct PositionedContainer<A> {
    pub item: StaticItem<A>,
    pub layout: Arc<ContainerLayout>,
    pub bounds: Rect,
    pub children: Vec<PositionedNode<A>>,
}

/// A node of the positioned tree.
#[verifier::reject_recursive_types(A)]
pub enum PositionedNode<A> {
    Text { text: StaticText<A>, bounds: Rect },
    Item { item: StaticItem<A>, bounds: Rect },
    Container(PositionedContainer<A>),
}

/// A positioned tree as a mathematical value.
#[verifier::reject_recursive_types(A)]
pub enum PositionedView<A> {
    Text { text: Text<A>, bounds: Rect },
    Item { item: Item<A>, bounds: Rect },
    Container { item: Item<A>, layout: ContainerLayout, bounds: Rect, children: Seq<PositionedView<A>> },
}

/// The tree that `node` stands for.
pub open spec fn positioned_view_of<A>(node: PositionedNode<A>) -> PositionedView<A>
    decreases node,
{
    match node {
        PositionedNode::Text { text, bounds } => PositionedView::Text { text: *text, bounds },
        PositionedNode::Item { item, bounds } => PositionedView::Item { item: *item, bounds },
        PositionedNode::Container(c) => PositionedView::Container {
            item: *c.item,
            layout: *c.layout,
            bounds: c.bounds,
            children: Seq::new(
                c.children@.len(),
                |i: int|
                    if 0 <= i < c.children@.len() {
                        positioned_view_of(c.children@[i])
                    } else {
                        PositionedView::Text { text: arbitrary(), bounds: arbitrary() }
                    },
            ),
        },
    }
}

impl<A> View for PositionedNode<A> {
    type V = PositionedView<A>;

    open spec fn view(&self) -> PositionedView<A> {
        positioned_view_of(*self)
    }
}

/// The views of a list of positioned nodes, one for one.
pub open spec fn positioned_views_of<A>(nodes: Seq<PositionedNode<A>>) -> Seq<PositionedView<A>> {
    Seq::new(nodes.len(), |i: int| nodes[i]@)
}

/// The view of a positioned container holds the views of its children, in their order.
pub proof fn lemma_positioned_container_view<A>(node: PositionedNode<A>)
    requires
        node is Container,
    ensures
        node@ == (PositionedView::Container {
            item: *node->Container_0.item,
            layout: *node->Container_0.layout,
            bounds: node->Container_0.bounds,
            children: positioned_views_of(node->Container_0.children@),
        }),
{
    let c = node->Container_0;
    assert(node@ is Container);
    assert(node@->children =~= positioned_views_of(c.children@));
}

impl<A> PositionedView<A> {
    /// The box of the node.
    pub open spec fn bounds(self) -> Rect {
        match self {
            PositionedView::Text { bounds, .. } => bounds,
            PositionedView::Item { bounds, .. } => bounds,
            PositionedView::Container { bounds, .. } => bounds,
        }
    }

    /// The tree without its boxes.
    pub open spec fn plain(self) -> StaticView<A>
        decreases self,
    {
        match self {
            PositionedView::Text { text, .. } => StaticView::Text(text),
            PositionedView::Item { item, .. } => StaticView::Item(item),
            PositionedView::Container { item, layout, children, .. } => StaticView::Container {
                item,
                layout,
                children: Seq::new(
                    children.len(),
                    |i: int|
                        if 0 <= i < children.len() {
                            children[i].plain()
                        } else {
                            StaticView::Text(arbitrary())
                        },
                ),
            },
        }
    }
}

impl<A> PositionedNode<A> {
    /// The box of the node.
    pub fn bounds(&self) -> (r: Rect)
        ensures
            r == self@.bounds(),
    {
        match self {
            PositionedNode::Text { bounds, .. } => *bounds,
            PositionedNode::Item { bounds, .. } => *bounds,
            PositionedNode::Container(c) => c.bounds,
        }
    }
}

} // verus!
