//! The resolved tree: texts, items and containers, with no template left in it.

use vstd::prelude::*;
use std::sync::Arc;
use crate::layout::ContainerLayout;
use crate::vnode::{Item, Text};

verus! {

pub type StaticText<A> = Arc<Text<A>>;

pub type StaticItem<A> = Arc<Item<A>>;

pub type StaticChildren<A> = Vec<StaticNode<A>>;

/// An item with children, in the order in which they were declared.
#[verifier::reject_recursive_types(A)]
pub struct StaticContainer<A> {
    pub item: StaticItem<A>,
    pub children: StaticChildren<A>,
    pub layout: Arc<ContainerLayout>,
}

impl<A> StaticContainer<A> {
    pub fn item(&self) -> (r: &StaticItem<A>)
        ensures
            *r == self.item,
    {
        &self.item
    }

    pub fn children(&self) -> (r: &StaticChildren<A>)
        ensures
            *r == self.children,
    {
        &self.children
    }

    pub fn layout(&self) -> (r: &Arc<ContainerLayout>)
        ensures
            *r == self.layout,
    {
        &self.layout
    }
}

/// A node of the resolved tree.
#[verifier::reject_recursive_types(A)]
pub enum StaticNode<A> {
    Text(StaticText<A>),
    Item(StaticItem<A>),
    Container(StaticContainer<A>),
}

/// A resolved tree as a mathematical value: the same payloads, the children as a sequence.
#[verifier::reject_recursive_types(A)]
pub enum StaticView<A> {
    Text(Text<A>),
    Item(Item<A>),
    Container { item: Item<A>, layout: ContainerLayout, children: Seq<StaticView<A>> },
}

/// The tree that `node` stands for.
pub open spec fn view_of<A>(node: StaticNode<A>) -> StaticView<A>
    decreases node,
{
    match node {
        StaticNode::Text(text) => StaticView::Text(*text),
        StaticNode::Item(item) => StaticView::Item(*item),
        StaticNode::Container(c) => StaticView::Container {
            item: *c.item,
            layout: *c.layout,
            children: Seq::new(
                c.children@.len(),
                |i: int|
                    if 0 <= i < c.children@.len() {
                        view_of(c.children@[i])
                    } else {
                        StaticView::Text(arbitrary())
                    },
            ),
        },
    }
}

impl<A> View for StaticNode<A> {
    type V = StaticView<A>;

    open spec fn view(&self) -> StaticView<A> {
        view_of(*self)
    }
}

/// The views of a list of nodes, one for one.
pub open spec fn views_of<A>(nodes: Seq<StaticNode<A>>) -> Seq<StaticView<A>> {
    Seq::new(nodes.len(), |i: int| nodes[i]@)
}

/// The view of a container holds the views of its children, in their order.
pub proof fn lemma_container_view<A>(node: StaticNode<A>)
    requires
        node is Container,
    ensures
        node@ == (StaticView::Container {
            item: *node->Container_0.item,
            layout: *node->Container_0.layout,
            children: views_of(node->Container_0.children@),
        }),
{
    assert(node@->children =~= views_of(node->Container_0.children@));
}

impl<A> StaticNode<A> {
    pub fn new_text(text: StaticText<A>) -> (r: Self)
        ensures
            r == StaticNode::Text(text),
    {
        StaticNode::Text(text)
    }

    pub fn new_item(item: StaticItem<A>) -> (r: Self)
        ensures
            r == StaticNode::Item(item),
    {
        StaticNode::Item(item)
    }

    pub fn new_container(
        item: StaticItem<A>,
        children: StaticChildren<A>,
        layout: Arc<ContainerLayout>,
    ) -> (r: Self)
        ensures
            r == StaticNode::Container(StaticContainer { item, children, layout }),
            r@ == (StaticView::Container {
                item: *item,
                layout: *layout,
                children: views_of(children@),
            }),
    {
        let r = StaticNode::Container(StaticContainer { item, children, layout });
        proof {
            lemma_container_view(r);
        }
        r
    }
}

} // verus!
