//! Building a declarative tree by chained calls.
//!
//! A call that does not fit the kind of node under construction does not abort: the builder
//! turns into `Builder::Failed`, stays so through the rest of the chain, and `done` returns
//! the error.

use vstd::prelude::*;
use vstd::string::*;
use std::sync::Arc;
use crate::event::{ClickHandler, Handlers};
use crate::layout::{Align, ContainerLayout, Direction, ItemLayout, Offset, Position, Size};
use crate::template::Template;
use crate::vnode::{Attributes, Classes, Item, ItemView, Text};
use crate::vnode::dynamic_node::{DynamicChildren, DynamicContainer, DynamicNode, DynamicTemplate};
use crate::words::{split_words, words};

verus! {

/// A container under construction.
#[verifier::reject_recursive_types(A)]
pub struct BuilderContainer<R, M, A> {
    pub item: Item<A>,
    pub children: DynamicChildren<R, M, A>,
    pub layout: ContainerLayout,
}

/// A use of a template under construction.
pub struct BuilderTemplate<R, M> {
    pub message: Option<M>,
    pub template: Arc<Template<R>>,
}

/// A call that the node under construction does not take.
#[derive(Clone, Copy, Debug, PartialEq, Eq)]
pub enum BuildError {
    /// A text was given an identity, a key, a class, an attribute or a layout.
    TextHasNoItemProperties,
    /// A template was given an identity, a key, a class, an attribute or a layout.
    TemplateHasNoItemProperties,
    /// A message was given to something that is no template.
    OnlyTemplateHasMessage,
    /// A template was given a handler.
    TemplateHasNoHandlers,
    /// A child, or a layout for children, was given to something that is no container.
    OnlyContainerHasChildren,
}

impl BuildError {
    /// The error in words.
    pub fn message(&self) -> (r: String)
        ensures
            r@ == match self {
                BuildError::TextHasNoItemProperties => "Text builder nodes do not have item properties"@,
                BuildError::TemplateHasNoItemProperties => "Template builder nodes do not have item properties"@,
                BuildError::OnlyTemplateHasMessage => "Only Template can have message."@,
                BuildError::TemplateHasNoHandlers => "Template nodes do not have handlers"@,
                BuildError::OnlyContainerHasChildren => "Only Container can have children."@,
            },
    {
        match self {
            BuildError::TextHasNoItemProperties => String::from_str(
                "Text builder nodes do not have item properties",
            ),
            BuildError::TemplateHasNoItemProperties => String::from_str(
                "Template builder nodes do not have item properties",
            ),
            BuildError::OnlyTemplateHasMessage => String::from_str("Only Template can have message."),
            BuildError::TemplateHasNoHandlers => String::from_str(
                "Template nodes do not have handlers",
            ),
            BuildError::OnlyContainerHasChildren => String::from_str(
                "Only Container can have children.",
            ),
        }
    }
}

/// A node under construction.
#[verifier::reject_recursive_types(A)]
pub enum Builder<R, M, A> {
    Text(Text<A>),
    Item(Item<A>),
    Container(BuilderContainer<R, M, A>),
    Template(BuilderTemplate<R, M>),
    /// An earlier call did not fit the node; the first such error is kept.
    Failed(BuildError),
}

/// An item with this name and nothing else: no identity, key, class, attribute or handler,
/// and the default layout.
pub open spec fn blank_item<A>(name: Seq<char>) -> ItemView<A> {
    ItemView {
        id: None,
        name,
        key: None,
        classes: Set::empty(),
        attributes: Map::empty(),
        handlers: Handlers { click: None },
        layout: ItemLayout {
            position: Position::Auto,
            align: Align::Start,
            offset: Offset::Zero,
            size: Size::Fill,
        },
    }
}

impl<R, M, A> Builder<R, M, A> {
    /// The error with which this builder answers a call that sets a property of an item.
    pub open spec fn refuses_property(self) -> Option<BuildError> {
        match self {
            Builder::Container(_) | Builder::Item(_) => None,
            Builder::Text(_) => Some(BuildError::TextHasNoItemProperties),
            Builder::Template(_) => Some(BuildError::TemplateHasNoItemProperties),
            Builder::Failed(e) => Some(e),
        }
    }

    /// The item of a builder that has one.
    pub open spec fn item_view(self) -> ItemView<A> {
        match self {
            Builder::Container(c) => c.item@,
            Builder::Item(item) => item@,
            _ => arbitrary(),
        }
    }

    /// Whether `r` is this builder with `item` in place of its item and nothing else changed.
    pub open spec fn becomes(self, r: Self, item: ItemView<A>) -> bool {
        match self {
            Builder::Container(c) => r matches Builder::Container(d) && d.item@ == item
                && d.children == c.children && d.layout == c.layout,
            Builder::Item(_) => r matches Builder::Item(j) && j@ == item,
            _ => false,
        }
    }

    /// Whether `r` is what a call that sets a property of the item leaves of this builder:
    /// the builder with `item` for its item, or the failure where it has no item.
    pub open spec fn sets_property(self, r: Self, item: ItemView<A>) -> bool {
        match self.refuses_property() {
            Some(e) => r == Builder::<R, M, A>::Failed(e),
            None => self.becomes(r, item),
        }
    }

    /// The node that `done` makes of this builder.
    pub open spec fn finished(self) -> Result<DynamicNode<R, M, A>, BuildError> {
        match self {
            Builder::Text(text) => Ok(DynamicNode::Text(Arc::new(text))),
            Builder::Item(item) => Ok(DynamicNode::Item(Arc::new(item))),
            Builder::Container(c) => Ok(
                DynamicNode::Container(
                    DynamicContainer {
                        item: Arc::new(c.item),
                        children: c.children,
                        layout: Arc::new(c.layout),
                    },
                ),
            ),
            Builder::Template(t) => Ok(
                DynamicNode::Template(DynamicTemplate { template: t.template, message: t.message }),
            ),
            Builder::Failed(e) => Err(e),
        }
    }

    //
    // # Constructors
    //
    /// A text with this content and no handler.
    pub fn text(content: &str) -> (r: Self)
        ensures
            r matches Builder::Text(t) && t.content@ == content@ && t.handlers.click is None,
    {
        Builder::Text(Text { content: String::from_str(content), handlers: Handlers::new() })
    }

    /// A blank item with this tag.
    pub fn item(name: &str) -> (r: Self)
        ensures
            r matches Builder::Item(item) && item@ == blank_item::<A>(name@),
    {
        Builder::Item(Self::blank(name))
    }

    /// A container with this tag and no children, which lays them out in a row.
    pub fn container(name: &str) -> (r: Self)
        ensures
            r matches Builder::Container(c) && c.item@ == blank_item::<A>(name@) && c.children@
                == Seq::<DynamicNode<R, M, A>>::empty() && c.layout == (ContainerLayout {
                direction: Direction::Row,
                padding: (0usize, 0usize, 0usize, 0usize),
                spacing: (0usize, 0usize),
            }),
    {
        Builder::Container(
            BuilderContainer {
                item: Self::blank(name),
                children: Vec::new(),
                layout: ContainerLayout {
                    direction: Direction::Row,
                    padding: (0, 0, 0, 0),
                    spacing: (0, 0),
                },
            },
        )
    }

    fn blank(name: &str) -> (r: Item<A>)
        ensures
            r@ == blank_item::<A>(name@),
    {
        Item {
            id: None,
            name: String::from_str(name),
            key: None,
            classes: Classes::new(),
            attributes: Attributes::new(),
            handlers: Handlers::new(),
            layout: ItemLayout {
                position: Position::Auto,
                align: Align::Start,
                offset: Offset::Zero,
                size: Size::Fill,
            },
        }
    }

    //
    // # Properties
    //
    /// Sets the identity of a container or an item.
    pub fn id(self, id: &str) -> (r: Self)
        ensures
            self.sets_property(r, ItemView { id: Some(id@), ..self.item_view() }),
    {
        match self {
            Builder::Container(c) => {
                let BuilderContainer { item, children, layout } = c;
                let mut item = item;
                item.id = Some(String::from_str(id));
                Builder::Container(BuilderContainer { item, children, layout })
            },
            Builder::Item(item) => {
                let mut item = item;
                item.id = Some(String::from_str(id));
                Builder::Item(item)
            },
            Builder::Text(_) => Builder::Failed(BuildError::TextHasNoItemProperties),
            Builder::Template(_) => Builder::Failed(BuildError::TemplateHasNoItemProperties),
            Builder::Failed(e) => Builder::Failed(e),
        }
    }

    /// Sets the key of a container or an item.
    pub fn key(self, key: &str) -> (r: Self)
        ensures
            self.sets_property(r, ItemView { key: Some(key@), ..self.item_view() }),
    {
        match self {
            Builder::Container(c) => {
                let BuilderContainer { item, children, layout } = c;
                let mut item = item;
                item.key = Some(String::from_str(key));
                Builder::Container(BuilderContainer { item, children, layout })
            },
            Builder::Item(item) => {
                let mut item = item;
                item.key = Some(String::from_str(key));
                Builder::Item(item)
            },
            Builder::Text(_) => Builder::Failed(BuildError::TextHasNoItemProperties),
            Builder::Template(_) => Builder::Failed(BuildError::TemplateHasNoItemProperties),
            Builder::Failed(e) => Builder::Failed(e),
        }
    }

    /// Adds one class to a container or an item.
    pub fn class(self, class: &str) -> (r: Self)
        ensures
            self.sets_property(
                r,
                ItemView { classes: self.item_view().classes.insert(class@), ..self.item_view() },
            ),
    {
        match self {
            Builder::Container(c) => {
                let BuilderContainer { item, children, layout } = c;
                let mut item = item;
                item.classes.insert(String::from_str(class));
                Builder::Container(BuilderContainer { item, children, layout })
            },
            Builder::Item(item) => {
                let mut item = item;
                item.classes.insert(String::from_str(class));
                Builder::Item(item)
            },
            Builder::Text(_) => Builder::Failed(BuildError::TextHasNoItemProperties),
            Builder::Template(_) => Builder::Failed(BuildError::TemplateHasNoItemProperties),
            Builder::Failed(e) => Builder::Failed(e),
        }
    }

    /// Adds each word of `classes` as a class of a container or an item. A text or a template
    /// takes no classes, whatever the string holds, not even one without a word in it.
    pub fn classes(self, classes: &str) -> (r: Self)
        ensures
            self.sets_property(
                r,
                ItemView {
                    classes: self.item_view().classes.union(words(classes@).to_set()),
                    ..self.item_view()
                },
            ),
    {
        let list = split_words(classes);
        let ghost all = words(classes@);
        let mut current = match self {
            Builder::Text(_) => Builder::Failed(BuildError::TextHasNoItemProperties),
            Builder::Template(_) => Builder::Failed(BuildError::TemplateHasNoItemProperties),
            other => other,
        };
        let mut i: usize = 0;
        proof {
            assert(all.take(0).to_set() =~= Set::<Seq<char>>::empty());
            assert(self.item_view().classes.union(Set::<Seq<char>>::empty())
                =~= self.item_view().classes);
        }
        while i < list.len()
            invariant
                i <= list@.len(),
                list@.map_values(|w: String| w@) == all,
                self.sets_property(
                    current,
                    ItemView {
                        classes: self.item_view().classes.union(all.take(i as int).to_set()),
                        ..self.item_view()
                    },
                ),
            decreases list@.len() - i,
        {
            let ghost before = current;
            current = current.class(list[i].as_str());
            proof {
                let word = all[i as int];
                assert(list@[i as int]@ == word);
                assert(all.take(i + 1) =~= all.take(i as int).push(word));
                assert(all.take(i as int).push(word).to_set() =~= all.take(i as int).to_set().insert(
                    word,
                )) by {
                    crate::vnode::classes::lemma_insert_to_set(
                        all.take(i as int),
                        i as int,
                        word,
                    );
                    assert(all.take(i as int).insert(i as int, word) =~= all.take(i as int).push(
                        word,
                    ));
                }
                assert(self.item_view().classes.union(all.take(i as int).to_set()).insert(word)
                    =~= self.item_view().classes.union(all.take(i + 1).to_set()));
                let was = ItemView {
                    classes: self.item_view().classes.union(all.take(i as int).to_set()),
                    ..self.item_view()
                };
                let now = ItemView {
                    classes: self.item_view().classes.union(all.take(i + 1).to_set()),
                    ..self.item_view()
                };
                if self.refuses_property() is None {
                    assert(before.item_view() == was);
                    assert(before.refuses_property() is None);
                    assert(before.becomes(current, now));
                    assert(self.becomes(current, now));
                }
            }
            i += 1;
        }
        proof {
            assert(all.take(all.len() as int) =~= all);
        }
        current
    }

    /// Binds an attribute of a container or an item.
    pub fn attr(self, name: &str, value: &str) -> (r: Self)
        ensures
            self.sets_property(
                r,
                ItemView {
                    attributes: self.item_view().attributes.insert(name@, value@),
                    ..self.item_view()
                },
            ),
    {
        match self {
            Builder::Container(c) => {
                let BuilderContainer { item, children, layout } = c;
                let mut item = item;
                item.attributes.insert(String::from_str(name), String::from_str(value));
                Builder::Container(BuilderContainer { item, children, layout })
            },
            Builder::Item(item) => {
                let mut item = item;
                item.attributes.insert(String::from_str(name), String::from_str(value));
                Builder::Item(item)
            },
            Builder::Text(_) => Builder::Failed(BuildError::TextHasNoItemProperties),
            Builder::Template(_) => Builder::Failed(BuildError::TemplateHasNoItemProperties),
            Builder::Failed(e) => Builder::Failed(e),
        }
    }

    /// Sets what a container or an item asks of the container that places it.
    pub fn layout(self, layout: ItemLayout) -> (r: Self)
        ensures
            self.sets_property(r, ItemView { layout, ..self.item_view() }),
    {
        match self {
            Builder::Container(c) => {
                let BuilderContainer { item, children, layout: inner } = c;
                let mut item = item;
                item.layout = layout;
                Builder::Container(BuilderContainer { item, children, layout: inner })
            },
            Builder::Item(item) => {
                let mut item = item;
                item.layout = layout;
                Builder::Item(item)
            },
            Builder::Text(_) => Builder::Failed(BuildError::TextHasNoItemProperties),
            Builder::Template(_) => Builder::Failed(BuildError::TemplateHasNoItemProperties),
            Builder::Failed(e) => Builder::Failed(e),
        }
    }

    /// Sets how a container arranges its children.
    pub fn arrange(self, layout: ContainerLayout) -> (r: Self)
        ensures
            match self {
                Builder::Container(c) => r == Builder::Container(
                    BuilderContainer { item: c.item, children: c.children, layout },
                ),
                Builder::Failed(e) => r == self,
                _ => r == Builder::<R, M, A>::Failed(BuildError::OnlyContainerHasChildren),
            },
    {
        match self {
            Builder::Container(c) => {
                let BuilderContainer { item, children, layout: _ } = c;
                Builder::Container(BuilderContainer { item, children, layout })
            },
            Builder::Failed(e) => Builder::Failed(e),
            _ => Builder::Failed(BuildError::OnlyContainerHasChildren),
        }
    }

    /// Sets the message that a template is handed on every evaluation.
    pub fn message(self, message: M) -> (r: Self)
        ensures
            match self {
                Builder::Template(t) => r == Builder::<R, M, A>::Template(
                    BuilderTemplate { message: Some(message), template: t.template },
                ),
                Builder::Failed(e) => r == self,
                _ => r == Builder::<R, M, A>::Failed(BuildError::OnlyTemplateHasMessage),
            },
    {
        match self {
            Builder::Template(t) => {
                let BuilderTemplate { message: _, template } = t;
                Builder::Template(BuilderTemplate { message: Some(message), template })
            },
            Builder::Failed(e) => Builder::Failed(e),
            _ => Builder::Failed(BuildError::OnlyTemplateHasMessage),
        }
    }

    /// Sets the click handler of a container, an item or a text.
    pub fn on_click<H>(self, handler: H) -> (r: Self) where H: ClickHandler<A> + 'static
        ensures
            match self {
                Builder::Container(c) => r matches Builder::Container(d) && d.item@ == (ItemView {
                    handlers: d.item.handlers,
                    ..c.item@
                }) && d.item.handlers.holds_click(handler) && d.children == c.children && d.layout
                    == c.layout,
                Builder::Item(i) => r matches Builder::Item(j) && j@ == (ItemView {
                    handlers: j.handlers,
                    ..i@
                }) && j.handlers.holds_click(handler),
                Builder::Text(t) => r matches Builder::Text(u) && u.content == t.content
                    && u.handlers.holds_click(handler),
                Builder::Template(_) => r == Builder::<R, M, A>::Failed(
                    BuildError::TemplateHasNoHandlers,
                ),
                Builder::Failed(e) => r == self,
            },
    {
        match self {
            Builder::Container(c) => {
                let BuilderContainer { item, children, layout } = c;
                let mut item = item;
                item.handlers.click(handler);
                Builder::Container(BuilderContainer { item, children, layout })
            },
            Builder::Item(item) => {
                let mut item = item;
                item.handlers.click(handler);
                Builder::Item(item)
            },
            Builder::Text(text) => {
                let mut text = text;
                text.handlers.click(handler);
                Builder::Text(text)
            },
            Builder::Template(_) => Builder::Failed(BuildError::TemplateHasNoHandlers),
            Builder::Failed(e) => Builder::Failed(e),
        }
    }

    /// Finishes `child` and appends it to the children of a container. A failed child makes
    /// the container fail with the child's error.
    pub fn child(self, child: Builder<R, M, A>) -> (r: Self)
        ensures
            match self {
                Builder::Container(c) => match child.finished() {
                    Ok(node) => r matches Builder::Container(d) && d.item == c.item && d.layout
                        == c.layout && d.children@ == c.children@.push(node),
                    Err(e) => r == Builder::<R, M, A>::Failed(e),
                },
                Builder::Failed(e) => r == self,
                _ => r == Builder::<R, M, A>::Failed(BuildError::OnlyContainerHasChildren),
            },
    {
        match self {
            Builder::Container(c) => {
                let BuilderContainer { item, children, layout } = c;
                match child.done() {
                    Ok(node) => {
                        let mut children = children;
                        children.push(node);
                        Builder::Container(BuilderContainer { item, children, layout })
                    },
                    Err(e) => Builder::Failed(e),
                }
            },
            Builder::Failed(e) => Builder::Failed(e),
            _ => Builder::Failed(BuildError::OnlyContainerHasChildren),
        }
    }

    //
    // # Converters
    //
    /// The declarative node, or the first call of the chain that did not fit.
    pub fn done(self) -> (r: Result<DynamicNode<R, M, A>, BuildError>)
        ensures
            r == self.finished(),
    {
        match self {
            Builder::Text(text) => Ok(DynamicNode::new_text(text)),
            Builder::Item(item) => Ok(DynamicNode::new_item(item)),
            Builder::Container(c) => {
                let BuilderContainer { item, children, layout } = c;
                Ok(DynamicNode::new_container(item, children, layout))
            },
            Builder::Template(t) => {
                let BuilderTemplate { template, message } = t;
                Ok(DynamicNode::new_template(template, message))
            },
            Builder::Failed(e) => Err(e),
        }
    }
}

impl<R, M, A> From<Arc<Template<R>>> for Builder<R, M, A> {
    fn from(template: Arc<Template<R>>) -> (r: Self) {
        Builder::Template(BuilderTemplate { template, message: None })
    }
}

impl<R, M, A> vstd::std_specs::convert::FromSpecImpl<Arc<Template<R>>> for Builder<R, M, A> {
    open spec fn obeys_from_spec() -> bool {
        true
    }

    open spec fn from_spec(template: Arc<Template<R>>) -> Self {
        Builder::Template(BuilderTemplate { template, message: None })
    }
}

} // verus!
