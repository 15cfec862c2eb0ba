//! The node model: what a text and an item hold.

use vstd::prelude::*;
use crate::event::Handlers;
use crate::layout::ItemLayout;

pub mod attributes;
pub mod builder;
pub mod classes;
pub mod dynamic_node;
pub mod format;
pub mod static_node;

pub use self::attributes::Attributes;
pub use self::classes::Classes;
pub use self::dynamic_node::DynamicNode;
pub use self::static_node::StaticNode;

verus! {

pub type TextContent = String;

pub type Name = String;

pub type KeyValue = String;

pub type Key = Option<KeyValue>;

pub type IdValue = String;

pub type Id = Option<IdValue>;

pub type Class = String;

pub type AttrName = String;

pub type AttrValue = String;

/// A run of characters. It has no children and asks for no layout of its own.
#[verifier::reject_recursive_types(A)]
pub struct Text<A> {
    pub content: TextContent,
    pub handlers: Handlers<A>,
}

impl<A> Text<A> {
    pub fn content(&self) -> (r: &str)
        ensures
            r@ == self.content@,
    {
        self.content.as_str()
    }

    pub fn handlers(&self) -> (r: &Handlers<A>)
        ensures
            *r == self.handlers,
    {
        &self.handlers
    }
}

/// What a node with a tag holds, with or without children.
#[verifier::reject_recursive_types(A)]
pub struct Item<A> {
    /// The identity by which siblings refer to this node when they ask for a place.
    pub id: Id,
    /// The tag.
    pub name: Name,
    /// Carried for the host; nothing here reads it.
    pub key: Key,
    pub classes: Classes,
    pub attributes: Attributes,
    pub handlers: Handlers<A>,
    pub layout: ItemLayout,
}

/// What an item holds, as a mathematical value: the strings as sequences of characters,
/// the classes as a set, the attributes as a map.
#[verifier::reject_recursive_types(A)]
pub struct ItemView<A> {
    pub id: Option<Seq<char>>,
    pub name: Seq<char>,
    pub key: Option<Seq<char>>,
    pub classes: Set<Seq<char>>,
    pub attributes: Map<Seq<char>, Seq<char>>,
    pub handlers: Handlers<A>,
    pub layout: ItemLayout,
}

impl<A> View for Item<A> {
    type V = ItemView<A>;

    open spec fn view(&self) -> ItemView<A> {
        ItemView {
            id: match self.id {
                Some(id) => Some(id@),
                None => None,
            },
            name: self.name@,
            key: match self.key {
                Some(key) => Some(key@),
                None => None,
            },
            classes: self.classes@,
            attributes: self.attributes@,
            handlers: self.handlers,
            layout: self.layout,
        }
    }
}

impl<A> Item<A> {
    pub fn id(&self) -> (r: Option<&str>)
        ensures
            match r {
                Some(s) => self.id is Some && s@ == self.id->0@,
                None => self.id is None,
            },
    {
        match &self.id {
            Some(id) => Some(id.as_str()),
            None => None,
        }
    }

    pub fn has_id(&self) -> (r: bool)
        ensures
            r == self.id is Some,
    {
        match self.id {
            Some(_) => true,
            None => false,
        }
    }

    pub fn name(&self) -> (r: &str)
        ensures
            r@ == self.name@,
    {
        self.name.as_str()
    }

    pub fn key(&self) -> (r: Option<&str>)
        ensures
            match r {
                Some(s) => self.key is Some && s@ == self.key->0@,
                None => self.key is None,
            },
    {
        match &self.key {
            Some(key) => Some(key.as_str()),
            None => None,
        }
    }

    pub fn has_key(&self) -> (r: bool)
        ensures
            r == self.key is Some,
    {
        match self.key {
            Some(_) => true,
            None => false,
        }
    }

    pub fn classes(&self) -> (r: &Classes)
        ensures
            *r == self.classes,
    {
        &self.classes
    }

    pub fn has_class(&self, class: &str) -> (r: bool)
        ensures
            r == self.classes@.contains(class@),
    {
        self.classes.contains(class)
    }

    pub fn attributes(&self) -> (r: &Attributes)
        ensures
            *r == self.attributes,
    {
        &self.attributes
    }

    pub fn has_attr(&self, name: &str) -> (r: bool)
        ensures
            r == self.attributes@.contains_key(name@),
    {
        self.attributes.contains_key(name)
    }

    pub fn attr(&self, name: &str) -> (r: Option<&str>)
        ensures
            match r {
                Some(v) => self.attributes@.contains_key(name@) && v@ == self.attributes@[name@],
                None => !self.attributes@.contains_key(name@),
            },
    {
        self.attributes.get(name)
    }

    pub fn handlers(&self) -> (r: &Handlers<A>)
        ensures
            *r == self.handlers,
    {
        &self.handlers
    }
}

} // verus!
