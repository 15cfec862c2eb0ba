//! Input events and the handlers a node carries for them.

use vstd::prelude::*;

verus! {

/// A click delivered to a node.
pub struct ClickEvent {}

/// What a node does with a click: it turns the event into an action of type `A`.
///
/// Closures `Fn(ClickEvent) -> A` are handlers.
pub trait ClickHandler<A> {
    /// The events this handler may be called with.
    spec fn accepts(&self, event: ClickEvent) -> bool;

    /// The actions this handler may answer an event with.
    spec fn answers(&self, event: ClickEvent, action: A) -> bool;

    fn handle(&self, event: ClickEvent) -> (action: A)
        requires
            self.accepts(event),
        ensures
            self.answers(event, action),
    ;
}

impl<A, F: Fn(ClickEvent) -> A> ClickHandler<A> for F {
    open spec fn accepts(&self, event: ClickEvent) -> bool {
        call_requires(*self, (event,))
    }

    open spec fn answers(&self, event: ClickEvent, action: A) -> bool {
        call_ensures(*self, (event,), action)
    }

    fn handle(&self, event: ClickEvent) -> (action: A) {
        self(event)
    }
}

/// The handlers of one node. The tree only stores them; an event dispatcher calls them.
#[verifier::reject_recursive_types(A)]
pub struct Handlers<A> {
    pub click: Option<Box<dyn ClickHandler<A>>>,
}

impl<A> Handlers<A> {
    /// No handler at all.
    pub fn new() -> (r: Self)
        ensures
            r.click is None,
    {
        Handlers { click: None }
    }

    /// Sets the click handler, replacing an earlier one.
    pub fn click<H>(&mut self, handler: H) where H: ClickHandler<A> + 'static
        ensures
            final(self).holds_click(handler),
    {
        let boxed: Box<dyn ClickHandler<A>> = Box::new(handler);
        self.click = Some(boxed);
    }

    /// Whether the click handler is `handler`: there is one, and it takes the events and gives
    /// the answers that `handler` does.
    pub open spec fn holds_click<H: ClickHandler<A>>(&self, handler: H) -> bool {
        match self.click {
            Some(held) => {
                &&& forall|event: ClickEvent| #[trigger]
                    held.accepts(event) == handler.accepts(event)
                &&& forall|event: ClickEvent, action: A| #[trigger]
                    held.answers(event, action) == handler.answers(event, action)
            },
            None => false,
        }
    }
}

impl<A> Default for Handlers<A> {
    fn default() -> (r: Handlers<A>)
        ensures
            r.click is None,
    {
        Handlers::new()
    }
}

} // verus!
