//! The application shell: the state, the tree that shows it, and the function that moves the
//! state on with each action.

use vstd::prelude::*;
use std::sync::Arc;
use crate::event::Handlers;
use crate::layout::engine::faults_in;
use crate::layout::rules::{faults_of, layout_of, screen};
use crate::render::{commands, render_list, Drawing, Position, Size};
use crate::template::RendererFn;
use crate::vnode::Text;
use crate::vnode::dynamic_node::{
    degrade, failures, failures_in, DynamicNode, RenderError, MAX_TEMPLATE_DEPTH,
};
use crate::vnode::static_node::{StaticNode, StaticText};

verus! {

/// An application: its state of type `S`, its declarative tree, and the reducer that makes
/// a new state of the state and an action.
///
/// What the tree resolves to under the state is kept at hand and renewed whenever the state
/// changes. A template that cannot be resolved does not take the rest of the screen with
/// it: an empty text stands in its place, and the failure is kept for the host to read.
#[verifier::reject_recursive_types(S)]
#[verifier::reject_recursive_types(M)]
#[verifier::reject_recursive_types(A)]
pub struct App<S, R: RendererFn<S, M, A>, M, A, F: Fn(S, A) -> S> {
    store: S,
    vnode: DynamicNode<R, M, A>,
    reducer: F,
    placeholder: StaticText<A>,
    last_render: StaticNode<A>,
    last_errors: Vec<RenderError>,
}

impl<S, R: RendererFn<S, M, A>, M, A, F: Fn(S, A) -> S> App<S, R, M, A, F> {
    #[verifier::type_invariant]
    spec fn up_to_date(&self) -> bool {
        &&& self.placeholder.content@ == Seq::<char>::empty()
        &&& self.placeholder.handlers.click is None
        &&& self.last_render@ == degrade(
            &self.vnode,
            &self.store,
            MAX_TEMPLATE_DEPTH as nat,
            Seq::empty(),
            *self.placeholder,
        )
        &&& failures_in(self.last_errors@) == failures(
            &self.vnode,
            &self.store,
            MAX_TEMPLATE_DEPTH as nat,
            Seq::empty(),
        )
    }

    /// The state.
    pub closed spec fn store(&self) -> S {
        self.store
    }

    /// The declarative tree.
    pub closed spec fn tree(&self) -> DynamicNode<R, M, A> {
        self.vnode
    }

    /// The function that moves the state on.
    pub closed spec fn reducer(&self) -> F {
        self.reducer
    }

    /// The text that stands in for a template that cannot be resolved.
    pub closed spec fn placeholder(&self) -> Text<A> {
        *self.placeholder
    }

    /// An application in the state `store`, with its tree resolved for the first time.
    pub fn new(store: S, vnode: DynamicNode<R, M, A>, reducer: F) -> (r: Self)
        ensures
            r.store() == store,
            r.tree() == vnode,
            r.reducer() == reducer,
            r.placeholder().content@ == Seq::<char>::empty(),
            r.placeholder().handlers.click is None,
    {
        let placeholder = Arc::new(Text { content: String::new(), handlers: Handlers::new() });
        let rendered = vnode.render_degraded(&store, &placeholder);
        App {
            store,
            vnode,
            reducer,
            placeholder,
            last_render: rendered.tree,
            last_errors: rendered.errors,
        }
    }

    /// The resolved tree of the current state.
    pub fn view(&self) -> (r: &StaticNode<A>)
        ensures
            r@ == degrade(
                &self.tree(),
                &self.store(),
                MAX_TEMPLATE_DEPTH as nat,
                Seq::empty(),
                self.placeholder(),
            ),
    {
        proof {
            use_type_invariant(self);
        }
        &self.last_render
    }

    /// The templates that could not be resolved under the current state, in declared order.
    pub fn errors(&self) -> (r: &Vec<RenderError>)
        ensures
            failures_in(r@) == failures(
                &self.tree(),
                &self.store(),
                MAX_TEMPLATE_DEPTH as nat,
                Seq::empty(),
            ),
    {
        proof {
            use_type_invariant(self);
        }
        &self.last_errors
    }

    /// The render list of the current state in the region of the screen at `position` of
    /// the size `size`, with the faults of the layout.
    pub fn render_list(&self, position: Position, size: Size) -> (r: Drawing<A>)
        ensures
            r.commands@ == commands(
                layout_of(
                    degrade(
                        &self.tree(),
                        &self.store(),
                        MAX_TEMPLATE_DEPTH as nat,
                        Seq::empty(),
                        self.placeholder(),
                    ),
                    screen(position, size),
                ),
            ),
            faults_in(r.errors@) == faults_of(
                degrade(
                    &self.tree(),
                    &self.store(),
                    MAX_TEMPLATE_DEPTH as nat,
                    Seq::empty(),
                    self.placeholder(),
                ),
                screen(position, size),
            ),
    {
        proof {
            use_type_invariant(self);
        }
        render_list(&self.last_render, position, size)
    }

    /// Moves the state on by `action` and resolves the tree anew.
    pub fn action(self, action: A) -> (r: Self)
        requires
            call_requires(self.reducer(), (self.store(), action)),
        ensures
            call_ensures(self.reducer(), (self.store(), action), r.store()),
            r.tree() == self.tree(),
            r.reducer() == self.reducer(),
            r.placeholder() == self.placeholder(),
    {
        proof {
            use_type_invariant(&self);
        }
        let App { store, vnode, reducer, placeholder, last_render: _, last_errors: _ } = self;
        let store = reducer(store, action);
        let rendered = vnode.render_degraded(&store, &placeholder);
        App {
            store,
            vnode,
            reducer,
            placeholder,
            last_render: rendered.tree,
            last_errors: rendered.errors,
        }
    }
}

} // verus!
