//! Templates: reusable functions from the application's state to a piece of tree.

use vstd::prelude::*;
use std::sync::Arc;
use crate::vnode::dynamic_node::DynamicNode;

verus! {

/// Why a template could not produce its subtree.
#[derive(Debug)]
pub struct TemplateError {
    pub reason: String,
}

/// The function behind a template: from the state and the message given where the template
/// is used to a declarative subtree, or to a failure.
///
/// A renderer is pure: what it returns depends on its two arguments alone. `expansion` is
/// that function, and `render` computes it. The resolving pass is proved for renderers that
/// keep to this. In code that is compiled without being verified `expansion` is an ordinary
/// method that nothing calls; such an implementation gives it the body of `render`.
pub trait RendererFn<S, M, A>: Sized {
    spec fn expansion(&self, store: &S, message: &Option<M>) -> Result<
        DynamicNode<Self, M, A>,
        TemplateError,
    >;

    fn render(&self, store: &S, message: &Option<M>) -> (r: Result<
        DynamicNode<Self, M, A>,
        TemplateError,
    >)
        ensures
            r == self.expansion(store, message),
    ;
}

/// A renderer that has nothing to show: it fails with its reason whenever it is asked. It
/// also serves as the renderer type of trees that hold no template.
pub struct Unavailable {
    pub reason: String,
}

impl<S, M, A> RendererFn<S, M, A> for Unavailable {
    open spec fn expansion(&self, store: &S, message: &Option<M>) -> Result<
        DynamicNode<Self, M, A>,
        TemplateError,
    > {
        Err(TemplateError { reason: self.reason })
    }

    fn render(&self, store: &S, message: &Option<M>) -> (r: Result<
        DynamicNode<Self, M, A>,
        TemplateError,
    >) {
        Err(TemplateError { reason: self.reason.clone() })
    }
}

/// A renderer behind a shared handle, so that many places of a tree can use it.
pub struct Template<R> {
    pub renderer: R,
}

impl<R> Template<R> {
    /// A template of `renderer`, ready to be shared.
    pub fn new(renderer: R) -> (r: Arc<Template<R>>)
        ensures
            r.renderer == renderer,
    {
        Arc::new(Template { renderer })
    }

    /// The subtree for this state and message.
    pub fn render<S, M, A>(&self, store: &S, message: &Option<M>) -> (r: Result<
        DynamicNode<R, M, A>,
        TemplateError,
    >) where R: RendererFn<S, M, A>
        ensures
            r == self.renderer.expansion(store, message),
    {
        self.renderer.render(store, message)
    }
}

} // verus!
