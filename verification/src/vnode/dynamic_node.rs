//! The declarative tree, which may hold templates, and the pass that resolves it.

use vstd::prelude::*;
use std::sync::Arc;
use crate::layout::ContainerLayout;
use crate::template::{RendererFn, Template, TemplateError};
use crate::vnode::{Item, Text};
use crate::vnode::static_node::{views_of, StaticNode, StaticText, StaticView};

verus! {

pub type DynamicText<A> = Arc<Text<A>>;

pub type DynamicItem<A> = Arc<Item<A>>;

pub type DynamicChildren<R, M, A> = Vec<DynamicNode<R, M, A>>;

/// An item with children, in the order in which they were declared.
#[verifier::reject_recursive_types(A)]
pub struct DynamicContainer<R, M, A> {
    pub item: DynamicItem<A>,
    pub children: DynamicChildren<R, M, A>,
    pub layout: Arc<ContainerLayout>,
}

/// A use of a template, with the message that this use hands to it on every evaluation.
pub struct DynamicTemplate<R, M> {
    pub message: Option<M>,
    pub template: Arc<Template<R>>,
}

/// A node of the declarative tree.
///
/// `R` is the type of the renderers behind the templates, `M` that of the messages handed
/// to them, `A` that of the actions which handlers produce.
#[verifier::reject_recursive_types(A)]
pub enum DynamicNode<R, M, A> {
    Text(DynamicText<A>),
    Item(DynamicItem<A>),
    Container(DynamicContainer<R, M, A>),
    Template(DynamicTemplate<R, M>),
}

/// What went wrong while a tree was resolved.
#[derive(Debug)]
pub enum RenderFailure {
    /// The renderer of a template failed.
    Template(TemplateError),
    /// Templates expanded into templates more often than the bound of the pass allows. In
    /// `render` the bound is out of reach; `render_within` takes one from the caller.
    Depth,
}

/// A failed resolution: where in the resolved tree the template stood, and what went wrong.
#[derive(Debug)]
pub struct RenderError {
    /// The place of the template: the index of a child at each container from the root down.
    pub path: Vec<usize>,
    pub failure: RenderFailure,
}

/// A failed resolution as a mathematical value.
pub struct RenderErrorView {
    pub path: Seq<usize>,
    pub failure: RenderFailure,
}

impl View for RenderError {
    type V = RenderErrorView;

    open spec fn view(&self) -> RenderErrorView {
        RenderErrorView { path: self.path@, failure: self.failure }
    }
}

/// How often a template may expand into a template, one inside the other, in `render`: as
/// often as a machine word counts. The pass needs a count to come to an end; this one is out
/// of reach of any tree that can be held, so `render` fails on the failure of a template
/// alone. A template that expands into itself without end is not detected.
pub const MAX_TEMPLATE_DEPTH: usize = usize::MAX;

/// The resolved tree of `node` under `store`, or the first failure in declared order.
///
/// Texts and items resolve to themselves. A container resolves its children in order. A
/// template is replaced by the resolved tree of its expansion; `depth` bounds how often
/// that may happen on the way down.
pub open spec fn resolve<S, R: RendererFn<S, M, A>, M, A>(
    node: &DynamicNode<R, M, A>,
    store: &S,
    depth: nat,
    path: Seq<usize>,
) -> Result<StaticView<A>, RenderErrorView>
    decreases depth, node,
{
    match node {
        DynamicNode::Text(text) => Ok(StaticView::Text(**text)),
        DynamicNode::Item(item) => Ok(StaticView::Item(**item)),
        DynamicNode::Container(c) => match resolve_children(
            c.children@,
            store,
            depth,
            path,
            c.children@.len(),
        ) {
            Ok(children) => Ok(StaticView::Container { item: *c.item, layout: *c.layout, children }),
            Err(e) => Err(e),
        },
        DynamicNode::Template(t) => if depth == 0 {
            Err(RenderErrorView { path, failure: RenderFailure::Depth })
        } else {
            match t.template.renderer.expansion(store, &t.message) {
                Ok(subtree) => resolve(&subtree, store, (depth - 1) as nat, path),
                Err(cause) => Err(RenderErrorView { path, failure: RenderFailure::Template(cause) }),
            }
        },
    }
}

/// The resolved trees of the first `n` of `children`, or the first failure among them.
pub open spec fn resolve_children<S, R: RendererFn<S, M, A>, M, A>(
    children: Seq<DynamicNode<R, M, A>>,
    store: &S,
    depth: nat,
    path: Seq<usize>,
    n: nat,
) -> Result<Seq<StaticView<A>>, RenderErrorView>
    decreases depth, children, n,
{
    if n == 0 || n > children.len() {
        Ok(Seq::empty())
    } else {
        match resolve_children(children, store, depth, path, (n - 1) as nat) {
            Ok(before) => match resolve(
                &children[n - 1],
                store,
                depth,
                path.push((n - 1) as usize),
            ) {
                Ok(child) => Ok(before.push(child)),
                Err(e) => Err(e),
            },
            Err(e) => Err(e),
        }
    }
}

/// What a pass returned, as a mathematical value.
pub open spec fn outcome<A>(r: Result<StaticNode<A>, RenderError>) -> Result<
    StaticView<A>,
    RenderErrorView,
> {
    match r {
        Ok(tree) => Ok(tree@),
        Err(e) => Err(e@),
    }
}

/// The tree that `node` resolves to under `store` where failures are put up with: a
/// template that cannot be resolved leaves `placeholder` in its place, and everything else
/// resolves as it does in `resolve`.
pub open spec fn degrade<S, R: RendererFn<S, M, A>, M, A>(
    node: &DynamicNode<R, M, A>,
    store: &S,
    depth: nat,
    path: Seq<usize>,
    placeholder: Text<A>,
) -> StaticView<A>
    decreases depth, node,
{
    match node {
        DynamicNode::Text(text) => StaticView::Text(**text),
        DynamicNode::Item(item) => StaticView::Item(**item),
        DynamicNode::Container(c) => StaticView::Container {
            item: *c.item,
            layout: *c.layout,
            children: Seq::new(
                c.children@.len(),
                |i: int|
                    if 0 <= i < c.children@.len() {
                        degrade(&c.children@[i], store, depth, path.push(i as usize), placeholder)
                    } else {
                        StaticView::Text(placeholder)
                    },
            ),
        },
        DynamicNode::Template(t) => if depth == 0 {
            StaticView::Text(placeholder)
        } else {
            match t.template.renderer.expansion(store, &t.message) {
                Ok(subtree) => degrade(&subtree, store, (depth - 1) as nat, path, placeholder),
                Err(_) => StaticView::Text(placeholder),
            }
        },
    }
}

/// The failures of all the templates of `node` that cannot be resolved under `store`, in
/// declared order.
pub open spec fn failures<S, R: RendererFn<S, M, A>, M, A>(
    node: &DynamicNode<R, M, A>,
    store: &S,
    depth: nat,
    path: Seq<usize>,
) -> Seq<RenderErrorView>
    decreases depth, node,
{
    match node {
        DynamicNode::Text(_) => Seq::empty(),
        DynamicNode::Item(_) => Seq::empty(),
        DynamicNode::Container(c) => failures_among(
            c.children@,
            store,
            depth,
            path,
            c.children@.len(),
        ),
        DynamicNode::Template(t) => if depth == 0 {
            seq![RenderErrorView { path, failure: RenderFailure::Depth }]
        } else {
            match t.template.renderer.expansion(store, &t.message) {
                Ok(subtree) => failures(&subtree, store, (depth - 1) as nat, path),
                Err(cause) => seq![RenderErrorView { path, failure: RenderFailure::Template(cause) }],
            }
        },
    }
}

/// The failures of the first `n` of `children`, one child after the other.
pub open spec fn failures_among<S, R: RendererFn<S, M, A>, M, A>(
    children: Seq<DynamicNode<R, M, A>>,
    store: &S,
    depth: nat,
    path: Seq<usize>,
    n: nat,
) -> Seq<RenderErrorView>
    decreases depth, children, n,
{
    if n == 0 || n > children.len() {
        Seq::empty()
    } else {
        failures_among(children, store, depth, path, (n - 1) as nat) + failures(
            &children[n - 1],
            store,
            depth,
            path.push((n - 1) as usize),
        )
    }
}

/// The failures of a list of errors, one for one.
pub open spec fn failures_in(errors: Seq<RenderError>) -> Seq<RenderErrorView> {
    Seq::new(errors.len(), |i: int| errors[i]@)
}

/// What a pass that puts up with failures returns: a tree in any case, and the failures.
#[verifier::reject_recursive_types(A)]
pub struct Rendered<A> {
    pub tree: StaticNode<A>,
    /// In declared order. Empty where every template could be resolved.
    pub errors: Vec<RenderError>,
}

impl<R, M, A> DynamicNode<R, M, A> {
    pub fn new_text(text: Text<A>) -> (r: Self)
        ensures
            r == DynamicNode::<R, M, A>::Text(Arc::new(text)),
    {
        DynamicNode::Text(Arc::new(text))
    }

    pub fn new_item(item: Item<A>) -> (r: Self)
        ensures
            r == DynamicNode::<R, M, A>::Item(Arc::new(item)),
    {
        DynamicNode::Item(Arc::new(item))
    }

    pub fn new_container(
        item: Item<A>,
        children: DynamicChildren<R, M, A>,
        layout: ContainerLayout,
    ) -> (r: Self)
        ensures
            r == DynamicNode::Container(
                DynamicContainer { item: Arc::new(item), children, layout: Arc::new(layout) },
            ),
    {
        DynamicNode::Container(
            DynamicContainer { item: Arc::new(item), children, layout: Arc::new(layout) },
        )
    }

    pub fn new_template(template: Arc<Template<R>>, message: Option<M>) -> (r: Self)
        ensures
            r == DynamicNode::<R, M, A>::Template(DynamicTemplate { template, message }),
    {
        DynamicNode::Template(DynamicTemplate { template, message })
    }

    /// Resolves the tree under `store`: every template is evaluated and replaced by what it
    /// expands to. Nothing is returned of a tree in which a template failed.
    pub fn render<S>(&self, store: &S) -> (r: Result<StaticNode<A>, RenderError>) where
        R: RendererFn<S, M, A>,

        ensures
            outcome(r) == resolve(self, store, MAX_TEMPLATE_DEPTH as nat, Seq::empty()),
    {
        self.render_within(store, MAX_TEMPLATE_DEPTH)
    }

    /// As `render`, with a bound of the caller's choice on how often a template may expand
    /// into a template.
    pub fn render_within<S>(&self, store: &S, depth: usize) -> (r: Result<
        StaticNode<A>,
        RenderError,
    >) where R: RendererFn<S, M, A>
        ensures
            outcome(r) == resolve(self, store, depth as nat, Seq::empty()),
    {
        let mut path: Vec<usize> = Vec::new();
        self.render_at(store, depth, &mut path)
    }

    /// Resolves the tree under `store` and puts up with failures: a template that cannot be
    /// resolved leaves `placeholder` in its place, the rest of the tree is resolved as ever,
    /// and the failures are listed.
    pub fn render_degraded<S>(&self, store: &S, placeholder: &StaticText<A>) -> (r: Rendered<A>) where
        R: RendererFn<S, M, A>,

        ensures
            r.tree@ == degrade(self, store, MAX_TEMPLATE_DEPTH as nat, Seq::empty(), **placeholder),
            failures_in(r.errors@) == failures(self, store, MAX_TEMPLATE_DEPTH as nat, Seq::empty()),
    {
        let mut path: Vec<usize> = Vec::new();
        let mut errors: Vec<RenderError> = Vec::new();
        assert(failures_in(errors@) =~= Seq::<RenderErrorView>::empty());
        let tree = self.degrade_at(store, MAX_TEMPLATE_DEPTH, placeholder, &mut path, &mut errors);
        assert(failures_in(errors@) =~= failures(
            self,
            store,
            MAX_TEMPLATE_DEPTH as nat,
            Seq::empty(),
        ));
        Rendered { tree, errors }
    }

    fn degrade_at<S>(
        &self,
        store: &S,
        depth: usize,
        placeholder: &StaticText<A>,
        path: &mut Vec<usize>,
        errors: &mut Vec<RenderError>,
    ) -> (r: StaticNode<A>) where R: RendererFn<S, M, A>
        ensures
            final(path)@ == old(path)@,
            r@ == degrade(self, store, depth as nat, old(path)@, **placeholder),
            failures_in(final(errors)@) == failures_in(old(errors)@) + failures(
                self,
                store,
                depth as nat,
                old(path)@,
            ),
        decreases depth, self,
    {
        let ghost said = failures_in(errors@);
        match self {
            DynamicNode::Text(text) => {
                assert(said + Seq::<RenderErrorView>::empty() =~= said);
                StaticNode::new_text(text.clone())
            },
            DynamicNode::Item(item) => {
                assert(said + Seq::<RenderErrorView>::empty() =~= said);
                StaticNode::new_item(item.clone())
            },
            DynamicNode::Container(c) => {
                let mut children: Vec<StaticNode<A>> = Vec::new();
                let mut i: usize = 0;
                assert(failures_in(errors@) =~= said + failures_among(
                    c.children@,
                    store,
                    depth as nat,
                    path@,
                    0,
                ));
                while i < c.children.len()
                    invariant
                        self is Container,
                        self->Container_0 == c,
                        i <= c.children@.len(),
                        path@ == old(path)@,
                        children@.len() == i,
                        forall|j: int|
                            0 <= j < i ==> (#[trigger] children@[j])@ == degrade(
                                &c.children@[j],
                                store,
                                depth as nat,
                                path@.push(j as usize),
                                **placeholder,
                            ),
                        failures_in(errors@) == said + failures_among(
                            c.children@,
                            store,
                            depth as nat,
                            path@,
                            i as nat,
                        ),
                    decreases c.children@.len() - i,
                {
                    path.push(i);
                    let child = c.children[i].degrade_at(store, depth, placeholder, path, errors);
                    path.pop();
                    children.push(child);
                    i += 1;
                    proof {
                        assert(path@ =~= old(path)@);
                        assert(failures_in(errors@) =~= said + failures_among(
                            c.children@,
                            store,
                            depth as nat,
                            path@,
                            i as nat,
                        ));
                    }
                }
                let r = StaticNode::new_container(c.item.clone(), children, c.layout.clone());
                proof {
                    assert(r@->children =~= degrade(
                        self,
                        store,
                        depth as nat,
                        path@,
                        **placeholder,
                    )->children);
                }
                r
            },
            DynamicNode::Template(t) => {
                if depth == 0 {
                    errors.push(RenderError { path: path.clone(), failure: RenderFailure::Depth });
                    assert(failures_in(errors@) =~= said + seq![
                        RenderErrorView { path: path@, failure: RenderFailure::Depth },
                    ]);
                    StaticNode::new_text(placeholder.clone())
                } else {
                    match t.template.render(store, &t.message) {
                        Ok(subtree) => subtree.degrade_at(store, depth - 1, placeholder, path, errors),
                        Err(cause) => {
                            errors.push(
                                RenderError {
                                    path: path.clone(),
                                    failure: RenderFailure::Template(cause),
                                },
                            );
                            assert(failures_in(errors@) =~= said + seq![
                                RenderErrorView {
                                    path: path@,
                                    failure: RenderFailure::Template(cause),
                                },
                            ]);
                            StaticNode::new_text(placeholder.clone())
                        },
                    }
                }
            },
        }
    }

    fn render_at<S>(&self, store: &S, depth: usize, path: &mut Vec<usize>) -> (r: Result<
        StaticNode<A>,
        RenderError,
    >) where R: RendererFn<S, M, A>
        ensures
            final(path)@ == old(path)@,
            outcome(r) == resolve(self, store, depth as nat, old(path)@),
        decreases depth, self,
    {
        match self {
            DynamicNode::Text(text) => Ok(StaticNode::new_text(text.clone())),
            DynamicNode::Item(item) => Ok(StaticNode::new_item(item.clone())),
            DynamicNode::Container(c) => {
                let mut children: Vec<StaticNode<A>> = Vec::new();
                let mut i: usize = 0;
                proof {
                    assert(views_of(children@) =~= Seq::<StaticView<A>>::empty());
                }
                while i < c.children.len()
                    invariant
                        self is Container,
                        self->Container_0 == c,
                        i <= c.children@.len(),
                        path@ == old(path)@,
                        resolve_children(c.children@, store, depth as nat, path@, i as nat) == Ok::<
                            Seq<StaticView<A>>,
                            RenderErrorView,
                        >(views_of(children@)),
                    decreases c.children@.len() - i,
                {
                    path.push(i);
                    let child = c.children[i].render_at(store, depth, path);
                    path.pop();
                    proof {
                        assert(path@ =~= old(path)@);
                    }
                    match child {
                        Ok(node) => {
                            proof {
                                assert(views_of(children@.push(node)) =~= views_of(children@).push(
                                    node@,
                                ));
                            }
                            children.push(node);
                        },
                        Err(e) => {
                            proof {
                                lemma_first_failure(
                                    c.children@,
                                    store,
                                    depth as nat,
                                    path@,
                                    (i + 1) as nat,
                                    c.children@.len(),
                                );
                            }
                            return Err(e);
                        },
                    }
                    i += 1;
                }
                Ok(StaticNode::new_container(c.item.clone(), children, c.layout.clone()))
            },
            DynamicNode::Template(t) => {
                if depth == 0 {
                    Err(RenderError { path: path.clone(), failure: RenderFailure::Depth })
                } else {
                    match t.template.render(store, &t.message) {
                        Ok(subtree) => subtree.render_at(store, depth - 1, path),
                        Err(cause) => Err(
                            RenderError { path: path.clone(), failure: RenderFailure::Template(cause) },
                        ),
                    }
                }
            },
        }
    }
}

/// Once one of the first `n` children fails, that failure is the result for every longer
/// run of children.
pub proof fn lemma_first_failure<S, R: RendererFn<S, M, A>, M, A>(
    children: Seq<DynamicNode<R, M, A>>,
    store: &S,
    depth: nat,
    path: Seq<usize>,
    n: nat,
    m: nat,
)
    requires
        resolve_children(children, store, depth, path, n) is Err,
        n <= m <= children.len(),
    ensures
        resolve_children(children, store, depth, path, m) == resolve_children(
            children,
            store,
            depth,
            path,
            n,
        ),
    decreases m,
{
    if n < m {
        lemma_first_failure(children, store, depth, path, n, (m - 1) as nat);
    }
}

/// Determinism: whatever two passes over the same tree under the same state return, it is
/// the same, the resolved tree or the failure.
pub proof fn lemma_render_deterministic<S, R: RendererFn<S, M, A>, M, A>(
    tree: &DynamicNode<R, M, A>,
    store: &S,
    depth: nat,
    first: Result<StaticNode<A>, RenderError>,
    second: Result<StaticNode<A>, RenderError>,
)
    requires
        outcome(first) == resolve(tree, store, depth, Seq::empty()),
        outcome(second) == resolve(tree, store, depth, Seq::empty()),
    ensures
        outcome(first) == outcome(second),
{
}

/// Where the first `n` children resolve, there are `n` resolved children, and each is the
/// resolved tree of the child declared in its place.
pub proof fn lemma_resolve_children_in_order<S, R: RendererFn<S, M, A>, M, A>(
    children: Seq<DynamicNode<R, M, A>>,
    store: &S,
    depth: nat,
    path: Seq<usize>,
    n: nat,
)
    requires
        n <= children.len(),
        resolve_children(children, store, depth, path, n) is Ok,
    ensures
        resolve_children(children, store, depth, path, n)->Ok_0.len() == n,
        forall|i: int|
            0 <= i < n ==> resolve(&children[i], store, depth, path.push(i as usize)) == Ok::<
                StaticView<A>,
                RenderErrorView,
            >(#[trigger] resolve_children(children, store, depth, path, n)->Ok_0[i]),
    decreases n,
{
    if n > 0 {
        lemma_resolve_children_in_order(children, store, depth, path, (n - 1) as nat);
    }
}

/// Order preservation in resolving: a container resolves to a container with the same item
/// and layout, whose children are the resolved trees of its children, in declared order.
pub proof fn lemma_resolve_keeps_order<S, R: RendererFn<S, M, A>, M, A>(
    node: &DynamicNode<R, M, A>,
    store: &S,
    depth: nat,
    path: Seq<usize>,
)
    requires
        node is Container,
        resolve(node, store, depth, path) is Ok,
    ensures
        resolve(node, store, depth, path)->Ok_0 matches StaticView::Container {
            item,
            layout,
            children,
        } && item == *node->Container_0.item && layout == *node->Container_0.layout
            && children.len() == node->Container_0.children@.len() && forall|i: int|
            0 <= i < children.len() ==> resolve(
                &node->Container_0.children@[i],
                store,
                depth,
                path.push(i as usize),
            ) == Ok::<StaticView<A>, RenderErrorView>(#[trigger] children[i]),
{
    let kids = node->Container_0.children@;
    lemma_resolve_children_in_order(kids, store, depth, path, kids.len());
}

/// Putting up with failures changes nothing where there is none: a tree that resolves is
/// resolved to the same tree, with no failure listed. Where the tree does not resolve, the
/// failure that `resolve` gives is the first of those listed.
pub proof fn lemma_degrade_agrees_with_resolve<S, R: RendererFn<S, M, A>, M, A>(
    node: &DynamicNode<R, M, A>,
    store: &S,
    depth: nat,
    path: Seq<usize>,
    placeholder: Text<A>,
)
    ensures
        match resolve(node, store, depth, path) {
            Ok(tree) => degrade(node, store, depth, path, placeholder) == tree && failures(
                node,
                store,
                depth,
                path,
            ) == Seq::<RenderErrorView>::empty(),
            Err(e) => failures(node, store, depth, path).len() > 0 && failures(
                node,
                store,
                depth,
                path,
            )[0] == e,
        },
    decreases depth, node,
{
    match node {
        DynamicNode::Container(c) => {
            let kids = c.children@;
            lemma_degrade_agrees_among(kids, store, depth, path, placeholder, kids.len());
            if let Ok(tree) = resolve(node, store, depth, path) {
                assert(degrade(node, store, depth, path, placeholder)->children =~= tree->children);
            }
        },
        DynamicNode::Template(t) => {
            if depth > 0 {
                if let Ok(subtree) = t.template.renderer.expansion(store, &t.message) {
                    lemma_degrade_agrees_with_resolve(
                        &subtree,
                        store,
                        (depth - 1) as nat,
                        path,
                        placeholder,
                    );
                }
            }
        },
        _ => {},
    }
}

proof fn lemma_degrade_agrees_among<S, R: RendererFn<S, M, A>, M, A>(
    children: Seq<DynamicNode<R, M, A>>,
    store: &S,
    depth: nat,
    path: Seq<usize>,
    placeholder: Text<A>,
    n: nat,
)
    requires
        n <= children.len(),
    ensures
        match resolve_children(children, store, depth, path, n) {
            Ok(trees) => trees.len() == n && failures_among(children, store, depth, path, n)
                == Seq::<RenderErrorView>::empty() && forall|i: int|
                0 <= i < n ==> degrade(
                    &children[i],
                    store,
                    depth,
                    path.push(i as usize),
                    placeholder,
                ) == #[trigger] trees[i],
            Err(e) => failures_among(children, store, depth, path, n).len() > 0 && failures_among(
                children,
                store,
                depth,
                path,
                n,
            )[0] == e,
        },
    decreases depth, children, n,
{
    if n > 0 {
        lemma_degrade_agrees_among(children, store, depth, path, placeholder, (n - 1) as nat);
        lemma_degrade_agrees_with_resolve(
            &children[n - 1],
            store,
            depth,
            path.push((n - 1) as usize),
            placeholder,
        );
    }
}

/// Whether a pass ended for a cause that its bound has no part in: with a tree, or with the
/// failure of a template.
pub open spec fn settled_within<A>(r: Result<StaticView<A>, RenderErrorView>) -> bool {
    match r {
        Ok(_) => true,
        Err(e) => e.failure is Template,
    }
}

/// The bound decides nothing but whether it is reached: what a pass returns within a bound,
/// be it a tree or the failure of a template, every pass with a larger bound returns too. So
/// a template resolves to what its expansion resolves to, and `render`, whose bound no tree
/// reaches, returns what any bound that suffices gives.
pub proof fn lemma_larger_bound_agrees<S, R: RendererFn<S, M, A>, M, A>(
    node: &DynamicNode<R, M, A>,
    store: &S,
    depth: nat,
    larger: nat,
    path: Seq<usize>,
)
    requires
        depth <= larger,
        settled_within(resolve(node, store, depth, path)),
    ensures
        resolve(node, store, larger, path) == resolve(node, store, depth, path),
    decreases depth, node,
{
    match node {
        DynamicNode::Container(c) => {
            lemma_larger_bound_agrees_among(
                c.children@,
                store,
                depth,
                larger,
                path,
                c.children@.len(),
            );
        },
        DynamicNode::Template(t) => {
            if let Ok(subtree) = t.template.renderer.expansion(store, &t.message) {
                lemma_larger_bound_agrees(
                    &subtree,
                    store,
                    (depth - 1) as nat,
                    (larger - 1) as nat,
                    path,
                );
            }
        },
        _ => {},
    }
}

proof fn lemma_larger_bound_agrees_among<S, R: RendererFn<S, M, A>, M, A>(
    children: Seq<DynamicNode<R, M, A>>,
    store: &S,
    depth: nat,
    larger: nat,
    path: Seq<usize>,
    n: nat,
)
    requires
        depth <= larger,
        n <= children.len(),
        match resolve_children(children, store, depth, path, n) {
            Ok(_) => true,
            Err(e) => e.failure is Template,
        },
    ensures
        resolve_children(children, store, larger, path, n) == resolve_children(
            children,
            store,
            depth,
            path,
            n,
        ),
    decreases depth, children, n,
{
    if n > 0 {
        let before = resolve_children(children, store, depth, path, (n - 1) as nat);
        lemma_larger_bound_agrees_among(children, store, depth, larger, path, (n - 1) as nat);
        if before is Ok {
            lemma_larger_bound_agrees(
                &children[n - 1],
                store,
                depth,
                larger,
                path.push((n - 1) as usize),
            );
        }
    }
}

/// Whether no template stands anywhere in the tree.
pub open spec fn template_free<R, M, A>(node: &DynamicNode<R, M, A>) -> bool
    decreases node,
{
    match node {
        DynamicNode::Text(_) => true,
        DynamicNode::Item(_) => true,
        DynamicNode::Container(c) => forall|i: int|
            0 <= i < c.children@.len() ==> template_free(&#[trigger] c.children@[i]),
        DynamicNode::Template(_) => false,
    }
}

/// A change of the state reaches the resolved tree through templates alone: a tree, or a
/// part of one, that holds no template always resolves, and to the same tree under every
/// state.
pub proof fn lemma_state_reaches_templates_only<S, R: RendererFn<S, M, A>, M, A>(
    node: &DynamicNode<R, M, A>,
    first: &S,
    second: &S,
    depth: nat,
    path: Seq<usize>,
)
    requires
        template_free(node),
    ensures
        resolve(node, first, depth, path) is Ok,
        resolve(node, first, depth, path) == resolve(node, second, depth, path),
    decreases node,
{
    match node {
        DynamicNode::Container(c) => {
            lemma_children_ignore_state(c.children@, first, second, depth, path, c.children@.len());
        },
        _ => {},
    }
}

proof fn lemma_children_ignore_state<S, R: RendererFn<S, M, A>, M, A>(
    children: Seq<DynamicNode<R, M, A>>,
    first: &S,
    second: &S,
    depth: nat,
    path: Seq<usize>,
    n: nat,
)
    requires
        n <= children.len(),
        forall|i: int| 0 <= i < children.len() ==> template_free(&#[trigger] children[i]),
    ensures
        resolve_children(children, first, depth, path, n) is Ok,
        resolve_children(children, first, depth, path, n) == resolve_children(
            children,
            second,
            depth,
            path,
            n,
        ),
    decreases children, n,
{
    if n > 0 {
        lemma_children_ignore_state(children, first, second, depth, path, (n - 1) as nat);
        lemma_state_reaches_templates_only(
            &children[n - 1],
            first,
            second,
            depth,
            path.push((n - 1) as usize),
        );
    }
}

impl<R, M, A> From<Arc<Template<R>>> for DynamicNode<R, M, A> {
    fn from(template: Arc<Template<R>>) -> (r: Self) {
        DynamicNode::Template(DynamicTemplate { template, message: None })
    }
}

impl<R, M, A> vstd::std_specs::convert::FromSpecImpl<Arc<Template<R>>> for DynamicNode<R, M, A> {
    open spec fn obeys_from_spec() -> bool {
        true
    }

    open spec fn from_spec(template: Arc<Template<R>>) -> Self {
        DynamicNode::Template(DynamicTemplate { template, message: None })
    }
}

} // verus!
