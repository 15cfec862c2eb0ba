//! The render list: the leaves of a positioned tree, flattened in paint order.

use vstd::prelude::*;
use std::sync::Arc;
use vstd::string::*;
use crate::layout::engine::{faults_in, layout, saturate, LayoutError};
use crate::layout::ContainerLayout;
use crate::layout::geometry::Rect;
use crate::layout::laws::{
    lemma_arrange_keeps_tree, lemma_errant_node_leaves_siblings, outside_at, pruned,
};
use crate::layout::placed::{
    lemma_positioned_container_view, positioned_views_of, PositionedNode, PositionedView,
};
use crate::layout::rules::{arrange, capped, faults_of, layout_of, plain, screen, settled};
use crate::vnode::static_node::{StaticItem, StaticNode, StaticText, StaticView};

verus! {

/// A place on the grid: column and row, counted from the top left corner.
pub type Position = (u16, u16);

/// A size on the grid: width and height in cells.
pub type Size = (u16, u16);

/// What a draw command is about.
#[verifier::reject_recursive_types(A)]
pub enum RenderItem<A> {
    Text(StaticText<A>),
    Item(StaticItem<A>),
}

/// A text to draw.
#[verifier::reject_recursive_types(A)]
pub struct RenderText<A> {
    pub position: Position,
    pub size: Size,
    pub node: StaticText<A>,
}

/// The box of an item to draw; the backend reads tag, classes and attributes off the item.
#[verifier::reject_recursive_types(A)]
pub struct RenderBox<A> {
    pub position: Position,
    pub size: Size,
    pub node: StaticItem<A>,
}

/// One thing for the backend to draw.
#[verifier::reject_recursive_types(A)]
pub enum RenderCommand<A> {
    Text(RenderText<A>),
    Item(RenderBox<A>),
}

/// Draw commands in paint order: what comes later is drawn over what came before.
pub type RenderList<A> = Vec<RenderCommand<A>>;

impl<A> RenderCommand<A> {
    /// The command that draws `text` where its parent begins, in the size of its content:
    /// as wide as it has characters, no wider than the grid, and one cell high. The size
    /// of the parent is not read.
    pub fn text(text: StaticText<A>, parent_position: Position, parent_size: Size) -> (r: Self)
        ensures
            r == RenderCommand::Text(
                RenderText {
                    position: parent_position,
                    size: (capped(text.content@.len() as int) as u16, 1u16),
                    node: text,
                },
            ),
    {
        let position = parent_position;
        let size = (saturate(text.content().unicode_len()), 1);
        RenderCommand::Text(RenderText { node: text, position, size })
    }

    /// The command that draws `text` in the box that the layout gave it.
    pub fn text_at(text: StaticText<A>, position: Position, size: Size) -> (r: Self)
        ensures
            r == RenderCommand::Text(RenderText { position, size, node: text }),
    {
        RenderCommand::Text(RenderText { node: text, position, size })
    }

    /// The command that draws the box of `item` at `position` in the size `size`.
    pub fn item(item: StaticItem<A>, position: Position, size: Size) -> (r: Self)
        ensures
            r == RenderCommand::Item(RenderBox { position, size, node: item }),
    {
        RenderCommand::Item(RenderBox { node: item, position, size })
    }

    /// What the command is about.
    pub open spec fn subject(self) -> RenderItem<A> {
        match self {
            RenderCommand::Text(t) => RenderItem::Text(t.node),
            RenderCommand::Item(b) => RenderItem::Item(b.node),
        }
    }
}

/// The draw commands of a positioned tree: one for each text and each item, none for a
/// container, in the order of a walk that visits the children of a container in declared
/// order.
pub open spec fn commands<A>(tree: PositionedView<A>) -> Seq<RenderCommand<A>>
    decreases tree,
{
    match tree {
        PositionedView::Text { text, bounds } => seq![
            RenderCommand::Text(
                RenderText {
                    position: (bounds.x, bounds.y),
                    size: (bounds.width, bounds.height),
                    node: Arc::new(text),
                },
            ),
        ],
        PositionedView::Item { item, bounds } => seq![
            RenderCommand::Item(
                RenderBox {
                    position: (bounds.x, bounds.y),
                    size: (bounds.width, bounds.height),
                    node: Arc::new(item),
                },
            ),
        ],
        PositionedView::Container { children, .. } => commands_of(children, children.len()),
    }
}

/// The draw commands of the first `n` of `children`, one child after the other.
pub open spec fn commands_of<A>(children: Seq<PositionedView<A>>, n: nat) -> Seq<RenderCommand<A>>
    decreases children, n,
{
    if n == 0 || n > children.len() {
        Seq::empty()
    } else {
        commands_of(children, (n - 1) as nat) + commands(children[n - 1])
    }
}

/// The texts and items of a resolved tree, in declared order.
pub open spec fn leaves<A>(node: StaticView<A>) -> Seq<RenderItem<A>>
    decreases node,
{
    match node {
        StaticView::Text(text) => seq![RenderItem::Text(Arc::new(text))],
        StaticView::Item(item) => seq![RenderItem::Item(Arc::new(item))],
        StaticView::Container { children, .. } => leaves_of(children, children.len()),
    }
}

/// The texts and items of the first `n` of `children`, one child after the other.
pub open spec fn leaves_of<A>(children: Seq<StaticView<A>>, n: nat) -> Seq<RenderItem<A>>
    decreases children, n,
{
    if n == 0 || n > children.len() {
        Seq::empty()
    } else {
        leaves_of(children, (n - 1) as nat) + leaves(children[n - 1])
    }
}

/// What a list of commands is about, one for one.
pub open spec fn subjects<A>(list: Seq<RenderCommand<A>>) -> Seq<RenderItem<A>> {
    Seq::new(list.len(), |i: int| list[i].subject())
}

/// Order preservation: the commands of a positioned tree are about the texts and items of
/// the tree, each once, in declared order.
pub proof fn lemma_commands_in_declared_order<A>(tree: PositionedView<A>)
    ensures
        subjects(commands(tree)) == leaves(tree.plain()),
    decreases tree,
{
    match tree {
        PositionedView::Container { children, .. } => {
            lemma_children_in_declared_order(children, children.len());
            assert(tree.plain()->children.len() == children.len());
            lemma_leaves_of_same(
                tree.plain()->children,
                Seq::new(children.len(), |i: int| children[i].plain()),
                children.len(),
            );
        },
        PositionedView::Text { text, bounds } => {
            assert(subjects(commands(tree)) =~= leaves(tree.plain()));
        },
        PositionedView::Item { item, bounds } => {
            assert(subjects(commands(tree)) =~= leaves(tree.plain()));
        },
    }
}

proof fn lemma_leaves_of_same<A>(a: Seq<StaticView<A>>, b: Seq<StaticView<A>>, n: nat)
    requires
        a.len() == b.len(),
        forall|i: int| 0 <= i < a.len() ==> a[i] == b[i],
    ensures
        leaves_of(a, n) == leaves_of(b, n),
    decreases n,
{
    if n > 0 && n <= a.len() {
        lemma_leaves_of_same(a, b, (n - 1) as nat);
    }
}

proof fn lemma_children_in_declared_order<A>(children: Seq<PositionedView<A>>, n: nat)
    requires
        n <= children.len(),
    ensures
        subjects(commands_of(children, n)) == leaves_of(
            Seq::new(children.len(), |i: int| children[i].plain()),
            n,
        ),
    decreases children, n,
{
    let plains = Seq::new(children.len(), |i: int| children[i].plain());
    if n == 0 {
        assert(subjects(commands_of(children, n)) =~= leaves_of(plains, n));
    } else {
        lemma_children_in_declared_order(children, (n - 1) as nat);
        lemma_commands_in_declared_order(children[n - 1]);
        assert(subjects(commands_of(children, n)) =~= subjects(
            commands_of(children, (n - 1) as nat),
        ) + subjects(commands(children[n - 1])));
    }
}

/// Order preservation from the resolved tree to the render list: whatever the region and
/// whatever the directives, the render list of a tree is about its texts and items in
/// declared order.
pub proof fn lemma_render_list_in_declared_order<A>(
    root: StaticView<A>,
    position: Position,
    size: Size,
)
    ensures
        subjects(commands(layout_of(root, screen(position, size)))) == leaves(root),
{
    let region = screen(position, size);
    lemma_commands_in_declared_order(layout_of(root, region));
    lemma_arrange_keeps_tree(root, settled(seq![root], 0, region, plain()));
}

/// Layout error containment in the render list: take a node that is outside the flow of
/// its container, such as one whose place cannot be found, out of the subtree of one child
/// of a container. The commands of every other child stay as they are, boxes and all.
pub proof fn lemma_errant_node_leaves_commands<A>(
    children: Seq<StaticView<A>>,
    a: int,
    path: Seq<int>,
    i: int,
    bounds: Rect,
    layout: ContainerLayout,
)
    requires
        0 <= a < children.len(),
        outside_at(children[a], path),
        0 <= i < children.len(),
        i != a,
    ensures
        commands(
            arrange(
                children.update(a, pruned(children[a], path))[i],
                settled(children.update(a, pruned(children[a], path)), i, bounds, layout),
            ),
        ) == commands(arrange(children[i], settled(children, i, bounds, layout))),
{
    lemma_errant_node_leaves_siblings(children, a, path, i, bounds, layout);
}

/// Appends the draw commands of `tree`.
fn collect<A>(tree: &PositionedNode<A>, out: &mut Vec<RenderCommand<A>>)
    ensures
        final(out)@ == old(out)@ + commands(tree@),
    decreases tree,
{
    let ghost start = out@;
    match tree {
        PositionedNode::Text { text, bounds } => {
            out.push(
                RenderCommand::text_at(
                    text.clone(),
                    (bounds.x, bounds.y),
                    (bounds.width, bounds.height),
                ),
            );
            assert(out@ =~= start + commands(tree@));
        },
        PositionedNode::Item { item, bounds } => {
            out.push(
                RenderCommand::item(item.clone(), (bounds.x, bounds.y), (bounds.width, bounds.height)),
            );
            assert(out@ =~= start + commands(tree@));
        },
        PositionedNode::Container(c) => {
            proof {
                lemma_positioned_container_view(*tree);
            }
            let ghost kids = positioned_views_of(c.children@);
            let mut i: usize = 0;
            assert(out@ =~= start + commands_of(kids, 0));
            while i < c.children.len()
                invariant
                    tree is Container,
                    tree->Container_0 == c,
                    kids == positioned_views_of(c.children@),
                    i <= c.children@.len(),
                    out@ == start + commands_of(kids, i as nat),
                decreases c.children@.len() - i,
            {
                collect(&c.children[i], out);
                i += 1;
                proof {
                    assert(out@ =~= start + commands_of(kids, i as nat));
                }
            }
        },
    }
}

/// The render list of a positioned tree.
pub fn build_render_list<A>(tree: &PositionedNode<A>) -> (r: RenderList<A>)
    ensures
        r@ == commands(tree@),
{
    let mut out: Vec<RenderCommand<A>> = Vec::new();
    collect(tree, &mut out);
    assert(out@ =~= commands(tree@));
    out
}

/// What a resolved tree comes to on the screen: the draw commands, and the faults that the
/// layout met and made the best of.
#[verifier::reject_recursive_types(A)]
pub struct Drawing<A> {
    pub commands: RenderList<A>,
    /// In the order of a walk that visits a container before its children. A fault takes
    /// no command from the list: the node it is about is drawn in the box that was left
    /// to it.
    pub errors: Vec<LayoutError>,
}

/// The render list of a resolved tree laid out in the region of the screen at
/// `parent_position` of the size `parent_size`, with the faults of the layout.
pub fn render_list<A>(node: &StaticNode<A>, parent_position: Position, parent_size: Size) -> (r:
    Drawing<A>)
    ensures
        r.commands@ == commands(layout_of(node@, screen(parent_position, parent_size))),
        faults_in(r.errors@) == faults_of(node@, screen(parent_position, parent_size)),
{
    let placed = layout(node, parent_position, parent_size);
    let commands = build_render_list(&placed.tree);
    Drawing { commands, errors: placed.errors }
}

} // verus!
