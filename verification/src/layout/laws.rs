//! What holds of every layout.

use vstd::prelude::*;
use crate::layout::{ContainerLayout, Direction, Position};
use crate::layout::engine::{lemma_first_named, lemma_settled_on_grid};
use crate::layout::geometry::{grid, lemma_clip_within, sat, Frame, Rect};
use crate::layout::placed::PositionedView;
use crate::layout::rules::{
    across, along, anchor_name, arrange, asks, content, cursor, first_named, flow_count, flow_faults,
    flow_frame, identity, in_flow, layout_of, main_room, name_fault, named, plain, screen,
    settled, sharers, tallest, usable, used, weights,
};
use crate::vnode::static_node::StaticView;

verus! {

/// The position that a positioned node asked for.
pub open spec fn position_asked<A>(node: PositionedView<A>) -> Position {
    match node {
        PositionedView::Text { .. } => Position::Auto,
        PositionedView::Item { item, .. } => item.layout.position,
        PositionedView::Container { item, .. } => item.layout.position,
    }
}

/// Whether, in every container of the tree, each child that is not at a constant position
/// lies within the usable region of the container.
pub open spec fn contained<A>(tree: PositionedView<A>) -> bool
    decreases tree,
{
    match tree {
        PositionedView::Container { item, layout, bounds, children } => forall|i: int|
            0 <= i < children.len() ==> {
                &&& position_asked(#[trigger] children[i]) is Constant || children[i].bounds().within(
                    usable(bounds, layout),
                )
                &&& contained(children[i])
            },
        _ => true,
    }
}

/// Whether every box of the tree lies on the grid.
pub open spec fn on_grid<A>(tree: PositionedView<A>) -> bool
    decreases tree,
{
    &&& tree.bounds().on_grid()
    &&& match tree {
        PositionedView::Container { item, layout, bounds, children } => forall|i: int|
            0 <= i < children.len() ==> on_grid(#[trigger] children[i]),
        _ => true,
    }
}

/// Layout changes nothing but the boxes: without them, the positioned tree is the resolved
/// tree, with every child in its declared place.
pub proof fn lemma_arrange_keeps_tree<A>(node: StaticView<A>, bounds: Rect)
    ensures
        arrange(node, bounds).plain() == node,
        arrange(node, bounds).bounds() == bounds,
        position_asked(arrange(node, bounds)) == asks(node).position,
    decreases node,
{
    match node {
        StaticView::Container { item, layout, children } => {
            let placed = arrange(node, bounds);
            assert forall|i: int| 0 <= i < children.len() implies (#[trigger] placed->children[i]).plain()
                == children[i] by {
                lemma_arrange_keeps_tree(children[i], settled(children, i, bounds, layout));
            }
            assert(placed.plain()->children =~= children);
        },
        _ => {},
    }
}

/// The children of a positioned container are the children of the resolved one, each laid
/// out in its own box.
pub proof fn lemma_arrange_child<A>(node: StaticView<A>, bounds: Rect, i: int)
    requires
        node is Container,
        0 <= i < node->children.len(),
    ensures
        arrange(node, bounds) is Container,
        arrange(node, bounds)->children.len() == node->children.len(),
        arrange(node, bounds)->children[i] == arrange(
            node->children[i],
            settled(node->children, i, bounds, node->layout),
        ),
        arrange(node, bounds).bounds() == bounds,
        arrange(node, bounds)->layout == node->layout,
{
}

/// Containment: in the layout of a tree in a box on the grid, every child lies within the
/// usable region of its container, unless it is at a constant position.
pub proof fn lemma_arrange_contained<A>(node: StaticView<A>, bounds: Rect)
    requires
        bounds.on_grid(),
    ensures
        contained(arrange(node, bounds)),
    decreases node,
{
    let placed = arrange(node, bounds);
    if node is Container {
        let children = node->children;
        let layout = node->layout;
        assert forall|i: int| 0 <= i < placed->children.len() implies {
            &&& position_asked(#[trigger] placed->children[i]) is Constant
                || placed->children[i].bounds().within(usable(placed.bounds(), placed->layout))
            &&& contained(placed->children[i])
        } by {
            let rect = settled(children, i, bounds, layout);
            lemma_arrange_child(node, bounds, i);
            lemma_settled_on_grid(children, i, bounds, layout);
            lemma_arrange_keeps_tree(children[i], rect);
            lemma_arrange_contained(children[i], rect);
        }
    }
}

/// In the layout of a tree in a box on the grid every box lies on the grid, whatever
/// faults the layout met.
pub proof fn lemma_arrange_on_grid<A>(node: StaticView<A>, bounds: Rect)
    requires
        bounds.on_grid(),
    ensures
        on_grid(arrange(node, bounds)),
    decreases node,
{
    let placed = arrange(node, bounds);
    lemma_arrange_keeps_tree(node, bounds);
    if node is Container {
        let children = node->children;
        let layout = node->layout;
        assert forall|i: int| 0 <= i < placed->children.len() implies on_grid(
            #[trigger] placed->children[i],
        ) by {
            let rect = settled(children, i, bounds, layout);
            lemma_arrange_child(node, bounds, i);
            lemma_settled_on_grid(children, i, bounds, layout);
            lemma_arrange_on_grid(children[i], rect);
        }
    }
}

/// Containment for a whole layout: the root lies in the region of the screen, unless it is
/// at a constant position, and below it every container holds its children.
pub proof fn lemma_layout_contained<A>(root: StaticView<A>, region: Rect)
    requires
        region.on_grid(),
    ensures
        contained(layout_of(root, region)),
        on_grid(layout_of(root, region)),
        asks(root).position is Constant || layout_of(root, region).bounds().within(region),
        layout_of(root, region).plain() == root,
{
    let rect = settled(seq![root], 0, region, plain());
    lemma_settled_on_grid(seq![root], 0, region, plain());
    lemma_arrange_contained(root, rect);
    lemma_arrange_on_grid(root, rect);
    lemma_arrange_keeps_tree(root, rect);
}

/// Containment for the layout of a tree on the screen, whatever the tree, the place and the
/// size of the region are.
pub proof fn lemma_layout_on_screen_contained<A>(
    root: StaticView<A>,
    position: (u16, u16),
    size: (u16, u16),
)
    ensures
        contained(layout_of(root, screen(position, size))),
        on_grid(layout_of(root, screen(position, size))),
        asks(root).position is Constant || layout_of(root, screen(position, size)).bounds().within(
            screen(position, size),
        ),
{
    lemma_clip_within(
        Frame {
            x: position.0 as int,
            y: position.1 as int,
            width: size.0 as int,
            height: size.1 as int,
        },
        grid(),
    );
    lemma_layout_contained(root, screen(position, size));
}

/// Whether two lists of children have the same flow: the same places are in the flow, and
/// the same children stand there.
pub open spec fn same_flow<A>(a: Seq<StaticView<A>>, b: Seq<StaticView<A>>) -> bool {
    &&& a.len() == b.len()
    &&& forall|i: int|
        0 <= i < a.len() ==> in_flow(#[trigger] a[i]) == in_flow(b[i]) && (in_flow(a[i]) ==> a[i]
            == b[i])
}

/// What the flow comes to depends on the flow children alone.
proof fn lemma_same_flow_same_sums<A>(
    a: Seq<StaticView<A>>,
    b: Seq<StaticView<A>>,
    direction: Direction,
    gap: int,
    n: nat,
)
    requires
        same_flow(a, b),
    ensures
        flow_count(a, n) == flow_count(b, n),
        used(a, direction, gap, n) == used(b, direction, gap, n),
        weights(a, direction, n) == weights(b, direction, n),
        sharers(a, direction, n) == sharers(b, direction, n),
    decreases n,
{
    if n > 0 && n <= a.len() {
        lemma_same_flow_same_sums(a, b, direction, gap, (n - 1) as nat);
        assert(in_flow(a[n - 1]) == in_flow(b[n - 1]));
    }
}

/// How far the flow has come depends on the flow children alone.
proof fn lemma_same_flow_same_cursor<A>(
    a: Seq<StaticView<A>>,
    b: Seq<StaticView<A>>,
    direction: Direction,
    gap: int,
    room: int,
    n: nat,
)
    requires
        same_flow(a, b),
    ensures
        cursor(a, direction, gap, room, n) == cursor(b, direction, gap, room, n),
    decreases n,
{
    lemma_same_flow_same_sums(a, b, direction, gap, a.len());
    if n > 0 && n <= a.len() {
        lemma_same_flow_same_cursor(a, b, direction, gap, room, (n - 1) as nat);
        assert(in_flow(a[n - 1]) == in_flow(b[n - 1]));
    }
}

/// Layout error containment: the box of a flow child does not depend on the children
/// outside the flow. A child whose place cannot be found, or that asks for any other place
/// of its own, takes nothing from its siblings in the flow: they and all that lies below
/// them get the boxes they would get without it.
pub proof fn lemma_flow_ignores_children_outside<A>(
    a: Seq<StaticView<A>>,
    b: Seq<StaticView<A>>,
    i: int,
    bounds: Rect,
    layout: ContainerLayout,
)
    requires
        same_flow(a, b),
        0 <= i < a.len(),
        in_flow(a[i]),
    ensures
        settled(a, i, bounds, layout) == settled(b, i, bounds, layout),
        arrange(a[i], settled(a, i, bounds, layout)) == arrange(
            b[i],
            settled(b, i, bounds, layout),
        ),
        flow_faults(a, bounds, layout, Seq::empty()) == flow_faults(
            b,
            bounds,
            layout,
            Seq::empty(),
        ),
{
    reveal(settled);
    let region = usable(bounds, layout);
    let gap = sat(layout.spacing.0);
    let room = main_room(layout.direction, region);
    lemma_same_flow_same_sums(a, b, layout.direction, gap, a.len());
    lemma_same_flow_same_cursor(a, b, layout.direction, gap, room, i as nat);
    assert(a[i] == b[i]);
    assert(flow_frame(a, i, region, layout) == flow_frame(b, i, region, layout));
}

/// Whether two lists of children ask the same of their container, place by place: the same
/// directives, the same size of content, the same name.
pub open spec fn same_demands<A>(a: Seq<StaticView<A>>, b: Seq<StaticView<A>>) -> bool {
    &&& a.len() == b.len()
    &&& forall|i: int|
        0 <= i < a.len() ==> asks(#[trigger] a[i]) == asks(b[i]) && content(a[i]) == content(b[i])
            && identity(a[i]) == identity(b[i])
}

/// What the flow comes to depends on what the children ask, not on what they hold.
proof fn lemma_same_demands_same_sums<A>(
    a: Seq<StaticView<A>>,
    b: Seq<StaticView<A>>,
    direction: Direction,
    gap: int,
    room: int,
    name: Seq<char>,
    n: nat,
)
    requires
        same_demands(a, b),
    ensures
        flow_count(a, n) == flow_count(b, n),
        used(a, direction, gap, n) == used(b, direction, gap, n),
        weights(a, direction, n) == weights(b, direction, n),
        sharers(a, direction, n) == sharers(b, direction, n),
        tallest(a, direction, n) == tallest(b, direction, n),
        named(a, name, n) == named(b, name, n),
        first_named(a, name, n) == first_named(b, name, n),
    decreases n,
{
    if n > 0 && n <= a.len() {
        lemma_same_demands_same_sums(a, b, direction, gap, room, name, (n - 1) as nat);
        assert(asks(a[n - 1]) == asks(b[n - 1]));
        assert(along(direction, a[n - 1]) == along(direction, b[n - 1]));
        assert(across(direction, a[n - 1]) == across(direction, b[n - 1]));
    }
}

/// Where the flow has come to depends on what the children ask, not on what they hold.
proof fn lemma_same_demands_same_cursor<A>(
    a: Seq<StaticView<A>>,
    b: Seq<StaticView<A>>,
    direction: Direction,
    gap: int,
    room: int,
    n: nat,
)
    requires
        same_demands(a, b),
    ensures
        cursor(a, direction, gap, room, n) == cursor(b, direction, gap, room, n),
    decreases n,
{
    lemma_same_demands_same_sums(a, b, direction, gap, room, Seq::empty(), a.len());
    if n > 0 && n <= a.len() {
        lemma_same_demands_same_cursor(a, b, direction, gap, room, (n - 1) as nat);
        assert(asks(a[n - 1]) == asks(b[n - 1]));
    }
}

/// The frame that the flow gives a child depends on what the children ask alone.
proof fn lemma_same_demands_same_frame<A>(
    a: Seq<StaticView<A>>,
    b: Seq<StaticView<A>>,
    i: int,
    region: Rect,
    layout: ContainerLayout,
)
    requires
        same_demands(a, b),
        0 <= i < a.len(),
    ensures
        flow_frame(a, i, region, layout) == flow_frame(b, i, region, layout),
{
    let gap = sat(layout.spacing.0);
    let room = main_room(layout.direction, region);
    lemma_same_demands_same_sums(a, b, layout.direction, gap, room, Seq::empty(), a.len());
    lemma_same_demands_same_cursor(a, b, layout.direction, gap, room, i as nat);
    assert(asks(a[i]) == asks(b[i]));
}

/// The boxes of the children of a container, and the faults of its flow and of its names,
/// depend on what the children ask of it alone: their directives, the size of their
/// content and their names. What lies below a child reaches its siblings through these
/// three and through nothing else.
pub proof fn lemma_boxes_depend_on_demands<A>(
    a: Seq<StaticView<A>>,
    b: Seq<StaticView<A>>,
    i: int,
    bounds: Rect,
    layout: ContainerLayout,
)
    requires
        same_demands(a, b),
        0 <= i < a.len(),
    ensures
        settled(a, i, bounds, layout) == settled(b, i, bounds, layout),
        name_fault(a, i) == name_fault(b, i),
        flow_faults(a, bounds, layout, Seq::empty()) == flow_faults(
            b,
            bounds,
            layout,
            Seq::empty(),
        ),
{
    reveal(settled);
    let region = usable(bounds, layout);
    let gap = sat(layout.spacing.0);
    let room = main_room(layout.direction, region);
    assert(asks(a[i]) == asks(b[i]));
    lemma_same_demands_same_sums(a, b, layout.direction, gap, room, Seq::empty(), a.len());
    lemma_same_demands_same_frame(a, b, i, region, layout);
    match anchor_name(asks(a[i]).position) {
        Some(name) => {
            lemma_same_demands_same_sums(a, b, layout.direction, gap, room, name, a.len());
            if name_fault(a, i) is None {
                lemma_first_named(a, name, a.len());
                let first = first_named(a, name, a.len());
                lemma_same_demands_same_frame(a, b, first, region, layout);
            }
        },
        None => {},
    }
}

/// What the flow of a list comes to where a child outside the flow is taken out: the same.
proof fn lemma_sums_without_child_outside<A>(
    children: Seq<StaticView<A>>,
    k: int,
    direction: Direction,
    gap: int,
    n: nat,
)
    requires
        0 <= k < children.len(),
        !in_flow(children[k]),
        n <= children.len(),
    ensures
        n <= k ==> flow_count(children.remove(k), n) == flow_count(children, n) && used(
            children.remove(k),
            direction,
            gap,
            n,
        ) == used(children, direction, gap, n) && tallest(children.remove(k), direction, n)
            == tallest(children, direction, n),
        n > k ==> flow_count(children.remove(k), (n - 1) as nat) == flow_count(children, n)
            && used(children.remove(k), direction, gap, (n - 1) as nat) == used(
            children,
            direction,
            gap,
            n,
        ) && tallest(children.remove(k), direction, (n - 1) as nat) == tallest(
            children,
            direction,
            n,
        ),
    decreases n,
{
    let rest = children.remove(k);
    if n > 0 {
        lemma_sums_without_child_outside(children, k, direction, gap, (n - 1) as nat);
        if n <= k {
            assert(rest[n - 1] == children[n - 1]);
        } else if n > k + 1 {
            assert(rest[n - 2] == children[n - 1]);
        }
    }
}

/// The size of what a container holds does not depend on its children outside the flow.
pub proof fn lemma_content_ignores_child_outside<A>(node: StaticView<A>, k: int)
    requires
        node is Container,
        0 <= k < node->children.len(),
        !in_flow(node->children[k]),
    ensures
        content(without_child(node, k)) == content(node),
        asks(without_child(node, k)) == asks(node),
        identity(without_child(node, k)) == identity(node),
{
    let kids = node->children;
    lemma_sums_without_child_outside(
        kids,
        k,
        node->layout.direction,
        sat(node->layout.spacing.0),
        kids.len(),
    );
}

/// A container without its child at `k`.
pub open spec fn without_child<A>(node: StaticView<A>, k: int) -> StaticView<A> {
    match node {
        StaticView::Container { item, layout, children } => StaticView::Container {
            item,
            layout,
            children: children.remove(k),
        },
        _ => node,
    }
}

/// The tree without the node at `path`, which gives the index of a child at each container
/// from `node` down. A path that leads nowhere leaves the tree as it is.
pub open spec fn pruned<A>(node: StaticView<A>, path: Seq<int>) -> StaticView<A>
    decreases path.len(),
{
    match node {
        StaticView::Container { item, layout, children } => {
            if path.len() == 0 || !(0 <= path[0] < children.len()) {
                node
            } else if path.len() == 1 {
                without_child(node, path[0])
            } else {
                StaticView::Container {
                    item,
                    layout,
                    children: children.update(
                        path[0],
                        pruned(children[path[0]], path.drop_first()),
                    ),
                }
            }
        },
        _ => node,
    }
}

/// Whether `path` leads from `node` to a node that is outside the flow of its container.
pub open spec fn outside_at<A>(node: StaticView<A>, path: Seq<int>) -> bool
    decreases path.len(),
{
    match node {
        StaticView::Container { children, .. } => {
            &&& path.len() >= 1
            &&& 0 <= path[0] < children.len()
            &&& if path.len() == 1 {
                !in_flow(children[path[0]])
            } else {
                outside_at(children[path[0]], path.drop_first())
            }
        },
        _ => false,
    }
}

/// A tree asks the same of its container with and without a node that is outside the flow
/// of its own container, however deep in the tree the node stands.
pub proof fn lemma_pruning_keeps_demands<A>(node: StaticView<A>, path: Seq<int>)
    requires
        outside_at(node, path),
    ensures
        asks(pruned(node, path)) == asks(node),
        content(pruned(node, path)) == content(node),
        identity(pruned(node, path)) == identity(node),
    decreases path.len(),
{
    let kids = node->children;
    if path.len() == 1 {
        lemma_content_ignores_child_outside(node, path[0]);
    } else {
        let j = path[0];
        lemma_pruning_keeps_demands(kids[j], path.drop_first());
        let after = kids.update(j, pruned(kids[j], path.drop_first()));
        assert(same_demands(kids, after)) by {
            assert forall|m: int| 0 <= m < kids.len() implies asks(#[trigger] kids[m]) == asks(
                after[m],
            ) && content(kids[m]) == content(after[m]) && identity(kids[m]) == identity(
                after[m],
            ) by {
                if m != j {
                    assert(after[m] == kids[m]);
                }
            }
        }
        lemma_same_demands_same_sums(
            kids,
            after,
            node->layout.direction,
            sat(node->layout.spacing.0),
            0,
            Seq::empty(),
            kids.len(),
        );
    }
}

/// Layout error containment across subtrees: take a node that is outside the flow of its
/// container, such as one whose place cannot be found, out of the subtree of one child,
/// however deep it stands there. Every child of the container keeps its box, and every
/// other child keeps all the boxes below it as well: the errant node changes nothing in
/// the subtrees beside the one it stands in, nor in the faults of the flow.
pub proof fn lemma_errant_node_leaves_siblings<A>(
    children: Seq<StaticView<A>>,
    a: int,
    path: Seq<int>,
    i: int,
    bounds: Rect,
    layout: ContainerLayout,
)
    requires
        0 <= a < children.len(),
        outside_at(children[a], path),
        0 <= i < children.len(),
    ensures
        settled(children.update(a, pruned(children[a], path)), i, bounds, layout) == settled(
            children,
            i,
            bounds,
            layout,
        ),
        i != a ==> arrange(
            children.update(a, pruned(children[a], path))[i],
            settled(children.update(a, pruned(children[a], path)), i, bounds, layout),
        ) == arrange(children[i], settled(children, i, bounds, layout)),
        flow_faults(children.update(a, pruned(children[a], path)), bounds, layout, Seq::empty())
            == flow_faults(children, bounds, layout, Seq::empty()),
{
    let after = children.update(a, pruned(children[a], path));
    lemma_pruning_keeps_demands(children[a], path);
    assert(same_demands(children, after)) by {
        assert forall|j: int| 0 <= j < children.len() implies asks(#[trigger] children[j]) == asks(
            after[j],
        ) && content(children[j]) == content(after[j]) && identity(children[j]) == identity(
            after[j],
        ) by {
            if j != a {
                assert(after[j] == children[j]);
            }
        }
    }
    lemma_boxes_depend_on_demands(children, after, i, bounds, layout);
}

/// A child whose place cannot be found gets an empty box.
pub proof fn lemma_errant_node_gets_empty_box<A>(
    children: Seq<StaticView<A>>,
    i: int,
    bounds: Rect,
    layout: ContainerLayout,
)
    requires
        0 <= i < children.len(),
        name_fault(children, i) is Some,
    ensures
        settled(children, i, bounds, layout).width == 0,
        settled(children, i, bounds, layout).height == 0,
{
    reveal(settled);
}

} // verus!
