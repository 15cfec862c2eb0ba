//! The rules of placement: which box each node of a resolved tree gets.
//!
//! A container cuts its padding off its own box; what is left is its usable region. Its
//! flow children follow one another along the main axis in declared order. Children with a
//! length of their own take it; the others share what is left, by weight. Children that ask
//! for a place next to a sibling are put there once the flow is laid out. Every box is then
//! shifted by the child's offset and cut down to the usable region, so that no child but one
//! at a constant position ever leaves it.

use vstd::prelude::*;
use crate::layout::{Align, ContainerLayout, Direction, ItemLayout, Offset, Position, Size};
use crate::layout::geometry::{clip, grid, sat, Frame, Rect, GRID_MAX};
use crate::layout::placed::PositionedView;
use crate::vnode::format::text_of;
use crate::vnode::static_node::StaticView;

verus! {

/// What can go wrong in the layout of one container.
#[derive(Clone, Copy, Debug, PartialEq, Eq)]
pub enum LayoutFault {
    /// A child asks for a place next to a sibling that no flow child is named like.
    UnknownIdentity,
    /// A child asks for a place next to a sibling, and several flow children bear the name.
    DuplicateIdentity,
    /// The flow children with a length of their own, and the gaps between the flow
    /// children, need more room than the container has along its main axis.
    InsufficientSpace,
    /// Flow children want a share of the room, and their weights add up to zero.
    ZeroWeight,
}

/// A fault, with the place of the node it is about: the index of a child at each container
/// from the screen down. The screen holds the root as its only child, so the root is at
/// `[0]`. A fault of the flow is about the container; one of a name is about the child that
/// uses the name.
pub struct LayoutErrorView {
    pub path: Seq<usize>,
    pub fault: LayoutFault,
}

/// A length along one axis: one that the node brings along, or a weight in sharing.
pub enum Extent {
    Fixed(int),
    Share(int),
}

/// What a node asks of its container. A text goes with the flow, as large as its content.
pub open spec fn asks<A>(node: StaticView<A>) -> ItemLayout {
    match node {
        StaticView::Text(_) => ItemLayout {
            position: Position::Auto,
            align: Align::Start,
            offset: Offset::Zero,
            size: Size::Wrap,
        },
        StaticView::Item(item) => item.layout,
        StaticView::Container { item, .. } => item.layout,
    }
}

/// The name by which siblings refer to a node.
pub open spec fn identity<A>(node: StaticView<A>) -> Option<Seq<char>> {
    match node {
        StaticView::Text(_) => None,
        StaticView::Item(item) => text_of(item.id),
        StaticView::Container { item, .. } => text_of(item.id),
    }
}

/// Whether a node goes with the flow of its container.
pub open spec fn in_flow<A>(node: StaticView<A>) -> bool {
    asks(node).position is Auto
}

/// `v`, or the largest coordinate where `v` is larger.
pub open spec fn capped(v: int) -> int {
    if v > GRID_MAX {
        GRID_MAX as int
    } else {
        v
    }
}

/// The width that a size directive asks for, for content of the size `content`.
pub open spec fn width_asked(size: Size, content: (int, int)) -> Extent {
    match size {
        Size::Fill => Extent::Share(1),
        Size::FillRatio(n) => Extent::Share(n as int),
        Size::Wrap => Extent::Fixed(content.0),
        Size::Constant(w, _) => Extent::Fixed(sat(w)),
        Size::ConstantWidth(w) => Extent::Fixed(sat(w)),
        Size::ConstantHeight(_) => Extent::Fixed(content.0),
    }
}

/// The height that a size directive asks for, for content of the size `content`.
pub open spec fn height_asked(size: Size, content: (int, int)) -> Extent {
    match size {
        Size::Fill => Extent::Share(1),
        Size::FillRatio(n) => Extent::Share(n as int),
        Size::Wrap => Extent::Fixed(content.1),
        Size::Constant(_, h) => Extent::Fixed(sat(h)),
        Size::ConstantWidth(_) => Extent::Fixed(content.1),
        Size::ConstantHeight(h) => Extent::Fixed(sat(h)),
    }
}

/// The size of what a node holds, width and height: for a text its characters on one line;
/// for an item nothing; for a container its padding and what its flow children with a
/// length of their own need, gaps included. Neither is larger than the grid.
pub open spec fn content<A>(node: StaticView<A>) -> (int, int)
    decreases node, 0nat, 0nat,
{
    match node {
        StaticView::Text(text) => (capped(text.content@.len() as int), 1),
        StaticView::Item(_) => (0, 0),
        StaticView::Container { item, layout, children } => {
            let gap = sat(layout.spacing.0);
            let main = used(children, layout.direction, gap, children.len());
            let cross = tallest(children, layout.direction, children.len());
            let wide = sat(layout.padding.3) + sat(layout.padding.1);
            let high = sat(layout.padding.0) + sat(layout.padding.2);
            match layout.direction {
                Direction::Row => (capped(wide + main), capped(high + cross)),
                Direction::Column => (capped(wide + cross), capped(high + main)),
            }
        },
    }
}

/// What a child asks for along the main axis of a container with this direction.
pub open spec fn along<A>(direction: Direction, child: StaticView<A>) -> Extent
    decreases child, 1nat, 0nat,
{
    match direction {
        Direction::Row => width_asked(asks(child).size, content(child)),
        Direction::Column => height_asked(asks(child).size, content(child)),
    }
}

/// What a child asks for across the main axis.
pub open spec fn across<A>(direction: Direction, child: StaticView<A>) -> Extent
    decreases child, 1nat, 0nat,
{
    match direction {
        Direction::Row => height_asked(asks(child).size, content(child)),
        Direction::Column => width_asked(asks(child).size, content(child)),
    }
}

/// How many of the first `n` children are in the flow.
pub open spec fn flow_count<A>(children: Seq<StaticView<A>>, n: nat) -> nat
    decreases n,
{
    if n == 0 || n > children.len() {
        0
    } else {
        flow_count(children, (n - 1) as nat) + if in_flow(children[n - 1]) {
            1nat
        } else {
            0nat
        }
    }
}

/// The room along the main axis that is spoken for among the first `n` children: the
/// lengths of the flow children that bring one along, and one gap before each flow child
/// but the first.
pub open spec fn used<A>(children: Seq<StaticView<A>>, direction: Direction, gap: int, n: nat) -> int
    decreases children, n, 0nat,
{
    if n == 0 || n > children.len() {
        0
    } else {
        let before = used(children, direction, gap, (n - 1) as nat);
        let child = children[n - 1];
        if in_flow(child) {
            before + (if flow_count(children, (n - 1) as nat) > 0 {
                gap
            } else {
                0
            }) + match along(direction, child) {
                Extent::Fixed(length) => length,
                Extent::Share(_) => 0,
            }
        } else {
            before
        }
    }
}

/// The largest length across the main axis that a flow child among the first `n` brings along.
pub open spec fn tallest<A>(children: Seq<StaticView<A>>, direction: Direction, n: nat) -> int
    decreases children, n, 0nat,
{
    if n == 0 || n > children.len() {
        0
    } else {
        let before = tallest(children, direction, (n - 1) as nat);
        let child = children[n - 1];
        match across(direction, child) {
            Extent::Fixed(length) => if in_flow(child) && length > before {
                length
            } else {
                before
            },
            Extent::Share(_) => before,
        }
    }
}

/// The sum of the weights of the flow children among the first `n` that want a share.
pub open spec fn weights<A>(children: Seq<StaticView<A>>, direction: Direction, n: nat) -> int
    decreases n,
{
    if n == 0 || n > children.len() {
        0
    } else {
        weights(children, direction, (n - 1) as nat) + match along(direction, children[n - 1]) {
            Extent::Share(weight) if in_flow(children[n - 1]) => weight,
            _ => 0,
        }
    }
}

/// How many flow children among the first `n` want a share.
pub open spec fn sharers<A>(children: Seq<StaticView<A>>, direction: Direction, n: nat) -> nat
    decreases n,
{
    if n == 0 || n > children.len() {
        0
    } else {
        sharers(children, direction, (n - 1) as nat) + match along(direction, children[n - 1]) {
            Extent::Share(_) if in_flow(children[n - 1]) => 1nat,
            _ => 0nat,
        }
    }
}

/// The room that is left for sharing in `room` cells: none where more is spoken for.
pub open spec fn spare<A>(children: Seq<StaticView<A>>, direction: Direction, gap: int, room: int) -> int {
    let left = room - used(children, direction, gap, children.len());
    if left < 0 {
        0
    } else {
        left
    }
}

/// The share of `spare` cells for one weight out of `total`, rounded down.
pub open spec fn portion(spare: int, weight: int, total: int) -> int {
    if total > 0 {
        spare * weight / total
    } else {
        0
    }
}

/// The length along the main axis of the flow child at `i`.
pub open spec fn length<A>(
    children: Seq<StaticView<A>>,
    direction: Direction,
    gap: int,
    room: int,
    i: int,
) -> int {
    match along(direction, children[i]) {
        Extent::Fixed(length) => length,
        Extent::Share(weight) => portion(
            spare(children, direction, gap, room),
            weight,
            weights(children, direction, children.len()),
        ),
    }
}

/// How far from the start of the usable region the flow has come after the first `n`
/// children: the lengths of the flow children among them, and a gap after each.
pub open spec fn cursor<A>(
    children: Seq<StaticView<A>>,
    direction: Direction,
    gap: int,
    room: int,
    n: nat,
) -> int
    decreases n,
{
    if n == 0 || n > children.len() {
        0
    } else {
        cursor(children, direction, gap, room, (n - 1) as nat) + if in_flow(children[n - 1]) {
            length(children, direction, gap, room, n - 1) + gap
        } else {
            0
        }
    }
}

/// The usable region of a container: its box without the padding.
pub open spec fn usable(bounds: Rect, layout: ContainerLayout) -> Rect {
    clip(
        Frame {
            x: bounds.x + sat(layout.padding.3),
            y: bounds.y + sat(layout.padding.0),
            width: bounds.width - sat(layout.padding.3) - sat(layout.padding.1),
            height: bounds.height - sat(layout.padding.0) - sat(layout.padding.2),
        },
        bounds,
    )
}

/// Where along the main axis a region begins.
pub open spec fn main_start(direction: Direction, region: Rect) -> int {
    match direction {
        Direction::Row => region.x as int,
        Direction::Column => region.y as int,
    }
}

/// The room of a region along the main axis.
pub open spec fn main_room(direction: Direction, region: Rect) -> int {
    match direction {
        Direction::Row => region.width as int,
        Direction::Column => region.height as int,
    }
}

/// Where across the main axis a region begins.
pub open spec fn cross_start(direction: Direction, region: Rect) -> int {
    match direction {
        Direction::Row => region.y as int,
        Direction::Column => region.x as int,
    }
}

/// The room of a region across the main axis.
pub open spec fn cross_room(direction: Direction, region: Rect) -> int {
    match direction {
        Direction::Row => region.height as int,
        Direction::Column => region.width as int,
    }
}

/// The frame that begins at `start` and is `length` long on the main axis, and begins at
/// `side` and is `breadth` long across it.
pub open spec fn oriented(direction: Direction, start: int, length: int, side: int, breadth: int) -> Frame {
    match direction {
        Direction::Row => Frame { x: start, y: side, width: length, height: breadth },
        Direction::Column => Frame { x: side, y: start, width: breadth, height: length },
    }
}

/// How far from the start of the line a child of the length `breadth` stands across the
/// main axis, in a line of `room` cells. In a row `Bottom` puts it at the end, in a column
/// `Right` does; `Center` puts it in the middle; everything else leaves it at the start, and
/// so does a child that is as long as the line or longer.
pub open spec fn aligned(direction: Direction, align: Align, room: int, breadth: int) -> int {
    if breadth >= room {
        0
    } else {
        match (direction, align) {
            (_, Align::Center) => (room - breadth) / 2,
            (Direction::Row, Align::Bottom) => room - breadth,
            (Direction::Column, Align::Right) => room - breadth,
            _ => 0,
        }
    }
}

/// The frame that the flow gives the child at `i` in the usable region `region`.
pub open spec fn flow_frame<A>(
    children: Seq<StaticView<A>>,
    i: int,
    region: Rect,
    layout: ContainerLayout,
) -> Frame {
    let direction = layout.direction;
    let gap = sat(layout.spacing.0);
    let room = main_room(direction, region);
    let start = main_start(direction, region) + cursor(children, direction, gap, room, i as nat);
    let length = length(children, direction, gap, room, i);
    match across(direction, children[i]) {
        Extent::Fixed(breadth) => oriented(
            direction,
            start,
            length,
            cross_start(direction, region) + aligned(
                direction,
                asks(children[i]).align,
                cross_room(direction, region),
                breadth,
            ),
            breadth,
        ),
        Extent::Share(_) => oriented(
            direction,
            start,
            length,
            cross_start(direction, region),
            cross_room(direction, region),
        ),
    }
}

/// How many flow children among the first `n` are named `name`.
pub open spec fn named<A>(children: Seq<StaticView<A>>, name: Seq<char>, n: nat) -> nat
    decreases n,
{
    if n == 0 || n > children.len() {
        0
    } else {
        named(children, name, (n - 1) as nat) + if in_flow(children[n - 1]) && identity(
            children[n - 1],
        ) == Some(name) {
            1nat
        } else {
            0nat
        }
    }
}

/// The first flow child among the first `n` that is named `name`; `-1` where there is none.
pub open spec fn first_named<A>(children: Seq<StaticView<A>>, name: Seq<char>, n: nat) -> int
    decreases n,
{
    if n == 0 || n > children.len() {
        -1
    } else if first_named(children, name, (n - 1) as nat) >= 0 {
        first_named(children, name, (n - 1) as nat)
    } else if in_flow(children[n - 1]) && identity(children[n - 1]) == Some(name) {
        n - 1
    } else {
        -1
    }
}

/// The name of the sibling next to which a position asks to be.
pub open spec fn anchor_name(position: Position) -> Option<Seq<char>> {
    match position {
        Position::Top(name) => Some(name@),
        Position::Bottom(name) => Some(name@),
        Position::Left(name) => Some(name@),
        Position::Right(name) => Some(name@),
        _ => None,
    }
}

/// The size of a child outside the flow: a length of its own where it brings one along,
/// else that of the usable region.
pub open spec fn free_size<A>(child: StaticView<A>, region: Rect) -> (int, int) {
    (
        match width_asked(asks(child).size, content(child)) {
            Extent::Fixed(w) => w,
            Extent::Share(_) => region.width as int,
        },
        match height_asked(asks(child).size, content(child)) {
            Extent::Fixed(h) => h,
            Extent::Share(_) => region.height as int,
        },
    )
}

/// The frame of a child of the size `size` outside the flow: with one of its edges on the
/// opposite edge of the sibling's box `beside`, or at its offset from the origin of the
/// container's box `bounds`.
pub open spec fn free_frame(position: Position, beside: Rect, bounds: Rect, size: (int, int)) -> Frame {
    match position {
        Position::Top(_) => Frame { x: beside.x as int, y: beside.bottom(), width: size.0, height: size.1 },
        Position::Bottom(_) => Frame {
            x: beside.x as int,
            y: beside.y - size.1,
            width: size.0,
            height: size.1,
        },
        Position::Left(_) => Frame { x: beside.right(), y: beside.y as int, width: size.0, height: size.1 },
        Position::Right(_) => Frame {
            x: beside.x - size.0,
            y: beside.y as int,
            width: size.0,
            height: size.1,
        },
        Position::Constant(x, y) => Frame {
            x: bounds.x + sat(x),
            y: bounds.y + sat(y),
            width: size.0,
            height: size.1,
        },
        Position::Auto => Frame { x: bounds.x as int, y: bounds.y as int, width: size.0, height: size.1 },
    }
}

/// The region that a child must stay in: the usable region of its container, or the whole
/// grid for a child at a constant position.
pub open spec fn confines(position: Position, region: Rect) -> Rect {
    match position {
        Position::Constant(_, _) => grid(),
        _ => region,
    }
}

/// The fault in the place that the child at `i` asks for, if there is one.
pub open spec fn name_fault<A>(children: Seq<StaticView<A>>, i: int) -> Option<LayoutFault> {
    match anchor_name(asks(children[i]).position) {
        Some(name) => {
            let count = named(children, name, children.len());
            if count == 0 {
                Some(LayoutFault::UnknownIdentity)
            } else if count > 1 {
                Some(LayoutFault::DuplicateIdentity)
            } else {
                None
            }
        },
        None => None,
    }
}

/// The box in which the child at `i` is placed, before its offset is applied. A child whose
/// place cannot be found gets an empty box at the origin of the usable region.
pub open spec fn placed<A>(
    children: Seq<StaticView<A>>,
    i: int,
    bounds: Rect,
    layout: ContainerLayout,
) -> Rect {
    let region = usable(bounds, layout);
    let child = children[i];
    let position = asks(child).position;
    if in_flow(child) {
        clip(flow_frame(children, i, region, layout), region)
    } else if name_fault(children, i) is Some {
        Rect { x: region.x, y: region.y, width: 0, height: 0 }
    } else {
        let beside = match anchor_name(position) {
            Some(name) => clip(
                flow_frame(children, first_named(children, name, children.len()), region, layout),
                region,
            ),
            None => region,
        };
        clip(free_frame(position, beside, bounds, free_size(child, region)), confines(position, region))
    }
}

/// A box, moved by an offset.
pub open spec fn shifted(rect: Rect, offset: Offset) -> Frame {
    match offset {
        Offset::Zero => rect.frame(),
        Offset::Up(n) => Frame { y: rect.y - sat(n), ..rect.frame() },
        Offset::Down(n) => Frame { y: rect.y + sat(n), ..rect.frame() },
        Offset::Left(n) => Frame { x: rect.x - sat(n), ..rect.frame() },
        Offset::Right(n) => Frame { x: rect.x + sat(n), ..rect.frame() },
    }
}

/// The box of the child at `i` of a container with the box `bounds`: where it was placed,
/// moved by its offset, and cut down to the region it must stay in.
#[verifier::opaque]
pub open spec fn settled<A>(
    children: Seq<StaticView<A>>,
    i: int,
    bounds: Rect,
    layout: ContainerLayout,
) -> Rect {
    let child = children[i];
    clip(
        shifted(placed(children, i, bounds, layout), asks(child).offset),
        confines(asks(child).position, usable(bounds, layout)),
    )
}

/// The positioned tree of `node` in the box `bounds`.
pub open spec fn arrange<A>(node: StaticView<A>, bounds: Rect) -> PositionedView<A>
    decreases node,
{
    match node {
        StaticView::Text(text) => PositionedView::Text { text, bounds },
        StaticView::Item(item) => PositionedView::Item { item, bounds },
        StaticView::Container { item, layout, children } => PositionedView::Container {
            item,
            layout,
            bounds,
            children: Seq::new(
                children.len(),
                |i: int|
                    if 0 <= i < children.len() {
                        arrange(children[i], settled(children, i, bounds, layout))
                    } else {
                        PositionedView::Text { text: arbitrary(), bounds }
                    },
            ),
        },
    }
}

/// The faults of the flow of a container, reported at `path`.
pub open spec fn flow_faults<A>(
    children: Seq<StaticView<A>>,
    bounds: Rect,
    layout: ContainerLayout,
    path: Seq<usize>,
) -> Seq<LayoutErrorView> {
    let direction = layout.direction;
    let gap = sat(layout.spacing.0);
    let room = main_room(direction, usable(bounds, layout));
    let crowded = if used(children, direction, gap, children.len()) > room {
        seq![LayoutErrorView { path, fault: LayoutFault::InsufficientSpace }]
    } else {
        Seq::empty()
    };
    let weightless = if sharers(children, direction, children.len()) > 0 && weights(
        children,
        direction,
        children.len(),
    ) == 0 {
        seq![LayoutErrorView { path, fault: LayoutFault::ZeroWeight }]
    } else {
        Seq::empty()
    };
    crowded + weightless
}

/// The fault in the place of the child at `i`, reported at `path`.
pub open spec fn place_faults<A>(children: Seq<StaticView<A>>, i: int, path: Seq<usize>) -> Seq<
    LayoutErrorView,
> {
    match name_fault(children, i) {
        Some(fault) => seq![LayoutErrorView { path, fault }],
        None => Seq::empty(),
    }
}

/// The faults in the layout of `node` in the box `bounds`, in the order of a walk that
/// visits a container before its children and the children in declared order.
pub open spec fn faults<A>(node: StaticView<A>, bounds: Rect, path: Seq<usize>) -> Seq<LayoutErrorView>
    decreases node, 0nat,
{
    match node {
        StaticView::Container { item, layout, children } => flow_faults(
            children,
            bounds,
            layout,
            path,
        ) + child_faults(children, bounds, layout, path, children.len()),
        _ => Seq::empty(),
    }
}

/// The faults of the first `n` children of a container and of what lies below them.
pub open spec fn child_faults<A>(
    children: Seq<StaticView<A>>,
    bounds: Rect,
    layout: ContainerLayout,
    path: Seq<usize>,
    n: nat,
) -> Seq<LayoutErrorView>
    decreases children, n,
{
    if n == 0 || n > children.len() {
        Seq::empty()
    } else {
        child_faults(children, bounds, layout, path, (n - 1) as nat) + place_faults(
            children,
            n - 1,
            path.push((n - 1) as usize),
        ) + faults(
            children[n - 1],
            settled(children, n - 1, bounds, layout),
            path.push((n - 1) as usize),
        )
    }
}

/// The layout that places a single node in a region: a row without padding or gaps.
pub open spec fn plain() -> ContainerLayout {
    ContainerLayout {
        direction: Direction::Row,
        padding: (0usize, 0usize, 0usize, 0usize),
        spacing: (0usize, 0usize),
    }
}

/// The region of the screen at `position` of the size `size`, as far as it lies on the grid.
pub open spec fn screen(position: (u16, u16), size: (u16, u16)) -> Rect {
    clip(
        Frame {
            x: position.0 as int,
            y: position.1 as int,
            width: size.0 as int,
            height: size.1 as int,
        },
        grid(),
    )
}

/// The positioned tree of `root` in `region`: the root is placed as the only child of a
/// plain container that fills the region.
pub open spec fn layout_of<A>(root: StaticView<A>, region: Rect) -> PositionedView<A> {
    arrange(root, settled(seq![root], 0, region, plain()))
}

/// The faults in the layout of `root` in `region`. The paths begin at the screen, whose only
/// child is the root.
pub open spec fn faults_of<A>(root: StaticView<A>, region: Rect) -> Seq<LayoutErrorView> {
    flow_faults(seq![root], region, plain(), Seq::empty()) + child_faults(
        seq![root],
        region,
        plain(),
        Seq::empty(),
        1,
    )
}

} // verus!
