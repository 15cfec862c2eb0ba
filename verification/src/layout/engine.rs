//! The layout pass: from a resolved tree and a region of the screen to the positioned tree.

use vstd::prelude::*;
use vstd::string::*;
use crate::layout::{Align, ContainerLayout, Direction, Offset, Position, Size};
use crate::layout::geometry::{
    clip, clip_to, grid, lemma_clip_beyond, lemma_clip_within, sat, Frame, Rect, GRID_MAX,
};
use crate::layout::placed::{
    lemma_positioned_container_view, positioned_views_of, PositionedContainer, PositionedNode,
    PositionedView,
};
use crate::layout::rules::{
    across, along, arrange, asks, capped, child_faults, confines, content, cross_room,
    cross_start, cursor, faults, faults_of, first_named, flow_count, flow_faults, flow_frame,
    free_size, height_asked, identity, in_flow, layout_of, length, main_room, main_start,
    name_fault, named, place_faults, placed, portion, screen, settled, sharers, shifted, spare,
    tallest, usable, used, weights, width_asked, Extent, LayoutErrorView, LayoutFault,
};
use crate::lexical::same_text;
use crate::vnode::static_node::{lemma_container_view, views_of, StaticNode, StaticView};

verus! {

/// A fault of the layout, with the place of the node it is about.
#[derive(Debug)]
pub struct LayoutError {
    /// The index of a child at each container from the screen down. The screen holds the
    /// root as its only child, so the root is at `[0]`.
    pub path: Vec<usize>,
    pub fault: LayoutFault,
}

impl View for LayoutError {
    type V = LayoutErrorView;

    open spec fn view(&self) -> LayoutErrorView {
        LayoutErrorView { path: self.path@, fault: self.fault }
    }
}

/// The faults of a list of errors, one for one.
pub open spec fn faults_in(errors: Seq<LayoutError>) -> Seq<LayoutErrorView> {
    Seq::new(errors.len(), |i: int| errors[i]@)
}

/// A directive's number as a length on the grid.
pub fn saturate(n: usize) -> (r: u16)
    ensures
        r == sat(n),
{
    if n > GRID_MAX as usize {
        GRID_MAX
    } else {
        n as u16
    }
}

/// What a node asks of its container, ready to hand.
struct Asked<'a> {
    /// `None` for a node in the flow.
    position: Option<&'a Position>,
    align: Align,
    offset: Offset,
    size: Size,
}

fn asked<'a, A>(node: &'a StaticNode<A>) -> (r: Asked<'a>)
    ensures
        match r.position {
            Some(p) => *p == asks(node@).position && !(p is Auto),
            None => asks(node@).position is Auto,
        },
        r.align == asks(node@).align,
        r.offset == asks(node@).offset,
        r.size == asks(node@).size,
{
    match node {
        StaticNode::Text(_) => Asked {
            position: None,
            align: Align::Start,
            offset: Offset::Zero,
            size: Size::Wrap,
        },
        StaticNode::Item(item) => Asked {
            position: match &item.layout.position {
                Position::Auto => None,
                other => Some(other),
            },
            align: item.layout.align,
            offset: item.layout.offset,
            size: item.layout.size,
        },
        StaticNode::Container(c) => {
            proof {
                lemma_container_view(*node);
            }
            Asked {
                position: match &c.item.layout.position {
                    Position::Auto => None,
                    other => Some(other),
                },
                align: c.item.layout.align,
                offset: c.item.layout.offset,
                size: c.item.layout.size,
            }
        },
    }
}

/// A length along one axis, as the pass holds it.
enum Ask {
    Fixed(u16),
    Share(usize),
}

impl Ask {
    spec fn extent(self) -> Extent {
        match self {
            Ask::Fixed(length) => Extent::Fixed(length as int),
            Ask::Share(weight) => Extent::Share(weight as int),
        }
    }
}

fn ask_width(size: Size, content: (u16, u16)) -> (r: Ask)
    ensures
        r.extent() == width_asked(size, (content.0 as int, content.1 as int)),
{
    match size {
        Size::Fill => Ask::Share(1),
        Size::FillRatio(n) => Ask::Share(n),
        Size::Wrap => Ask::Fixed(content.0),
        Size::Constant(w, _) => Ask::Fixed(saturate(w)),
        Size::ConstantWidth(w) => Ask::Fixed(saturate(w)),
        Size::ConstantHeight(_) => Ask::Fixed(content.0),
    }
}

fn ask_height(size: Size, content: (u16, u16)) -> (r: Ask)
    ensures
        r.extent() == height_asked(size, (content.0 as int, content.1 as int)),
{
    match size {
        Size::Fill => Ask::Share(1),
        Size::FillRatio(n) => Ask::Share(n),
        Size::Wrap => Ask::Fixed(content.1),
        Size::Constant(_, h) => Ask::Fixed(saturate(h)),
        Size::ConstantWidth(_) => Ask::Fixed(content.1),
        Size::ConstantHeight(h) => Ask::Fixed(saturate(h)),
    }
}

/// The sum of two lengths, or the largest coordinate where the sum is larger.
fn add_capped(a: u16, b: u32) -> (r: u16)
    requires
        b <= 0x2_0000,
    ensures
        r == capped(a + b),
{
    let sum: u32 = a as u32 + b;
    if sum > GRID_MAX as u32 {
        GRID_MAX
    } else {
        sum as u16
    }
}

/// From this on the pass stops counting room that is spoken for: no region has as much.
pub const CROWDED: u32 = 0x1_0000;

/// `v`, or `CROWDED` where `v` is larger.
pub open spec fn crowd(v: int) -> int {
    if v > CROWDED {
        CROWDED as int
    } else {
        v
    }
}

/// What the flow children of a container come to.
struct Tally {
    /// The room that is spoken for, up to `CROWDED`.
    used: u32,
    /// The sum of the weights of those that want a share.
    weights: u128,
    /// How many want a share.
    sharers: usize,
    /// The largest length across the main axis that one brings along.
    tallest: u16,
}

/// The lengths that a node with these directives asks for along and across the main axis.
fn extents<A>(node: &StaticNode<A>, size: Size, direction: Direction) -> (r: (Ask, Ask))
    requires
        size == asks(node@).size,
    ensures
        r.0.extent() == along(direction, node@),
        r.1.extent() == across(direction, node@),
    decreases node@, 1nat,
{
    let own: (u16, u16) = match size {
        Size::Fill | Size::FillRatio(_) | Size::Constant(_, _) => (0, 0),
        _ => measure(node),
    };
    match direction {
        Direction::Row => (ask_width(size, own), ask_height(size, own)),
        Direction::Column => (ask_height(size, own), ask_width(size, own)),
    }
}

/// What the flow children of a container come to is never negative, and no length that
/// one brings along is larger than the grid.
pub proof fn lemma_used_bounds<A>(
    children: Seq<StaticView<A>>,
    direction: Direction,
    gap: int,
    n: nat,
)
    requires
        0 <= gap,
    ensures
        0 <= used(children, direction, gap, n),
        0 <= tallest(children, direction, n) <= GRID_MAX,
        0 <= weights(children, direction, n) <= n * usize::MAX,
        sharers(children, direction, n) <= n,
        flow_count(children, n) <= n,
    decreases children, n,
{
    if n > 0 && n <= children.len() {
        lemma_used_bounds(children, direction, gap, (n - 1) as nat);
        lemma_content_bounds(children[n - 1]);
        assert((n - 1) * usize::MAX + usize::MAX == n * usize::MAX) by (nonlinear_arith);
    }
}

/// The content of a node is no larger than the grid, and so is every length it asks for.
pub proof fn lemma_content_bounds<A>(node: StaticView<A>)
    ensures
        0 <= content(node).0 <= GRID_MAX,
        0 <= content(node).1 <= GRID_MAX,
        along(Direction::Row, node) matches Extent::Fixed(l) ==> 0 <= l <= GRID_MAX,
        along(Direction::Column, node) matches Extent::Fixed(l) ==> 0 <= l <= GRID_MAX,
        across(Direction::Row, node) matches Extent::Fixed(l) ==> 0 <= l <= GRID_MAX,
        across(Direction::Column, node) matches Extent::Fixed(l) ==> 0 <= l <= GRID_MAX,
        along(Direction::Row, node) matches Extent::Share(w) ==> 0 <= w <= usize::MAX,
        along(Direction::Column, node) matches Extent::Share(w) ==> 0 <= w <= usize::MAX,
    decreases node,
{
    match node {
        StaticView::Container { item, layout, children } => {
            lemma_used_bounds(children, layout.direction, sat(layout.spacing.0), children.len());
        },
        _ => {},
    }
}

/// The tally of the flow children of a container.
fn tally<A>(children: &[StaticNode<A>], direction: Direction, gap: u16) -> (r: Tally)
    ensures
        r.used == crowd(used(views_of(children@), direction, gap as int, children@.len())),
        r.weights == weights(views_of(children@), direction, children@.len()),
        r.sharers == sharers(views_of(children@), direction, children@.len()),
        r.tallest == tallest(views_of(children@), direction, children@.len()),
    decreases views_of(children@), 0nat,
{
    let ghost kids = views_of(children@);
    let mut t = Tally { used: 0, weights: 0, sharers: 0, tallest: 0 };
    let mut flows: usize = 0;
    let mut i: usize = 0;
    while i < children.len()
        invariant
            kids == views_of(children@),
            i <= children@.len(),
            t.used == crowd(used(kids, direction, gap as int, i as nat)),
            t.weights == weights(kids, direction, i as nat),
            t.sharers == sharers(kids, direction, i as nat),
            t.tallest == tallest(kids, direction, i as nat),
            flows == flow_count(kids, i as nat),
        decreases children@.len() - i,
    {
        let child = &children[i];
        proof {
            assert(kids[i as int] == child@);
            lemma_used_bounds(kids, direction, gap as int, i as nat);
            lemma_used_bounds(kids, direction, gap as int, (i + 1) as nat);
            lemma_content_bounds(child@);
            assert(i * usize::MAX + usize::MAX <= usize::MAX * usize::MAX) by (nonlinear_arith)
                requires
                    i < usize::MAX,
            ;
            assert(usize::MAX * usize::MAX <= 0xFFFF_FFFF_FFFF_FFFF * 0xFFFF_FFFF_FFFF_FFFF)
                by (nonlinear_arith)
                requires
                    usize::MAX <= 0xFFFF_FFFF_FFFF_FFFF,
            ;
        }
        let a = asked(child);
        let (main, cross) = extents(child, a.size, direction);
        if a.position.is_none() {
            let lead: u32 = if flows > 0 {
                gap as u32
            } else {
                0
            };
            match main {
                Ask::Fixed(length) => {
                    let sum: u32 = t.used + lead + length as u32;
                    t.used = if sum > CROWDED {
                        CROWDED
                    } else {
                        sum
                    };
                },
                Ask::Share(weight) => {
                    let sum: u32 = t.used + lead;
                    t.used = if sum > CROWDED {
                        CROWDED
                    } else {
                        sum
                    };
                    t.weights = t.weights + weight as u128;
                    t.sharers = t.sharers + 1;
                },
            }
            match cross {
                Ask::Fixed(length) => {
                    if length > t.tallest {
                        t.tallest = length;
                    }
                },
                Ask::Share(_) => {},
            }
            flows = flows + 1;
        }
        i += 1;
    }
    t
}

/// The size of what a node holds: its width and its height.
pub fn measure<A>(node: &StaticNode<A>) -> (r: (u16, u16))
    ensures
        (r.0 as int, r.1 as int) == content(node@),
    decreases node@, 0nat,
{
    match node {
        StaticNode::Text(text) => {
            let n = text.content().unicode_len();
            (saturate(n), 1)
        },
        StaticNode::Item(_) => (0, 0),
        StaticNode::Container(c) => {
            proof {
                lemma_container_view(*node);
                assert(node@->children == views_of(c.children@));
                assert(decreases_to!(node@ => node@->children));
            }
            let t = tally(c.children.as_slice(), c.layout.direction, saturate(c.layout.spacing.0));
            let wide: u32 = saturate(c.layout.padding.3) as u32 + saturate(c.layout.padding.1) as u32;
            let high: u32 = saturate(c.layout.padding.0) as u32 + saturate(c.layout.padding.2) as u32;
            let main: u16 = if t.used > GRID_MAX as u32 {
                GRID_MAX
            } else {
                t.used as u16
            };
            match c.layout.direction {
                Direction::Row => (add_capped(main, wide), add_capped(t.tallest, high)),
                Direction::Column => (add_capped(t.tallest, wide), add_capped(main, high)),
            }
        },
    }
}

/// The usable region of a container with the box `bounds`.
fn inner(bounds: Rect, layout: &ContainerLayout) -> (r: Rect)
    requires
        bounds.on_grid(),
    ensures
        r == usable(bounds, *layout),
        r.on_grid(),
        r.within(bounds),
{
    let top: i64 = saturate(layout.padding.0) as i64;
    let right: i64 = saturate(layout.padding.1) as i64;
    let bottom: i64 = saturate(layout.padding.2) as i64;
    let left: i64 = saturate(layout.padding.3) as i64;
    clip_to(
        bounds.x as i64 + left,
        bounds.y as i64 + top,
        bounds.width as i64 - left - right,
        bounds.height as i64 - top - bottom,
        bounds,
    )
}

/// The share of `spare` cells for one weight out of `total`.
fn portion_of(spare: u16, weight: usize, total: u128) -> (r: u16)
    requires
        weight <= total,
    ensures
        r == portion(spare as int, weight as int, total as int),
        r <= spare,
{
    if total == 0 {
        0
    } else {
        proof {
            let s = spare as int;
            let w = weight as int;
            let t = total as int;
            assert(s * w <= 0xFFFF * 0xFFFF_FFFF_FFFF_FFFF) by (nonlinear_arith)
                requires
                    0 <= s <= 0xFFFF,
                    0 <= w <= 0xFFFF_FFFF_FFFF_FFFF,
            ;
            assert(0 <= s * w / t <= s) by (nonlinear_arith)
                requires
                    0 <= s,
                    0 <= w <= t,
                    0 < t,
            ;
        }
        let product: u128 = spare as u128 * weight as u128;
        (product / total) as u16
    }
}

/// The weight of a flow child that wants a share is part of the sum of the weights.
pub proof fn lemma_weight_counts<A>(
    children: Seq<StaticView<A>>,
    direction: Direction,
    i: int,
    n: nat,
)
    requires
        0 <= i < n <= children.len(),
        in_flow(children[i]),
        along(direction, children[i]) is Share,
    ensures
        0 <= along(direction, children[i])->Share_0 <= weights(children, direction, n),
        sharers(children, direction, n) > 0,
    decreases n,
{
    lemma_content_bounds(children[i]);
    lemma_used_bounds(children, direction, 0, (n - 1) as nat);
    lemma_content_bounds(children[n - 1]);
    if i < n - 1 {
        lemma_weight_counts(children, direction, i, (n - 1) as nat);
    }
}

/// How far the flow has come is never negative.
pub proof fn lemma_cursor_bounds<A>(
    children: Seq<StaticView<A>>,
    direction: Direction,
    gap: int,
    room: int,
    n: nat,
)
    requires
        0 <= gap,
        0 <= room <= GRID_MAX,
        n <= children.len(),
    ensures
        0 <= cursor(children, direction, gap, room, n),
        n < children.len() && in_flow(children[n as int]) ==> 0 <= length(
            children,
            direction,
            gap,
            room,
            n as int,
        ) <= GRID_MAX,
    decreases n,
{
    if n > 0 {
        lemma_cursor_bounds(children, direction, gap, room, (n - 1) as nat);
    }
    if n < children.len() && in_flow(children[n as int]) {
        lemma_length_bounds(children, direction, gap, room, n as int);
    }
}

/// The length of a flow child is a length on the grid.
pub proof fn lemma_length_bounds<A>(
    children: Seq<StaticView<A>>,
    direction: Direction,
    gap: int,
    room: int,
    i: int,
)
    requires
        0 <= gap,
        0 <= room,
        0 <= i < children.len(),
        in_flow(children[i]),
    ensures
        0 <= length(children, direction, gap, room, i) <= if along(direction, children[i]) is Share {
            room
        } else {
            GRID_MAX as int
        },
{
    lemma_content_bounds(children[i]);
    if along(direction, children[i]) is Share {
        lemma_weight_counts(children, direction, i, children.len());
        lemma_used_bounds(children, direction, gap, children.len());
        let s = spare(children, direction, gap, room);
        let w = along(direction, children[i])->Share_0;
        let t = weights(children, direction, children.len());
        if t > 0 {
            assert(0 <= s * w / t <= s) by (nonlinear_arith)
                requires
                    0 <= s,
                    0 <= w <= t,
                    0 < t,
            ;
        }
    }
}

/// The boxes that the flow gives the children of a container, one for each child; for a
/// child outside the flow an empty box that nothing reads.
fn flow_boxes<A>(children: &[StaticNode<A>], region: Rect, layout: &ContainerLayout, t: &Tally) -> (r:
    Vec<Rect>)
    requires
        region.on_grid(),
        t.used == crowd(
            used(views_of(children@), layout.direction, sat(layout.spacing.0), children@.len()),
        ),
        t.weights == weights(views_of(children@), layout.direction, children@.len()),
    ensures
        r@.len() == children@.len(),
        forall|i: int|
            0 <= i < children@.len() && in_flow(#[trigger] views_of(children@)[i]) ==> r@[i] == clip(
                flow_frame(views_of(children@), i, region, *layout),
                region,
            ),
    decreases views_of(children@), 2nat,
{
    let ghost kids = views_of(children@);
    let direction = layout.direction;
    let gap: u16 = saturate(layout.spacing.0);
    let (start, room, side, breadth): (u16, u16, u16, u16) = match direction {
        Direction::Row => (region.x, region.width, region.y, region.height),
        Direction::Column => (region.y, region.height, region.x, region.width),
    };
    let left: u16 = if t.used > room as u32 {
        0
    } else {
        (room as u32 - t.used) as u16
    };
    proof {
        lemma_used_bounds(kids, direction, gap as int, kids.len());
        assert(left == spare(kids, direction, gap as int, room as int));
    }
    let mut boxes: Vec<Rect> = Vec::new();
    let mut at: u32 = 0;
    let mut i: usize = 0;
    while i < children.len()
        invariant
            region.on_grid(),
            kids == views_of(children@),
            direction == layout.direction,
            gap == sat(layout.spacing.0),
            start == main_start(direction, region),
            room == main_room(direction, region),
            side == cross_start(direction, region),
            breadth == cross_room(direction, region),
            left == spare(kids, direction, gap as int, room as int),
            t.weights == weights(kids, direction, kids.len()),
            i <= children@.len(),
            boxes@.len() == i,
            at == crowd(cursor(kids, direction, gap as int, room as int, i as nat)),
            forall|j: int|
                0 <= j < i && in_flow(#[trigger] kids[j]) ==> boxes@[j] == clip(
                    flow_frame(kids, j, region, *layout),
                    region,
                ),
        decreases children@.len() - i,
    {
        let child = &children[i];
        let a = asked(child);
        proof {
            assert(kids[i as int] == child@);
            lemma_cursor_bounds(kids, direction, gap as int, room as int, i as nat);
            lemma_cursor_bounds(kids, direction, gap as int, room as int, (i + 1) as nat);
        }
        if a.position.is_none() {
            let (main, cross) = extents(child, a.size, direction);
            proof {
                lemma_content_bounds(child@);
                if main is Share {
                    lemma_weight_counts(kids, direction, i as int, kids.len());
                }
            }
            let long: u16 = match main {
                Ask::Fixed(l) => l,
                Ask::Share(w) => portion_of(left, w, t.weights),
            };
            assert(long == length(kids, direction, gap as int, room as int, i as int));
            let (across_at, wide): (i64, i64) = match cross {
                Ask::Fixed(b) => {
                    let shift: i64 = if b >= breadth {
                        0
                    } else {
                        match (direction, a.align) {
                            (_, Align::Center) => ((breadth - b) / 2) as i64,
                            (Direction::Row, Align::Bottom) => (breadth - b) as i64,
                            (Direction::Column, Align::Right) => (breadth - b) as i64,
                            _ => 0,
                        }
                    };
                    (side as i64 + shift, b as i64)
                },
                Ask::Share(_) => (side as i64, breadth as i64),
            };
            let along_at: i64 = start as i64 + at as i64;
            let found = match direction {
                Direction::Row => clip_to(along_at, across_at, long as i64, wide, region),
                Direction::Column => clip_to(across_at, along_at, wide, long as i64, region),
            };
            proof {
                let exact = flow_frame(kids, i as int, region, *layout);
                let taken = match direction {
                    Direction::Row => Frame {
                        x: along_at as int,
                        y: across_at as int,
                        width: long as int,
                        height: wide as int,
                    },
                    Direction::Column => Frame {
                        x: across_at as int,
                        y: along_at as int,
                        width: wide as int,
                        height: long as int,
                    },
                };
                lemma_clip_beyond(exact, taken, region);
            }
            boxes.push(found);
            let next: u32 = at + long as u32 + gap as u32;
            at = if next > CROWDED {
                CROWDED
            } else {
                next
            };
        } else {
            boxes.push(Rect { x: region.x, y: region.y, width: 0, height: 0 });
        }
        i += 1;
    }
    boxes
}

/// The name by which siblings refer to `node`.
fn name_of<A>(node: &StaticNode<A>) -> (r: Option<&str>)
    ensures
        match r {
            Some(name) => identity(node@) == Some(name@),
            None => identity(node@) is None,
        },
{
    match node {
        StaticNode::Text(_) => None,
        StaticNode::Item(item) => item.id(),
        StaticNode::Container(c) => {
            proof {
                lemma_container_view(*node);
            }
            c.item.id()
        },
    }
}

/// Where there is a flow child of a name among the first `n`, the first of them is one.
pub proof fn lemma_first_named<A>(children: Seq<StaticView<A>>, name: Seq<char>, n: nat)
    requires
        n <= children.len(),
    ensures
        named(children, name, n) > 0 <==> first_named(children, name, n) >= 0,
        first_named(children, name, n) >= 0 ==> {
            let first = first_named(children, name, n);
            first < n && in_flow(children[first]) && identity(children[first]) == Some(name)
        },
    decreases n,
{
    if n > 0 {
        lemma_first_named(children, name, (n - 1) as nat);
    }
}

/// How many flow children are named `name`, counted up to two, and the first of them.
fn find_named<A>(children: &[StaticNode<A>], name: &str) -> (r: (u8, usize))
    ensures
        r.0 as nat == if named(views_of(children@), name@, children@.len()) > 2 {
            2
        } else {
            named(views_of(children@), name@, children@.len())
        },
        r.0 > 0 ==> r.1 == first_named(views_of(children@), name@, children@.len()) && r.1
            < children@.len(),
{
    let ghost kids = views_of(children@);
    let mut count: u8 = 0;
    let mut first: usize = 0;
    let mut i: usize = 0;
    while i < children.len()
        invariant
            kids == views_of(children@),
            i <= children@.len(),
            count as nat == if named(kids, name@, i as nat) > 2 {
                2
            } else {
                named(kids, name@, i as nat)
            },
            count > 0 ==> first == first_named(kids, name@, i as nat) && first < i,
        decreases children@.len() - i,
    {
        let child = &children[i];
        proof {
            assert(kids[i as int] == child@);
            lemma_first_named(kids, name@, i as nat);
        }
        let a = asked(child);
        let here = a.position.is_none() && match name_of(child) {
            Some(other) => same_text(other, name),
            None => false,
        };
        if here {
            if count == 0 {
                first = i;
            }
            if count < 2 {
                count = count + 1;
            }
        }
        i += 1;
    }
    (count, first)
}

/// The box in which a child outside the flow is placed, and the fault in the place it asks
/// for.
fn place_free<A>(
    children: &[StaticNode<A>],
    i: usize,
    position: &Position,
    size: Size,
    bounds: Rect,
    region: Rect,
    layout: &ContainerLayout,
    boxes: &Vec<Rect>,
) -> (r: (Rect, Option<LayoutFault>))
    requires
        bounds.on_grid(),
        region == usable(bounds, *layout),
        i < children@.len(),
        *position == asks(views_of(children@)[i as int]).position,
        !(position is Auto),
        size == asks(views_of(children@)[i as int]).size,
        boxes@.len() == children@.len(),
        forall|j: int|
            0 <= j < children@.len() && in_flow(#[trigger] views_of(children@)[j]) ==> boxes@[j]
                == clip(flow_frame(views_of(children@), j, region, *layout), region),
    ensures
        r.0 == placed(views_of(children@), i as int, bounds, *layout),
        r.1 == name_fault(views_of(children@), i as int),
    decreases views_of(children@), 2nat,
{
    let ghost kids = views_of(children@);
    let child = &children[i];
    proof {
        assert(kids[i as int] == child@);
        lemma_clip_within(
            Frame {
                x: bounds.x + sat(layout.padding.3),
                y: bounds.y + sat(layout.padding.0),
                width: bounds.width - sat(layout.padding.3) - sat(layout.padding.1),
                height: bounds.height - sat(layout.padding.0) - sat(layout.padding.2),
            },
            bounds,
        );
        lemma_content_bounds(child@);
    }
    let own: (u16, u16) = match size {
        Size::Fill | Size::FillRatio(_) | Size::Constant(_, _) => (0, 0),
        _ => measure(child),
    };
    let w: i64 = match ask_width(size, own) {
        Ask::Fixed(w) => w as i64,
        Ask::Share(_) => region.width as i64,
    };
    let h: i64 = match ask_height(size, own) {
        Ask::Fixed(h) => h as i64,
        Ask::Share(_) => region.height as i64,
    };
    assert((w as int, h as int) == free_size(child@, region));
    let nowhere = Rect { x: region.x, y: region.y, width: 0, height: 0 };
    match position {
        Position::Constant(x, y) => {
            let whole = Rect { x: 0, y: 0, width: GRID_MAX, height: GRID_MAX };
            (
                clip_to(
                    bounds.x as i64 + saturate(*x) as i64,
                    bounds.y as i64 + saturate(*y) as i64,
                    w,
                    h,
                    whole,
                ),
                None,
            )
        },
        Position::Auto => (nowhere, None),
        Position::Top(name) | Position::Bottom(name) | Position::Left(name) | Position::Right(name) => {
            let (count, first) = find_named(children, name.as_str());
            if count == 0 {
                (nowhere, Some(LayoutFault::UnknownIdentity))
            } else if count > 1 {
                (nowhere, Some(LayoutFault::DuplicateIdentity))
            } else {
                proof {
                    lemma_first_named(kids, name@, kids.len());
                }
                let beside = boxes[first];
                proof {
                    lemma_clip_within(flow_frame(kids, first as int, region, *layout), region);
                }
                let found = match position {
                    Position::Top(_) => clip_to(
                        beside.x as i64,
                        beside.y as i64 + beside.height as i64,
                        w,
                        h,
                        region,
                    ),
                    Position::Bottom(_) => clip_to(beside.x as i64, beside.y as i64 - h, w, h, region),
                    Position::Left(_) => clip_to(
                        beside.x as i64 + beside.width as i64,
                        beside.y as i64,
                        w,
                        h,
                        region,
                    ),
                    _ => clip_to(beside.x as i64 - w, beside.y as i64, w, h, region),
                };
                (found, None)
            }
        },
    }
}

/// A box, moved by an offset and cut down to a region.
fn settle(rect: Rect, offset: Offset, confine: Rect) -> (r: Rect)
    requires
        confine.on_grid(),
    ensures
        r == clip(shifted(rect, offset), confine),
{
    let x: i64 = rect.x as i64;
    let y: i64 = rect.y as i64;
    let w: i64 = rect.width as i64;
    let h: i64 = rect.height as i64;
    match offset {
        Offset::Zero => clip_to(x, y, w, h, confine),
        Offset::Up(n) => clip_to(x, y - saturate(n) as i64, w, h, confine),
        Offset::Down(n) => clip_to(x, y + saturate(n) as i64, w, h, confine),
        Offset::Left(n) => clip_to(x - saturate(n) as i64, y, w, h, confine),
        Offset::Right(n) => clip_to(x + saturate(n) as i64, y, w, h, confine),
    }
}

/// The positioned children of a container, in declared order.
pub open spec fn arrange_children<A>(
    children: Seq<StaticView<A>>,
    bounds: Rect,
    layout: ContainerLayout,
) -> Seq<PositionedView<A>> {
    Seq::new(children.len(), |i: int| arrange(children[i], settled(children, i, bounds, layout)))
}

/// Every box that the rules hand out lies on the grid.
pub proof fn lemma_settled_on_grid<A>(
    children: Seq<StaticView<A>>,
    i: int,
    bounds: Rect,
    layout: ContainerLayout,
)
    requires
        bounds.on_grid(),
        0 <= i < children.len(),
    ensures
        usable(bounds, layout).on_grid(),
        usable(bounds, layout).within(bounds),
        settled(children, i, bounds, layout).on_grid(),
        settled(children, i, bounds, layout).within(
            confines(asks(children[i]).position, usable(bounds, layout)),
        ),
{
    reveal(settled);
    lemma_clip_within(
        Frame {
            x: bounds.x + sat(layout.padding.3),
            y: bounds.y + sat(layout.padding.0),
            width: bounds.width - sat(layout.padding.3) - sat(layout.padding.1),
            height: bounds.height - sat(layout.padding.0) - sat(layout.padding.2),
        },
        bounds,
    );
    lemma_clip_within(
        shifted(placed(children, i, bounds, layout), asks(children[i]).offset),
        confines(asks(children[i]).position, usable(bounds, layout)),
    );
}

/// Appends an error about the node at `path`.
fn report(errors: &mut Vec<LayoutError>, path: &Vec<usize>, fault: LayoutFault)
    ensures
        faults_in(final(errors)@) == faults_in(old(errors)@) + seq![
            LayoutErrorView { path: path@, fault },
        ],
{
    let ghost before = errors@;
    errors.push(LayoutError { path: path.clone(), fault });
    assert(faults_in(errors@) =~= faults_in(before) + seq![LayoutErrorView { path: path@, fault }]);
}

/// Reports the faults of the flow of a container.
fn report_flow(
    errors: &mut Vec<LayoutError>,
    path: &Vec<usize>,
    t: &Tally,
    room: u16,
) -> (r: Ghost<Seq<LayoutErrorView>>)
    ensures
        faults_in(final(errors)@) == faults_in(old(errors)@) + r@,
        r@ == (if t.used > room {
            seq![LayoutErrorView { path: path@, fault: LayoutFault::InsufficientSpace }]
        } else {
            Seq::empty()
        }) + (if t.sharers > 0 && t.weights == 0 {
            seq![LayoutErrorView { path: path@, fault: LayoutFault::ZeroWeight }]
        } else {
            Seq::empty()
        }),
{
    let ghost before = faults_in(errors@);
    let ghost mut said: Seq<LayoutErrorView> = Seq::empty();
    if t.used > room as u32 {
        report(errors, path, LayoutFault::InsufficientSpace);
        proof {
            said = said.push(LayoutErrorView { path: path@, fault: LayoutFault::InsufficientSpace });
        }
    }
    if t.sharers > 0 && t.weights == 0 {
        report(errors, path, LayoutFault::ZeroWeight);
        proof {
            said = said.push(LayoutErrorView { path: path@, fault: LayoutFault::ZeroWeight });
        }
    }
    proof {
        assert(faults_in(errors@) =~= before + said);
        assert(said =~= (if t.used > room {
            seq![LayoutErrorView { path: path@, fault: LayoutFault::InsufficientSpace }]
        } else {
            Seq::empty()
        }) + (if t.sharers > 0 && t.weights == 0 {
            seq![LayoutErrorView { path: path@, fault: LayoutFault::ZeroWeight }]
        } else {
            Seq::empty()
        }));
    }
    Ghost(said)
}

/// Places the child at `i` of a container with the box `bounds`, and what lies below it.
fn lay_child<A>(
    children: &[StaticNode<A>],
    i: usize,
    bounds: Rect,
    region: Rect,
    layout: &ContainerLayout,
    boxes: &Vec<Rect>,
    path: &mut Vec<usize>,
    errors: &mut Vec<LayoutError>,
) -> (r: PositionedNode<A>)
    requires
        bounds.on_grid(),
        region == usable(bounds, *layout),
        i < children@.len(),
        boxes@.len() == children@.len(),
        forall|j: int|
            0 <= j < children@.len() && in_flow(#[trigger] views_of(children@)[j]) ==> boxes@[j]
                == clip(flow_frame(views_of(children@), j, region, *layout), region),
    ensures
        r@ == arrange(
            views_of(children@)[i as int],
            settled(views_of(children@), i as int, bounds, *layout),
        ),
        final(path)@ == old(path)@,
        faults_in(final(errors)@) == faults_in(old(errors)@) + place_faults(
            views_of(children@),
            i as int,
            old(path)@.push(i),
        ) + faults(
            views_of(children@)[i as int],
            settled(views_of(children@), i as int, bounds, *layout),
            old(path)@.push(i),
        ),
    decreases views_of(children@), 3nat,
{
    let ghost kids = views_of(children@);
    let ghost so_far = faults_in(errors@);
    let child = &children[i];
    let a = asked(child);
    proof {
        assert(kids[i as int] == child@);
        lemma_settled_on_grid(kids, i as int, bounds, *layout);
    }
    path.push(i);
    let whole = Rect { x: 0, y: 0, width: GRID_MAX, height: GRID_MAX };
    let (spot, confine): (Rect, Rect) = match a.position {
        None => {
            assert(faults_in(errors@) =~= so_far + Seq::<LayoutErrorView>::empty());
            (boxes[i], region)
        },
        Some(position) => {
            let (spot, fault) = place_free(children, i, position, a.size, bounds, region, layout, boxes);
            match fault {
                Some(f) => report(errors, path, f),
                None => {
                    assert(faults_in(errors@) =~= so_far + Seq::<LayoutErrorView>::empty());
                },
            }
            match position {
                Position::Constant(_, _) => (spot, whole),
                _ => (spot, region),
            }
        },
    };
    assert(spot == placed(kids, i as int, bounds, *layout));
    assert(faults_in(errors@) == so_far + place_faults(kids, i as int, path@));
    let last = settle(spot, a.offset, confine);
    assert(last == settled(kids, i as int, bounds, *layout)) by {
        reveal(settled);
    }
    let node = lay_node(child, last, path, errors);
    path.pop();
    proof {
        assert(path@ =~= old(path)@);
    }
    node
}

/// Places the children of a container with the box `bounds`, and what lies below them.
fn lay_children<A>(
    children: &[StaticNode<A>],
    bounds: Rect,
    layout: &ContainerLayout,
    path: &mut Vec<usize>,
    errors: &mut Vec<LayoutError>,
) -> (r: Vec<PositionedNode<A>>)
    requires
        bounds.on_grid(),
    ensures
        positioned_views_of(r@) == arrange_children(views_of(children@), bounds, *layout),
        final(path)@ == old(path)@,
        faults_in(final(errors)@) == faults_in(old(errors)@) + flow_faults(
            views_of(children@),
            bounds,
            *layout,
            old(path)@,
        ) + child_faults(views_of(children@), bounds, *layout, old(path)@, children@.len()),
    decreases views_of(children@), 4nat,
{
    let ghost kids = views_of(children@);
    let ghost said = faults_in(errors@);
    let region = inner(bounds, layout);
    let direction = layout.direction;
    let gap = saturate(layout.spacing.0);
    let t = tally(children, direction, gap);
    let room: u16 = match direction {
        Direction::Row => region.width,
        Direction::Column => region.height,
    };
    proof {
        lemma_used_bounds(kids, direction, gap as int, kids.len());
    }
    let flow_said = report_flow(errors, path, &t, room);
    assert(flow_said@ =~= flow_faults(kids, bounds, *layout, path@));
    let boxes = flow_boxes(children, region, layout, &t);
    let mut out: Vec<PositionedNode<A>> = Vec::new();
    let mut i: usize = 0;
    let ghost base = said + flow_faults(kids, bounds, *layout, path@);
    proof {
        assert(faults_in(errors@) =~= base + child_faults(kids, bounds, *layout, path@, 0));
    }
    while i < children.len()
        invariant
            bounds.on_grid(),
            region == usable(bounds, *layout),
            kids == views_of(children@),
            i <= children@.len(),
            path@ == old(path)@,
            boxes@.len() == children@.len(),
            forall|j: int|
                0 <= j < children@.len() && in_flow(#[trigger] views_of(children@)[j])
                    ==> boxes@[j] == clip(
                    flow_frame(views_of(children@), j, region, *layout),
                    region,
                ),
            out@.len() == i,
            forall|j: int|
                0 <= j < i ==> (#[trigger] out@[j])@ == arrange(
                    kids[j],
                    settled(kids, j, bounds, *layout),
                ),
            faults_in(errors@) == base + child_faults(kids, bounds, *layout, path@, i as nat),
        decreases children@.len() - i,
    {
        let node = lay_child(children, i, bounds, region, layout, &boxes, path, errors);
        out.push(node);
        i += 1;
        proof {
            assert(faults_in(errors@) =~= base + child_faults(kids, bounds, *layout, path@, i as nat));
        }
    }
    proof {
        assert(positioned_views_of(out@) =~= arrange_children(kids, bounds, *layout));
    }
    out
}

/// Gives `node` the box `bounds` and places what lies below it.
fn lay_node<A>(
    node: &StaticNode<A>,
    bounds: Rect,
    path: &mut Vec<usize>,
    errors: &mut Vec<LayoutError>,
) -> (r: PositionedNode<A>)
    requires
        bounds.on_grid(),
    ensures
        r@ == arrange(node@, bounds),
        final(path)@ == old(path)@,
        faults_in(final(errors)@) == faults_in(old(errors)@) + faults(node@, bounds, old(path)@),
    decreases node@, 5nat,
{
    let ghost said = faults_in(errors@);
    match node {
        StaticNode::Text(text) => {
            assert(said + Seq::<LayoutErrorView>::empty() =~= said);
            PositionedNode::Text { text: text.clone(), bounds }
        },
        StaticNode::Item(item) => {
            assert(said + Seq::<LayoutErrorView>::empty() =~= said);
            PositionedNode::Item { item: item.clone(), bounds }
        },
        StaticNode::Container(c) => {
            proof {
                lemma_container_view(*node);
                assert(node@->children == views_of(c.children@));
                assert(decreases_to!(node@ => node@->children));
            }
            let children = lay_children(c.children.as_slice(), bounds, &c.layout, path, errors);
            let r = PositionedNode::Container(
                PositionedContainer {
                    item: c.item.clone(),
                    layout: c.layout.clone(),
                    bounds,
                    children,
                },
            );
            proof {
                lemma_positioned_container_view(r);
                let kids = views_of(c.children@);
                assert(arrange(node@, bounds)->children =~= arrange_children(
                    kids,
                    bounds,
                    *c.layout,
                ));
                assert(faults_in(errors@) =~= said + faults(node@, bounds, path@));
            }
            r
        },
    }
}

/// What the layout pass returns: the positioned tree, and the faults it met on the way.
#[verifier::reject_recursive_types(A)]
pub struct Layout<A> {
    pub tree: PositionedNode<A>,
    /// In the order of a walk that visits a container before its children.
    pub errors: Vec<LayoutError>,
}

/// The region of the screen at `position` of the size `size`, as far as it lies on the grid.
pub fn region_of(position: (u16, u16), size: (u16, u16)) -> (r: Rect)
    ensures
        r == screen(position, size),
        r.on_grid(),
{
    clip_to(
        position.0 as i64,
        position.1 as i64,
        size.0 as i64,
        size.1 as i64,
        Rect { x: 0, y: 0, width: GRID_MAX, height: GRID_MAX },
    )
}

/// A slice that holds the one value behind a reference.
pub assume_specification<T>[ core::slice::from_ref::<T> ](value: &T) -> (r: &[T])
    ensures
        r@ == seq![*value],
;

/// Lays out a resolved tree in the region of the screen at `position` of the size `size`.
///
/// Every node gets a box. A fault does not stop the pass: the node it is about gets what the
/// rules leave it, an empty box where its place cannot be found, and the fault is listed.
/// The path of a fault begins at the screen, whose only child is the root.
pub fn layout<A>(node: &StaticNode<A>, position: (u16, u16), size: (u16, u16)) -> (r: Layout<A>)
    ensures
        r.tree@ == layout_of(node@, screen(position, size)),
        faults_in(r.errors@) == faults_of(node@, screen(position, size)),
{
    let region = region_of(position, size);
    let lone = ContainerLayout { direction: Direction::Row, padding: (0, 0, 0, 0), spacing: (0, 0) };
    let mut errors: Vec<LayoutError> = Vec::new();
    let mut path: Vec<usize> = Vec::new();
    let root = core::slice::from_ref(node);
    proof {
        assert(views_of(root@) =~= seq![node@]);
        assert(faults_in(errors@) =~= Seq::<LayoutErrorView>::empty());
    }
    let mut placed = lay_children(root, region, &lone, &mut path, &mut errors);
    proof {
        assert(positioned_views_of(placed@).len() == 1);
        assert(positioned_views_of(placed@)[0] == placed@[0]@);
        assert(faults_in(errors@) =~= faults_of(node@, region));
    }
    match placed.pop() {
        Some(tree) => Layout { tree, errors },
        None => unreached(),
    }
}

} // verus!
