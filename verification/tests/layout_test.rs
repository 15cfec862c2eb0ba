use cinnabar::layout::engine::{layout, measure, region_of, saturate, Layout};
use cinnabar::layout::geometry::Rect;
use cinnabar::layout::placed::PositionedNode;
use cinnabar::layout::rules::LayoutFault;
use cinnabar::layout::{Align, ContainerLayout, Direction, ItemLayout, Offset, Position, Size};
use cinnabar::template::Unavailable;
use cinnabar::vnode::static_node::StaticNode;
use cinnabar::Builder;

enum Action {}

type B = Builder<Unavailable, (), Action>;

fn asks(position: Position, size: Size) -> ItemLayout {
    ItemLayout { position, align: Align::Start, offset: Offset::Zero, size }
}

fn flow(size: Size) -> ItemLayout {
    asks(Position::Auto, size)
}

fn row() -> ContainerLayout {
    ContainerLayout { direction: Direction::Row, padding: (0, 0, 0, 0), spacing: (0, 0) }
}

fn column() -> ContainerLayout {
    ContainerLayout { direction: Direction::Column, padding: (0, 0, 0, 0), spacing: (0, 0) }
}

fn item(name: &str, layout: ItemLayout) -> B {
    B::item(name).layout(layout)
}

fn resolved(builder: B) -> StaticNode<Action> {
    builder.done().unwrap().render(&()).ok().unwrap()
}

fn laid_out(builder: B, position: (u16, u16), size: (u16, u16)) -> Layout<Action> {
    layout(&resolved(builder), position, size)
}

fn rect(x: u16, y: u16, width: u16, height: u16) -> Rect {
    Rect { x, y, width, height }
}

fn child(node: &PositionedNode<Action>, i: usize) -> &PositionedNode<Action> {
    match node {
        PositionedNode::Container(c) => &c.children[i],
        _ => panic!("not a container"),
    }
}

fn faults(layout: &Layout<Action>) -> Vec<(Vec<usize>, LayoutFault)> {
    layout.errors.iter().map(|e| (e.path.clone(), e.fault)).collect()
}

fn within(inner: Rect, outer: Rect) -> bool {
    outer.x <= inner.x
        && inner.x as u32 + inner.width as u32 <= outer.x as u32 + outer.width as u32
        && outer.y <= inner.y
        && inner.y as u32 + inner.height as u32 <= outer.y as u32 + outer.height as u32
}

#[test]
fn fill_ratio_shares_the_width_by_weight() {
    let r = laid_out(
        B::container("row")
            .child(item("a", flow(Size::FillRatio(1))))
            .child(item("b", flow(Size::FillRatio(3)))),
        (0, 0),
        (100, 10),
    );
    assert_eq!(r.tree.bounds(), rect(0, 0, 100, 10));
    assert_eq!(child(&r.tree, 0).bounds(), rect(0, 0, 25, 10));
    assert_eq!(child(&r.tree, 1).bounds(), rect(25, 0, 75, 10));
    assert!(r.errors.is_empty());
}

#[test]
fn shares_are_rounded_down() {
    let r = laid_out(
        B::container("row")
            .child(item("a", flow(Size::Fill)))
            .child(item("b", flow(Size::Fill)))
            .child(item("c", flow(Size::FillRatio(1)))),
        (0, 0),
        (10, 1),
    );
    assert_eq!(child(&r.tree, 0).bounds(), rect(0, 0, 3, 1));
    assert_eq!(child(&r.tree, 1).bounds(), rect(3, 0, 3, 1));
    assert_eq!(child(&r.tree, 2).bounds(), rect(6, 0, 3, 1));
}

#[test]
fn root_text_is_as_large_as_its_content() {
    let r = laid_out(B::text("hello"), (3, 4), (80, 24));
    assert_eq!(r.tree.bounds(), rect(3, 4, 5, 1));
    let r = laid_out(B::text("héllo wörld"), (0, 0), (80, 24));
    assert_eq!(r.tree.bounds(), rect(0, 0, 11, 1));
    let r = laid_out(B::text("hello"), (0, 0), (3, 24));
    assert_eq!(r.tree.bounds(), rect(0, 0, 3, 1));
    assert_eq!(faults(&r), vec![(vec![], LayoutFault::InsufficientSpace)]);
}

#[test]
fn root_fills_the_region() {
    let r = laid_out(B::container("root"), (2, 3), (40, 20));
    assert_eq!(r.tree.bounds(), rect(2, 3, 40, 20));
    let r = laid_out(item("root", flow(Size::Constant(10, 5))), (2, 3), (40, 20));
    assert_eq!(r.tree.bounds(), rect(2, 3, 10, 5));
}

#[test]
fn region_is_cut_to_the_grid() {
    assert_eq!(region_of((65530, 0), (100, 5)), rect(65530, 0, 5, 5));
    assert_eq!(region_of((0, 65535), (7, 7)), rect(0, 65535, 7, 0));
    let r = laid_out(B::container("root"), (65530, 65500), (100, 100));
    assert_eq!(r.tree.bounds(), rect(65530, 65500, 5, 35));
}

#[test]
fn column_with_padding_and_spacing() {
    let r = laid_out(
        B::container("col")
            .arrange(ContainerLayout {
                direction: Direction::Column,
                padding: (1, 2, 3, 4),
                spacing: (1, 0),
            })
            .child(item("a", flow(Size::Constant(5, 2))))
            .child(item("b", flow(Size::Fill)))
            .child(B::text("abc")),
        (0, 0),
        (20, 10),
    );
    assert_eq!(r.tree.bounds(), rect(0, 0, 20, 10));
    assert_eq!(child(&r.tree, 0).bounds(), rect(4, 1, 5, 2));
    assert_eq!(child(&r.tree, 1).bounds(), rect(4, 4, 14, 1));
    assert_eq!(child(&r.tree, 2).bounds(), rect(4, 6, 3, 1));
    assert!(r.errors.is_empty());
}

#[test]
fn padding_larger_than_the_box_leaves_nothing() {
    let r = laid_out(
        B::container("c")
            .arrange(ContainerLayout {
                direction: Direction::Row,
                padding: (0, 30, 0, 30),
                spacing: (0, 0),
            })
            .child(item("a", flow(Size::Fill))),
        (0, 0),
        (40, 5),
    );
    assert_eq!(child(&r.tree, 0).bounds(), rect(30, 0, 0, 5));
    assert!(r.errors.is_empty());
}

#[test]
fn align_moves_a_child_across_the_flow() {
    let with = |align: Align| ItemLayout {
        position: Position::Auto,
        align,
        offset: Offset::Zero,
        size: Size::Constant(4, 2),
    };
    let r = laid_out(
        B::container("row")
            .child(item("a", with(Align::Start)))
            .child(item("b", with(Align::Top)))
            .child(item("c", with(Align::Center)))
            .child(item("d", with(Align::Bottom)))
            .child(item("e", with(Align::Right)))
            .child(item("f", with(Align::Left))),
        (0, 0),
        (40, 11),
    );
    assert_eq!(child(&r.tree, 0).bounds(), rect(0, 0, 4, 2));
    assert_eq!(child(&r.tree, 1).bounds(), rect(4, 0, 4, 2));
    assert_eq!(child(&r.tree, 2).bounds(), rect(8, 4, 4, 2));
    assert_eq!(child(&r.tree, 3).bounds(), rect(12, 9, 4, 2));
    assert_eq!(child(&r.tree, 4).bounds(), rect(16, 0, 4, 2));
    assert_eq!(child(&r.tree, 5).bounds(), rect(20, 0, 4, 2));

    let r = laid_out(
        B::container("col")
            .arrange(column())
            .child(item("c", with(Align::Center)))
            .child(item("d", with(Align::Bottom)))
            .child(item("e", with(Align::Right))),
        (0, 0),
        (11, 40),
    );
    assert_eq!(child(&r.tree, 0).bounds(), rect(3, 0, 4, 2));
    assert_eq!(child(&r.tree, 1).bounds(), rect(0, 2, 4, 2));
    assert_eq!(child(&r.tree, 2).bounds(), rect(7, 4, 4, 2));
}

#[test]
fn child_larger_than_the_line_starts_at_its_start() {
    let r = laid_out(
        B::container("row").child(item(
            "a",
            ItemLayout {
                position: Position::Auto,
                align: Align::Bottom,
                offset: Offset::Zero,
                size: Size::Constant(4, 9),
            },
        )),
        (0, 0),
        (10, 5),
    );
    assert_eq!(child(&r.tree, 0).bounds(), rect(0, 0, 4, 5));
}

#[test]
fn crowded_flow_is_reported_and_cut() {
    let r = laid_out(
        B::container("row")
            .child(item("a", flow(Size::Constant(8, 1))))
            .child(item("b", flow(Size::Constant(8, 1))))
            .child(item("c", flow(Size::Fill))),
        (0, 0),
        (10, 4),
    );
    assert_eq!(child(&r.tree, 0).bounds(), rect(0, 0, 8, 1));
    assert_eq!(child(&r.tree, 1).bounds(), rect(8, 0, 2, 1));
    assert_eq!(child(&r.tree, 2).bounds(), rect(10, 0, 0, 4));
    assert_eq!(faults(&r), vec![(vec![0], LayoutFault::InsufficientSpace)]);
}

#[test]
fn weights_of_zero_are_reported() {
    let r = laid_out(
        B::container("row")
            .child(item("a", flow(Size::FillRatio(0))))
            .child(item("b", flow(Size::Constant(3, 1)))),
        (0, 0),
        (10, 4),
    );
    assert_eq!(child(&r.tree, 0).bounds(), rect(0, 0, 0, 4));
    assert_eq!(child(&r.tree, 1).bounds(), rect(0, 0, 3, 1));
    assert_eq!(faults(&r), vec![(vec![0], LayoutFault::ZeroWeight)]);
}

#[test]
fn children_take_their_place_next_to_a_sibling() {
    let r = laid_out(
        B::container("row")
            .child(item("below", asks(Position::Top("a".to_string()), Size::Constant(4, 2))))
            .child(item("gap", flow(Size::Constant(6, 1))))
            .child(item("a", flow(Size::Constant(10, 3))).id("a"))
            .child(item("above", asks(Position::Bottom("a".to_string()), Size::Constant(4, 2))))
            .child(item("after", asks(Position::Left("a".to_string()), Size::Constant(4, 2))))
            .child(item("before", asks(Position::Right("a".to_string()), Size::Constant(4, 2))))
            .child(item("wide", asks(Position::Left("a".to_string()), Size::Fill))),
        (0, 0),
        (40, 10),
    );
    assert_eq!(child(&r.tree, 2).bounds(), rect(6, 0, 10, 3));
    assert_eq!(child(&r.tree, 0).bounds(), rect(6, 3, 4, 2));
    assert_eq!(child(&r.tree, 3).bounds(), rect(6, 0, 4, 0));
    assert_eq!(child(&r.tree, 4).bounds(), rect(16, 0, 4, 2));
    assert_eq!(child(&r.tree, 5).bounds(), rect(2, 0, 4, 2));
    assert_eq!(child(&r.tree, 6).bounds(), rect(16, 0, 24, 10));
    assert!(r.errors.is_empty());
}

#[test]
fn unknown_name_is_reported_and_siblings_keep_their_boxes() {
    let r = laid_out(
        B::container("row")
            .child(
                B::container("left")
                    .layout(flow(Size::FillRatio(1)))
                    .child(item("lost", asks(Position::Top("nobody".to_string()), Size::Constant(4, 2))))
                    .child(B::text("ok")),
            )
            .child(
                B::container("right")
                    .layout(flow(Size::FillRatio(1)))
                    .child(B::text("fine")),
            ),
        (0, 0),
        (40, 10),
    );
    assert_eq!(faults(&r), vec![(vec![0, 0, 0], LayoutFault::UnknownIdentity)]);
    let left = child(&r.tree, 0);
    let right = child(&r.tree, 1);
    assert_eq!(left.bounds(), rect(0, 0, 20, 10));
    assert_eq!(child(left, 0).bounds(), rect(0, 0, 0, 0));
    assert_eq!(child(left, 1).bounds(), rect(0, 0, 2, 1));
    assert_eq!(right.bounds(), rect(20, 0, 20, 10));
    assert_eq!(child(right, 0).bounds(), rect(20, 0, 4, 1));
}

#[test]
fn name_borne_twice_is_reported() {
    let r = laid_out(
        B::container("row")
            .child(item("a", flow(Size::Constant(2, 1))).id("twin"))
            .child(item("b", flow(Size::Constant(2, 1))).id("twin"))
            .child(item("c", asks(Position::Left("twin".to_string()), Size::Constant(1, 1)))),
        (5, 5),
        (40, 10),
    );
    assert_eq!(faults(&r), vec![(vec![0, 2], LayoutFault::DuplicateIdentity)]);
    assert_eq!(child(&r.tree, 0).bounds(), rect(5, 5, 2, 1));
    assert_eq!(child(&r.tree, 1).bounds(), rect(7, 5, 2, 1));
    assert_eq!(child(&r.tree, 2).bounds(), rect(5, 5, 0, 0));
}

#[test]
fn name_of_a_child_outside_the_flow_is_unknown() {
    let r = laid_out(
        B::container("row")
            .child(item("a", asks(Position::Constant(1, 1), Size::Constant(2, 1))).id("free"))
            .child(item("b", asks(Position::Top("free".to_string()), Size::Constant(1, 1)))),
        (0, 0),
        (40, 10),
    );
    assert_eq!(faults(&r), vec![(vec![0, 1], LayoutFault::UnknownIdentity)]);
}

#[test]
fn constant_position_is_taken_from_the_origin_and_may_leave_the_container() {
    let r = laid_out(
        B::container("row")
            .arrange(ContainerLayout {
                direction: Direction::Row,
                padding: (2, 2, 2, 2),
                spacing: (0, 0),
            })
            .child(item("a", flow(Size::Fill)))
            .child(item("out", asks(Position::Constant(50, 1), Size::Constant(7, 3))))
            .child(item("far", asks(Position::Constant(usize::MAX, 0), Size::Constant(7, 3)))),
        (5, 5),
        (10, 10),
    );
    assert_eq!(child(&r.tree, 0).bounds(), rect(7, 7, 6, 6));
    assert_eq!(child(&r.tree, 1).bounds(), rect(55, 6, 7, 3));
    assert_eq!(child(&r.tree, 2).bounds(), rect(65535, 5, 0, 3));
    assert!(r.errors.is_empty());
}

#[test]
fn offset_moves_a_child_inside_the_usable_region() {
    let moved = |offset: Offset| ItemLayout {
        position: Position::Auto,
        align: Align::Start,
        offset,
        size: Size::Constant(4, 2),
    };
    let r = laid_out(
        B::container("row")
            .child(item("a", moved(Offset::Down(3))))
            .child(item("b", moved(Offset::Right(1))))
            .child(item("c", moved(Offset::Up(1))))
            .child(item("d", moved(Offset::Left(13))))
            .child(item("e", moved(Offset::Right(usize::MAX))))
            .child(item("f", moved(Offset::Zero))),
        (10, 10),
        (40, 10),
    );
    assert_eq!(child(&r.tree, 0).bounds(), rect(10, 13, 4, 2));
    assert_eq!(child(&r.tree, 1).bounds(), rect(15, 10, 4, 2));
    assert_eq!(child(&r.tree, 2).bounds(), rect(18, 10, 4, 1));
    assert_eq!(child(&r.tree, 3).bounds(), rect(10, 10, 3, 2));
    assert_eq!(child(&r.tree, 4).bounds(), rect(50, 10, 0, 2));
    assert_eq!(child(&r.tree, 5).bounds(), rect(30, 10, 4, 2));
}

#[test]
fn wrapped_container_is_as_large_as_what_it_holds() {
    let inner = B::container("box")
        .layout(flow(Size::Wrap))
        .arrange(ContainerLayout {
            direction: Direction::Row,
            padding: (1, 1, 1, 1),
            spacing: (2, 0),
        })
        .child(B::text("hello"))
        .child(item("i", flow(Size::Constant(3, 4))))
        .child(item("f", flow(Size::Fill)))
        .child(item("free", asks(Position::Constant(0, 0), Size::Constant(90, 90))));
    assert_eq!(measure(&resolved(B::text("hello"))), (5, 1));
    assert_eq!(measure(&resolved(item("i", flow(Size::Constant(3, 4))))), (0, 0));
    let r = laid_out(B::container("row").child(inner), (0, 0), (80, 24));
    let wrapped = child(&r.tree, 0);
    assert_eq!(wrapped.bounds(), rect(0, 0, 14, 6));
    assert_eq!(child(wrapped, 0).bounds(), rect(1, 1, 5, 1));
    assert_eq!(child(wrapped, 1).bounds(), rect(8, 1, 3, 4));
    assert_eq!(child(wrapped, 2).bounds(), rect(13, 1, 0, 4));
}

#[test]
fn constant_width_takes_the_height_of_the_content() {
    let r = laid_out(
        B::container("row")
            .child(
                B::container("w")
                    .layout(flow(Size::ConstantWidth(9)))
                    .arrange(column())
                    .child(B::text("ab"))
                    .child(B::text("abcd")),
            )
            .child(
                B::container("h")
                    .layout(flow(Size::ConstantHeight(5)))
                    .arrange(column())
                    .child(B::text("ab"))
                    .child(B::text("abcd")),
            ),
        (0, 0),
        (80, 24),
    );
    assert_eq!(child(&r.tree, 0).bounds(), rect(0, 0, 9, 2));
    assert_eq!(child(&r.tree, 1).bounds(), rect(9, 0, 4, 5));
}

#[test]
fn numbers_beyond_the_grid_count_as_its_largest_coordinate() {
    assert_eq!(saturate(0), 0);
    assert_eq!(saturate(65535), 65535);
    assert_eq!(saturate(65536), 65535);
    assert_eq!(saturate(usize::MAX), 65535);
    let r = laid_out(
        B::container("row").child(item("a", flow(Size::Constant(usize::MAX, usize::MAX)))),
        (0, 0),
        (80, 24),
    );
    assert_eq!(child(&r.tree, 0).bounds(), rect(0, 0, 80, 24));
    assert_eq!(faults(&r), vec![(vec![0], LayoutFault::InsufficientSpace)]);
}

#[test]
fn large_weights_are_shared_exactly() {
    let r = laid_out(
        B::container("row")
            .child(item("a", flow(Size::FillRatio(usize::MAX))))
            .child(item("b", flow(Size::FillRatio(usize::MAX)))),
        (0, 0),
        (65535, 1),
    );
    assert_eq!(child(&r.tree, 0).bounds(), rect(0, 0, 32767, 1));
    assert_eq!(child(&r.tree, 1).bounds(), rect(32767, 0, 32767, 1));
}

fn check_contained(node: &PositionedNode<Action>) {
    if let PositionedNode::Container(c) = node {
        let pad = c.layout.padding;
        let b = c.bounds;
        let left = (pad.3.min(65535) as u32).min(b.width as u32);
        let top = (pad.0.min(65535) as u32).min(b.height as u32);
        let width = (b.width as u32).saturating_sub(pad.3.min(65535) as u32 + pad.1.min(65535) as u32);
        let height = (b.height as u32).saturating_sub(pad.0.min(65535) as u32 + pad.2.min(65535) as u32);
        let usable = rect(
            b.x + left as u16,
            b.y + top as u16,
            width as u16,
            height as u16,
        );
        for child in c.children.iter() {
            let exempt = match child {
                PositionedNode::Item { item, .. } => {
                    matches!(item.layout.position, Position::Constant(_, _))
                }
                PositionedNode::Container(inner) => {
                    matches!(inner.item.layout.position, Position::Constant(_, _))
                }
                PositionedNode::Text { .. } => false,
            };
            if !exempt {
                assert!(within(child.bounds(), usable));
            }
            check_contained(child);
        }
    }
}

#[test]
fn every_child_stays_in_its_container() {
    let crowded = B::container("outer")
        .arrange(ContainerLayout {
            direction: Direction::Column,
            padding: (1, 3, 2, 5),
            spacing: (4, 0),
        })
        .child(B::text("a text that is far too long for the room it is given"))
        .child(
            B::container("inner")
                .layout(ItemLayout {
                    position: Position::Auto,
                    align: Align::Right,
                    offset: Offset::Left(30),
                    size: Size::Constant(200, 200),
                })
                .arrange(ContainerLayout {
                    direction: Direction::Row,
                    padding: (9, 9, 9, 9),
                    spacing: (1, 1),
                })
                .child(item("x", flow(Size::FillRatio(2))).id("x"))
                .child(item("y", asks(Position::Right("x".to_string()), Size::Constant(20, 20))))
                .child(item("z", asks(Position::Bottom("nobody".to_string()), Size::Fill)))
                .child(B::text("tail")),
        )
        .child(item("free", asks(Position::Constant(100, 100), Size::Constant(5, 5))))
        .child(item(
            "pushed",
            ItemLayout {
                position: Position::Auto,
                align: Align::Center,
                offset: Offset::Down(500),
                size: Size::ConstantHeight(3),
            },
        ));
    let r = laid_out(crowded, (7, 9), (30, 12));
    assert!(within(r.tree.bounds(), rect(7, 9, 30, 12)));
    check_contained(&r.tree);
    assert!(!r.errors.is_empty());
}
