use cinnabar::layout::engine::layout;
use cinnabar::layout::rules::LayoutFault;
use cinnabar::layout::{Align, ContainerLayout, Direction, ItemLayout, Offset, Position, Size};
use cinnabar::render::{build_render_list, render_list, RenderCommand};
use cinnabar::template::Unavailable;
use cinnabar::vnode::static_node::StaticNode;
use cinnabar::Builder;
use std::sync::Arc;

enum Action {}

type B = Builder<Unavailable, (), Action>;

fn resolved(builder: B) -> StaticNode<Action> {
    builder.done().unwrap().render(&()).ok().unwrap()
}

fn described(list: &[RenderCommand<Action>]) -> Vec<(String, (u16, u16), (u16, u16))> {
    list.iter()
        .map(|command| match command {
            RenderCommand::Text(t) => (t.node.content().to_string(), t.position, t.size),
            RenderCommand::Item(b) => (format!("<{}>", b.node.name()), b.position, b.size),
        })
        .collect()
}

fn at(position: Position, size: Size) -> ItemLayout {
    ItemLayout { position, align: Align::Start, offset: Offset::Zero, size }
}

#[test]
fn text_yields_one_command_at_the_position_given() {
    let list = render_list(&resolved(B::text("hello")), (4, 2), (80, 24)).commands;
    assert_eq!(described(&list), vec![("hello".to_string(), (4, 2), (5, 1))]);
}

#[test]
fn commands_follow_the_declared_order() {
    let tree = B::container("root")
        .arrange(ContainerLayout {
            direction: Direction::Column,
            padding: (0, 0, 0, 0),
            spacing: (0, 0),
        })
        .child(B::item("late").layout(at(Position::Top("b".to_string()), Size::Constant(3, 1))))
        .child(B::text("a"))
        .child(
            B::container("inner")
                .id("b")
                .layout(at(Position::Auto, Size::ConstantHeight(2)))
                .child(B::text("b1"))
                .child(B::item("b2").layout(at(Position::Auto, Size::Constant(2, 1))))
                .child(B::container("empty")),
        )
        .child(B::text("c"));
    let list = render_list(&resolved(tree), (0, 0), (20, 10)).commands;
    assert_eq!(
        described(&list),
        vec![
            ("<late>".to_string(), (0, 3), (3, 1)),
            ("a".to_string(), (0, 0), (1, 1)),
            ("b1".to_string(), (0, 1), (2, 1)),
            ("<b2>".to_string(), (2, 1), (2, 1)),
            ("c".to_string(), (0, 3), (1, 1)),
        ]
    );
}

#[test]
fn container_yields_no_command_of_its_own() {
    let list = render_list(&resolved(B::container("a").child(B::container("b"))), (0, 0), (9, 9)).commands;
    assert!(list.is_empty());
}

#[test]
fn commands_share_the_payload_of_the_tree() {
    let tree = resolved(B::container("a").child(B::text("x")).child(B::item("i")));
    let list = render_list(&tree, (0, 0), (9, 9)).commands;
    match (&tree, &list[0], &list[1]) {
        (StaticNode::Container(c), RenderCommand::Text(t), RenderCommand::Item(b)) => {
            match (&c.children[0], &c.children[1]) {
                (StaticNode::Text(text), StaticNode::Item(item)) => {
                    assert!(Arc::ptr_eq(text, &t.node));
                    assert!(Arc::ptr_eq(item, &b.node));
                }
                _ => panic!("wrong children"),
            }
        }
        _ => panic!("wrong shape"),
    }
}

#[test]
fn list_of_a_layout_is_the_list_of_the_tree() {
    let tree = resolved(
        B::container("a")
            .child(B::text("x"))
            .child(B::item("i").layout(at(Position::Auto, Size::Fill))),
    );
    let placed = layout(&tree, (1, 1), (10, 3));
    let list = build_render_list(&placed.tree);
    assert_eq!(
        described(&list),
        vec![
            ("x".to_string(), (1, 1), (1, 1)),
            ("<i>".to_string(), (2, 1), (9, 3)),
        ]
    );
    assert_eq!(described(&list), described(&render_list(&tree, (1, 1), (10, 3)).commands));
}

#[test]
fn command_constructors_keep_what_they_are_given() {
    let tree = resolved(B::text("t"));
    if let StaticNode::Text(text) = &tree {
        match RenderCommand::text_at(text.clone(), (1, 2), (3, 4)) {
            RenderCommand::Text(t) => {
                assert_eq!(t.position, (1, 2));
                assert_eq!(t.size, (3, 4));
                assert!(Arc::ptr_eq(text, &t.node));
            }
            _ => panic!("not a text"),
        }
    } else {
        panic!("not a text");
    }
    let tree = resolved(B::item("i"));
    if let StaticNode::Item(item) = &tree {
        match RenderCommand::item(item.clone(), (5, 6), (7, 8)) {
            RenderCommand::Item(b) => {
                assert_eq!(b.position, (5, 6));
                assert_eq!(b.size, (7, 8));
                assert!(Arc::ptr_eq(item, &b.node));
            }
            _ => panic!("not an item"),
        }
    } else {
        panic!("not an item");
    }
}

#[test]
fn text_command_measures_its_text() {
    let tree = resolved(B::text("héllo"));
    if let StaticNode::Text(text) = &tree {
        match RenderCommand::text(text.clone(), (2, 3), (80, 24)) {
            RenderCommand::Text(t) => {
                assert_eq!(t.position, (2, 3));
                assert_eq!(t.size, (5, 1));
                assert!(Arc::ptr_eq(text, &t.node));
            }
            _ => panic!("not a text"),
        }
    } else {
        panic!("not a text");
    }
    let tree = resolved(B::text(""));
    if let StaticNode::Text(text) = &tree {
        match RenderCommand::text(text.clone(), (0, 0), (0, 0)) {
            RenderCommand::Text(t) => assert_eq!(t.size, (0, 1)),
            _ => panic!("not a text"),
        }
    }
    let long = "x".repeat(70000);
    let tree = resolved(B::text(&long));
    if let StaticNode::Text(text) = &tree {
        match RenderCommand::text(text.clone(), (0, 0), (80, 24)) {
            RenderCommand::Text(t) => assert_eq!(t.size, (65535, 1)),
            _ => panic!("not a text"),
        }
    }
}

#[test]
fn render_list_reports_an_unknown_name_and_draws_the_rest() {
    let tree = B::container("root")
        .child(
            B::container("a")
                .layout(at(Position::Auto, Size::FillRatio(1)))
                .child(B::item("lost").layout(at(Position::Top("nobody".to_string()), Size::Constant(4, 2)))),
        )
        .child(
            B::container("b")
                .layout(at(Position::Auto, Size::FillRatio(1)))
                .child(B::text("fine")),
        );
    let drawn = render_list(&resolved(tree), (0, 0), (40, 10));
    let said: Vec<(Vec<usize>, LayoutFault)> =
        drawn.errors.iter().map(|e| (e.path.clone(), e.fault)).collect();
    assert_eq!(said, vec![(vec![0, 0, 0], LayoutFault::UnknownIdentity)]);
    assert_eq!(
        described(&drawn.commands),
        vec![
            ("<lost>".to_string(), (0, 0), (0, 0)),
            ("fine".to_string(), (20, 0), (4, 1)),
        ]
    );
    let without = B::container("root")
        .child(B::container("a").layout(at(Position::Auto, Size::FillRatio(1))))
        .child(
            B::container("b")
                .layout(at(Position::Auto, Size::FillRatio(1)))
                .child(B::text("fine")),
        );
    let clean = render_list(&resolved(without), (0, 0), (40, 10));
    assert!(clean.errors.is_empty());
    assert_eq!(described(&clean.commands), vec![("fine".to_string(), (20, 0), (4, 1))]);
}

#[test]
fn render_list_reports_a_crowded_row() {
    let tree = B::container("row")
        .child(B::item("a").layout(at(Position::Auto, Size::Constant(30, 1))))
        .child(B::item("f").layout(at(Position::Auto, Size::Fill)));
    let drawn = render_list(&resolved(tree), (0, 0), (10, 3));
    let said: Vec<(Vec<usize>, LayoutFault)> =
        drawn.errors.iter().map(|e| (e.path.clone(), e.fault)).collect();
    assert_eq!(said, vec![(vec![0], LayoutFault::InsufficientSpace)]);
    assert_eq!(
        described(&drawn.commands),
        vec![
            ("<a>".to_string(), (0, 0), (10, 1)),
            ("<f>".to_string(), (10, 0), (0, 3)),
        ]
    );
}
