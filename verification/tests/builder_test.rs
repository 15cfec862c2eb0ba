use cinnabar::event::ClickEvent;
use cinnabar::layout::{Align, ContainerLayout, Direction, ItemLayout, Offset, Position, Size};
use cinnabar::template::{RendererFn, Template, TemplateError};
use cinnabar::vnode::builder::{BuildError, Builder};
use cinnabar::vnode::dynamic_node::DynamicNode;

enum Action {
    Pressed,
}

struct Fixed;

impl RendererFn<(), u8, Action> for Fixed {
    fn expansion(
        &self,
        store: &(),
        message: &Option<u8>,
    ) -> Result<DynamicNode<Fixed, u8, Action>, TemplateError> {
        self.render(store, message)
    }

    fn render(
        &self,
        _store: &(),
        _message: &Option<u8>,
    ) -> Result<DynamicNode<Fixed, u8, Action>, TemplateError> {
        Ok(Builder::text("fixed").done().unwrap())
    }
}

type B = Builder<Fixed, u8, Action>;

fn template() -> B {
    B::from(Template::new(Fixed))
}

fn error(builder: B) -> BuildError {
    match builder.done() {
        Err(e) => e,
        Ok(_) => panic!("a node came back"),
    }
}

fn some_layout() -> ItemLayout {
    ItemLayout {
        position: Position::Auto,
        align: Align::Center,
        offset: Offset::Zero,
        size: Size::Wrap,
    }
}

fn some_arrangement() -> ContainerLayout {
    ContainerLayout { direction: Direction::Column, padding: (1, 1, 1, 1), spacing: (1, 1) }
}

#[test]
fn text_takes_no_item_property() {
    assert_eq!(error(B::text("t").id("x")), BuildError::TextHasNoItemProperties);
    assert_eq!(error(B::text("t").key("x")), BuildError::TextHasNoItemProperties);
    assert_eq!(error(B::text("t").class("x")), BuildError::TextHasNoItemProperties);
    assert_eq!(error(B::text("t").classes("x y")), BuildError::TextHasNoItemProperties);
    assert_eq!(error(B::text("t").attr("x", "y")), BuildError::TextHasNoItemProperties);
    assert_eq!(error(B::text("t").layout(some_layout())), BuildError::TextHasNoItemProperties);
}

#[test]
fn template_takes_no_item_property() {
    assert_eq!(error(template().id("x")), BuildError::TemplateHasNoItemProperties);
    assert_eq!(error(template().key("x")), BuildError::TemplateHasNoItemProperties);
    assert_eq!(error(template().class("x")), BuildError::TemplateHasNoItemProperties);
    assert_eq!(error(template().classes(" x ")), BuildError::TemplateHasNoItemProperties);
    assert_eq!(error(template().attr("x", "y")), BuildError::TemplateHasNoItemProperties);
    assert_eq!(error(template().layout(some_layout())), BuildError::TemplateHasNoItemProperties);
}

#[test]
fn classes_without_a_word_are_refused_like_any_other() {
    assert_eq!(error(B::text("t").classes("")), BuildError::TextHasNoItemProperties);
    assert_eq!(error(B::text("t").classes(" \t\n ")), BuildError::TextHasNoItemProperties);
    assert_eq!(error(template().classes("")), BuildError::TemplateHasNoItemProperties);
    assert_eq!(
        error(B::text("t").message(1).classes("")),
        BuildError::OnlyTemplateHasMessage
    );
}

#[test]
fn classes_without_a_word_leave_an_item_as_it_is() {
    match B::item("i").class("a").classes(" \t ").done() {
        Ok(DynamicNode::Item(item)) => {
            assert_eq!(item.classes().len(), 1);
            assert!(item.has_class("a"));
        }
        _ => panic!("not an item"),
    }
    assert!(B::container("c").classes("").done().is_ok());
}

#[test]
fn only_a_template_takes_a_message() {
    assert_eq!(error(B::text("t").message(1)), BuildError::OnlyTemplateHasMessage);
    assert_eq!(error(B::item("i").message(1)), BuildError::OnlyTemplateHasMessage);
    assert_eq!(error(B::container("c").message(1)), BuildError::OnlyTemplateHasMessage);
    match template().message(7).done() {
        Ok(DynamicNode::Template(t)) => assert_eq!(t.message, Some(7)),
        _ => panic!("not a template"),
    }
    match template().done() {
        Ok(DynamicNode::Template(t)) => assert_eq!(t.message, None),
        _ => panic!("not a template"),
    }
}

#[test]
fn template_takes_no_handler() {
    assert_eq!(
        error(template().on_click(|_event: ClickEvent| Action::Pressed)),
        BuildError::TemplateHasNoHandlers
    );
}

#[test]
fn only_a_container_takes_children() {
    assert_eq!(error(B::text("t").child(B::text("u"))), BuildError::OnlyContainerHasChildren);
    assert_eq!(error(B::item("i").child(B::text("u"))), BuildError::OnlyContainerHasChildren);
    assert_eq!(error(template().child(B::text("u"))), BuildError::OnlyContainerHasChildren);
    assert_eq!(error(B::item("i").arrange(some_arrangement())), BuildError::OnlyContainerHasChildren);
    assert_eq!(error(B::text("t").arrange(some_arrangement())), BuildError::OnlyContainerHasChildren);
    assert_eq!(error(template().arrange(some_arrangement())), BuildError::OnlyContainerHasChildren);
}

#[test]
fn first_error_of_a_chain_is_kept() {
    let failed = B::text("t").id("x").message(1).child(B::text("u")).on_click(|_e: ClickEvent| Action::Pressed);
    assert_eq!(error(failed), BuildError::TextHasNoItemProperties);
    let failed = B::item("i").message(1).child(B::text("u")).key("k").arrange(some_arrangement());
    assert_eq!(error(failed), BuildError::OnlyTemplateHasMessage);
}

#[test]
fn failed_child_fails_its_container() {
    let tree = B::container("c")
        .child(B::text("fine"))
        .child(B::container("d").child(B::text("t").key("k")))
        .child(template().message(1));
    assert_eq!(error(tree), BuildError::TextHasNoItemProperties);
}

#[test]
fn errors_say_what_went_wrong() {
    assert_eq!(
        BuildError::TextHasNoItemProperties.message(),
        "Text builder nodes do not have item properties"
    );
    assert_eq!(
        BuildError::TemplateHasNoItemProperties.message(),
        "Template builder nodes do not have item properties"
    );
    assert_eq!(BuildError::OnlyTemplateHasMessage.message(), "Only Template can have message.");
    assert_eq!(BuildError::TemplateHasNoHandlers.message(), "Template nodes do not have handlers");
    assert_eq!(BuildError::OnlyContainerHasChildren.message(), "Only Container can have children.");
}

#[test]
fn item_starts_blank() {
    match B::item("input").done() {
        Ok(DynamicNode::Item(item)) => {
            assert_eq!(item.name(), "input");
            assert_eq!(item.id(), None);
            assert!(!item.has_id());
            assert_eq!(item.key(), None);
            assert!(!item.has_key());
            assert!(item.classes().is_empty());
            assert!(item.attributes().is_empty());
            assert!(item.handlers().click.is_none());
            assert!(matches!(item.layout.position, Position::Auto));
            assert!(matches!(item.layout.align, Align::Start));
            assert!(matches!(item.layout.offset, Offset::Zero));
            assert!(matches!(item.layout.size, Size::Fill));
        }
        _ => panic!("not an item"),
    }
}

#[test]
fn properties_are_kept() {
    let built = B::container("panel")
        .id("main")
        .key("k1")
        .class("b")
        .classes("a  c a")
        .attr("x", "1")
        .attr("y", "")
        .on_click(|_event: ClickEvent| Action::Pressed)
        .layout(some_layout())
        .arrange(some_arrangement())
        .child(B::text("t").on_click(|_event: ClickEvent| Action::Pressed))
        .child(B::item("i"))
        .done();
    match built {
        Ok(DynamicNode::Container(c)) => {
            assert_eq!(c.item.id(), Some("main"));
            assert!(c.item.has_id());
            assert_eq!(c.item.key(), Some("k1"));
            assert!(c.item.has_key());
            assert_eq!(c.item.classes().len(), 3);
            assert_eq!(c.item.classes().get(0), "a");
            assert_eq!(c.item.classes().get(1), "b");
            assert_eq!(c.item.classes().get(2), "c");
            assert!(c.item.has_class("a") && c.item.has_class("b") && c.item.has_class("c"));
            assert!(!c.item.has_class("d"));
            assert_eq!(c.item.attributes().len(), 2);
            assert_eq!(c.item.attr("x"), Some("1"));
            assert_eq!(c.item.attr("y"), Some(""));
            assert_eq!(c.item.attr("z"), None);
            assert!(c.item.has_attr("x") && !c.item.has_attr("z"));
            assert!(matches!(c.item.layout.align, Align::Center));
            assert!(matches!(c.item.layout.size, Size::Wrap));
            assert!(matches!(c.layout.direction, Direction::Column));
            assert_eq!(c.layout.padding, (1, 1, 1, 1));
            assert_eq!(c.layout.spacing, (1, 1));
            assert_eq!(c.children.len(), 2);
            match c.item.handlers().click.as_ref() {
                Some(handler) => assert!(matches!(handler.handle(ClickEvent {}), Action::Pressed)),
                None => panic!("no handler"),
            }
            match &c.children[0] {
                DynamicNode::Text(text) => {
                    assert_eq!(text.content(), "t");
                    assert!(text.handlers().click.is_some());
                }
                _ => panic!("not a text"),
            }
            assert!(matches!(&c.children[1], DynamicNode::Item(_)));
        }
        _ => panic!("not a container"),
    }
}

#[test]
fn container_starts_as_an_empty_row() {
    match B::container("c").done() {
        Ok(DynamicNode::Container(c)) => {
            assert!(c.children.is_empty());
            assert!(matches!(c.layout.direction, Direction::Row));
            assert_eq!(c.layout.padding, (0, 0, 0, 0));
            assert_eq!(c.layout.spacing, (0, 0));
            let standard = ContainerLayout::default();
            assert!(matches!(standard.direction, Direction::Row));
            assert_eq!(standard.padding, (0, 0, 0, 0));
            assert_eq!(standard.spacing, (0, 0));
        }
        _ => panic!("not a container"),
    }
}
