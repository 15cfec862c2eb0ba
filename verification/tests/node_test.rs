use cinnabar::elements;
use cinnabar::template::{RendererFn, TemplateError, Unavailable};
use cinnabar::vnode::dynamic_node::{DynamicNode, RenderFailure};
use cinnabar::event::Handlers;
use cinnabar::vnode::static_node::StaticNode;
use cinnabar::vnode::Text;
use cinnabar::{Builder, Template};
use std::sync::Arc;

pub struct Store {
    pub points: usize,
}

pub enum Message {
    Label(String),
}

pub enum Action {}

type Node = DynamicNode<View, Message, Action>;

/// A template written as a closure.
struct View(Box<dyn Fn(&Store, &Option<Message>) -> Result<Node, TemplateError>>);

impl RendererFn<Store, Message, Action> for View {
    fn expansion(&self, store: &Store, message: &Option<Message>) -> Result<Node, TemplateError> {
        self.render(store, message)
    }

    fn render(&self, store: &Store, message: &Option<Message>) -> Result<Node, TemplateError> {
        (self.0)(store, message)
    }
}

fn panel() -> Builder<View, Message, Action> {
    Builder::container("panel")
}

fn button() -> Builder<View, Message, Action> {
    Builder::container("button")
}

fn text(content: &str) -> Builder<View, Message, Action> {
    Builder::text(content)
}

fn pretty(node: &StaticNode<Action>) -> String {
    format!("\n{}\n", node.to_pretty_string())
}

#[test]
fn simple_node() {
    let dn = panel()
        .child(text("Please press OK."))
        .child(
            button()
                .key("b1")
                .attr("hidden", "")
                .child(text("No thanks.")),
        )
        .child(button().key("b2").class("primary").child(text("OK!")))
        .done()
        .unwrap();
    let sn = dn.render(&Store { points: 0 }).ok().unwrap();
    assert_eq!(
        pretty(&sn),
        r#"
<panel>
    Please press OK.
    <button key="b1" hidden>
        No thanks.
    </button>
    <button key="b2" class="primary">
        OK!
    </button>
</panel>
"#
    );
}

#[test]
fn dynamic_node() {
    let mut store = Store { points: 0 };

    let counter = Template::new(View(Box::new(|store: &Store, _message: &Option<Message>| {
        let p = format!("{}", store.points);
        Ok(text(&p).done().unwrap())
    })));

    let dn = panel().child(Builder::from(counter.clone())).done().unwrap();

    let sn = dn.render(&store).ok().unwrap();

    assert_eq!(
        pretty(&sn),
        r#"
<panel>
    0
</panel>
"#
    );

    store = Store { points: 1 };

    let sn = dn.render(&store).ok().unwrap();

    assert_eq!(
        pretty(&sn),
        r#"
<panel>
    1
</panel>
"#
    );
}

#[test]
fn formatting_round_trip() {
    let tree = panel()
        .child(text("X"))
        .child(button().key("b1").attr("hidden", "").child(text("Y")))
        .done()
        .unwrap()
        .render(&Store { points: 0 })
        .ok()
        .unwrap();
    assert_eq!(
        tree.to_pretty_string(),
        "<panel>\n    X\n    <button key=\"b1\" hidden>\n        Y\n    </button>\n</panel>"
    );
    assert_eq!(
        tree.to_string(),
        "<panel>X<button key=\"b1\" hidden>Y</button></panel>"
    );
}

#[test]
fn tag_lists_id_key_classes_and_attributes_in_order() {
    let tree: Node = Builder::item("input")
        .attr("value", "7")
        .attr("disabled", "")
        .attr("name", "age")
        .classes("wide  primary\taccent")
        .class("primary")
        .key("k")
        .id("field")
        .done()
        .unwrap();
    let resolved = tree.render(&Store { points: 0 }).ok().unwrap();
    assert_eq!(
        resolved.to_string(),
        "<input id=\"field\" key=\"k\" class=\"accent primary wide\" disabled name=\"age\" value=\"7\">"
    );
}

#[test]
fn later_attribute_value_replaces_earlier() {
    let tree: Node = Builder::item("a").attr("x", "1").attr("x", "2").done().unwrap();
    let resolved = tree.render(&Store { points: 0 }).ok().unwrap();
    assert_eq!(resolved.to_string(), "<a x=\"2\">");
}

#[test]
fn empty_container_closes_on_the_same_line() {
    let tree: Node = panel().child(panel()).done().unwrap();
    let resolved = tree.render(&Store { points: 0 }).ok().unwrap();
    assert_eq!(resolved.to_pretty_string(), "<panel>\n    <panel></panel>\n</panel>");
}

#[test]
fn format_with_indent_starts_at_the_given_level() {
    let tree: Node = panel().child(text("X")).done().unwrap();
    let resolved = tree.render(&Store { points: 0 }).ok().unwrap();
    let mut out = String::from("> ");
    cinnabar::vnode::format::format_with_indent(&mut out, Some(2), &resolved);
    assert_eq!(out, ">         <panel>\n            X\n        </panel>");
}

#[test]
fn add_indent_writes_four_spaces_a_level() {
    let mut out = String::from("a");
    cinnabar::vnode::format::add_indent(&mut out, Some(3));
    assert_eq!(out, "a            ");
    cinnabar::vnode::format::add_indent(&mut out, None);
    assert_eq!(out, "a            ");
    cinnabar::vnode::format::add_indent(&mut out, Some(0));
    assert_eq!(out, "a            ");
}

#[test]
fn rendering_twice_gives_equal_trees() {
    let counter = Template::new(View(Box::new(|store: &Store, _message: &Option<Message>| {
        Ok(panel()
            .child(text(&format!("{} points", store.points)))
            .done()
            .unwrap())
    })));
    let tree = panel()
        .child(text("head"))
        .child(Builder::from(counter))
        .done()
        .unwrap();
    let store = Store { points: 4 };
    let first = tree.render(&store).ok().unwrap();
    let second = tree.render(&store).ok().unwrap();
    assert_eq!(first.to_pretty_string(), second.to_pretty_string());
    assert_eq!(first.to_string(), "<panel>head<panel>4 points</panel></panel>");
}

#[test]
fn state_change_touches_only_the_template() {
    let counter = Template::new(View(Box::new(|store: &Store, _message: &Option<Message>| {
        Ok(text(&format!("{}", store.points)).done().unwrap())
    })));
    let tree = panel()
        .child(text("before"))
        .child(Builder::from(counter))
        .child(button().child(text("after")))
        .done()
        .unwrap();
    let zero = tree.render(&Store { points: 0 }).ok().unwrap();
    let one = tree.render(&Store { points: 1 }).ok().unwrap();
    assert_eq!(zero.to_string(), "<panel>before0<button>after</button></panel>");
    assert_eq!(one.to_string(), "<panel>before1<button>after</button></panel>");
}

#[test]
fn message_is_handed_to_the_template() {
    let label = Template::new(View(Box::new(|_store: &Store, message: &Option<Message>| {
        match message {
            Some(Message::Label(s)) => Ok(text(s).done().unwrap()),
            None => Ok(text("none").done().unwrap()),
        }
    })));
    let tree = panel()
        .child(Builder::from(label.clone()).message(Message::Label("hi".to_string())))
        .child(Builder::from(label))
        .done()
        .unwrap();
    let resolved = tree.render(&Store { points: 0 }).ok().unwrap();
    assert_eq!(resolved.to_string(), "<panel>hinone</panel>");
}

#[test]
fn failing_template_is_reported_with_its_place() {
    let broken = Template::new(View(Box::new(|_store: &Store, _message: &Option<Message>| {
        Err(TemplateError { reason: "no data".to_string() })
    })));
    let tree = panel()
        .child(text("fine"))
        .child(panel().child(text("a")).child(Builder::from(broken)))
        .done()
        .unwrap();
    match tree.render(&Store { points: 0 }) {
        Err(e) => {
            assert_eq!(e.path, vec![1, 1]);
            match e.failure {
                RenderFailure::Template(cause) => assert_eq!(cause.reason, "no data"),
                RenderFailure::Depth => panic!("wrong failure"),
            }
        }
        Ok(_) => panic!("a tree came back"),
    }
}

fn nest(levels: usize) -> Node {
    if levels == 0 {
        text("deep").done().unwrap()
    } else {
        DynamicNode::from(Template::new(View(Box::new(
            move |_store: &Store, _message: &Option<Message>| Ok(nest(levels - 1)),
        ))))
    }
}

#[test]
fn template_nesting_is_bounded() {
    let store = Store { points: 0 };
    let shallow = nest(3).render_within(&store, 3).ok().unwrap();
    assert_eq!(shallow.to_string(), "deep");
    match nest(3).render_within(&store, 2) {
        Err(e) => {
            assert!(e.path.is_empty());
            assert!(matches!(e.failure, RenderFailure::Depth));
        }
        Ok(_) => panic!("a tree came back"),
    }
    assert!(nest(64).render_within(&store, 64).is_ok());
    assert!(nest(65).render_within(&store, 64).is_err());
}

#[test]
fn template_that_expands_into_itself_fails_within_a_bound() {
    fn again() -> Node {
        DynamicNode::from(Template::new(View(Box::new(
            |_store: &Store, _message: &Option<Message>| Ok(again()),
        ))))
    }
    let tree = panel().child(text("x")).done().unwrap();
    assert!(tree.render(&Store { points: 0 }).is_ok());
    match again().render_within(&Store { points: 0 }, 100) {
        Err(e) => assert!(matches!(e.failure, RenderFailure::Depth)),
        Ok(_) => panic!("a tree came back"),
    }
}

#[test]
fn resolved_tree_shares_the_payloads_of_the_declared_tree() {
    let declared = panel()
        .child(text("x"))
        .child(Builder::item("i"))
        .done()
        .unwrap();
    let resolved = declared.render(&Store { points: 0 }).ok().unwrap();
    match (&declared, &resolved) {
        (DynamicNode::Container(d), StaticNode::Container(s)) => {
            assert!(Arc::ptr_eq(&d.item, s.item()));
            assert!(Arc::ptr_eq(&d.layout, s.layout()));
            assert_eq!(s.children().len(), 2);
            match (&d.children[0], &s.children()[0]) {
                (DynamicNode::Text(a), StaticNode::Text(b)) => assert!(Arc::ptr_eq(a, b)),
                _ => panic!("not a text"),
            }
            match (&d.children[1], &s.children()[1]) {
                (DynamicNode::Item(a), StaticNode::Item(b)) => assert!(Arc::ptr_eq(a, b)),
                _ => panic!("not an item"),
            }
        }
        _ => panic!("not a container"),
    }
}

#[test]
fn unavailable_template_fails_with_its_reason() {
    let tree: DynamicNode<Unavailable, (), Action> = elements::panel()
        .child(elements::text("shown"))
        .child(Builder::from(Template::new(Unavailable { reason: "later".to_string() })))
        .done()
        .unwrap();
    match tree.render(&()) {
        Err(e) => {
            assert_eq!(e.path, vec![1]);
            match e.failure {
                RenderFailure::Template(cause) => assert_eq!(cause.reason, "later"),
                RenderFailure::Depth => panic!("wrong failure"),
            }
        }
        Ok(_) => panic!("a tree came back"),
    }
}

#[test]
fn elements_are_a_panel_a_button_and_a_text() {
    let tree: DynamicNode<Unavailable, (), Action> = elements::panel()
        .child(elements::button().child(elements::text("go")))
        .done()
        .unwrap();
    let resolved = tree.render(&()).ok().unwrap();
    assert_eq!(resolved.to_string(), "<panel><button>go</button></panel>");
}

#[test]
fn static_nodes_are_made_of_their_parts() {
    let declared: Node = panel().child(text("x")).done().unwrap();
    let resolved = declared.render(&Store { points: 0 }).ok().unwrap();
    if let StaticNode::Container(c) = &resolved {
        if let StaticNode::Text(t) = &c.children()[0] {
            let again = StaticNode::new_container(
                c.item().clone(),
                vec![StaticNode::new_text(t.clone()), StaticNode::new_item(c.item().clone())],
                c.layout().clone(),
            );
            assert_eq!(again.to_string(), "<panel>x<panel></panel>");
            return;
        }
    }
    panic!("wrong shape");
}

#[test]
fn degraded_pass_puts_a_placeholder_where_a_template_fails() {
    let broken = Template::new(View(Box::new(|_store: &Store, _message: &Option<Message>| {
        Err(TemplateError { reason: "no data".to_string() })
    })));
    let fine = Template::new(View(Box::new(|store: &Store, _message: &Option<Message>| {
        Ok(text(&format!("{}", store.points)).done().unwrap())
    })));
    let tree = panel()
        .child(Builder::from(broken.clone()))
        .child(panel().child(Builder::from(fine)).child(Builder::from(broken)))
        .child(nest_builder(65))
        .child(text("end"))
        .done()
        .unwrap();
    let placeholder = Arc::new(Text { content: "?".to_string(), handlers: Handlers::new() });
    let rendered = tree.render_degraded(&Store { points: 5 }, &placeholder);
    assert_eq!(rendered.tree.to_string(), "<panel>?<panel>5?</panel>deepend</panel>");
    let said: Vec<(Vec<usize>, bool)> = rendered
        .errors
        .iter()
        .map(|e| (e.path.clone(), matches!(e.failure, RenderFailure::Depth)))
        .collect();
    assert_eq!(
        said,
        vec![(vec![0], false), (vec![1, 1], false)]
    );
    match tree.render(&Store { points: 5 }) {
        Err(e) => assert_eq!(e.path, vec![0]),
        Ok(_) => panic!("a tree came back"),
    }
}

fn nest_builder(levels: usize) -> Builder<View, Message, Action> {
    Builder::from(Template::new(View(Box::new(
        move |_store: &Store, _message: &Option<Message>| Ok(nest(levels - 1)),
    ))))
}

#[test]
fn degraded_pass_agrees_with_the_strict_one_where_nothing_fails() {
    let counter = Template::new(View(Box::new(|store: &Store, _message: &Option<Message>| {
        Ok(text(&format!("{}", store.points)).done().unwrap())
    })));
    let tree = panel().child(text("n=")).child(Builder::from(counter)).done().unwrap();
    let placeholder = Arc::new(Text { content: "?".to_string(), handlers: Handlers::new() });
    let store = Store { points: 9 };
    let rendered = tree.render_degraded(&store, &placeholder);
    assert!(rendered.errors.is_empty());
    assert_eq!(
        rendered.tree.to_pretty_string(),
        tree.render(&store).ok().unwrap().to_pretty_string()
    );
}

#[test]
fn render_has_no_bound_on_nesting_that_a_tree_can_reach() {
    let store = Store { points: 0 };
    assert_eq!(nest(65).render(&store).ok().unwrap().to_string(), "deep");
    assert_eq!(nest(1000).render(&store).ok().unwrap().to_string(), "deep");
}

fn rows(from: usize, to: usize) -> Node {
    if from == to {
        text("end").done().unwrap()
    } else {
        panel()
            .child(text(&format!("{}", from)))
            .child(Builder::from(Template::new(View(Box::new(
                move |_store: &Store, _message: &Option<Message>| Ok(rows(from + 1, to)),
            )))))
            .done()
            .unwrap()
    }
}

#[test]
fn list_of_a_hundred_rows_that_is_built_by_recursion_resolves() {
    let resolved = rows(0, 100).render(&Store { points: 0 }).ok().unwrap();
    let text = resolved.to_string();
    assert!(text.starts_with("<panel>0<panel>1<panel>2"));
    assert!(text.contains("<panel>99end</panel>"));
    assert_eq!(text.matches("<panel>").count(), 100);
}

#[test]
fn template_resolves_to_what_its_expansion_resolves_to() {
    let store = Store { points: 0 };
    let inner = nest(64).render(&store).ok().unwrap().to_string();
    let outer = nest(65).render(&store).ok().unwrap().to_string();
    assert_eq!(inner, outer);
}
