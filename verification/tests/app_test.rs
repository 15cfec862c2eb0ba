use cinnabar::template::{RendererFn, TemplateError};
use cinnabar::vnode::dynamic_node::{DynamicNode, RenderFailure};
use cinnabar::{App, Builder, Template};

pub struct Store {
    pub points: usize,
}

pub enum Message {}

pub enum Action {
    Nothing,
    Increment,
}

type Node = DynamicNode<View, Message, Action>;

struct View(Box<dyn Fn(&Store, &Option<Message>) -> Result<Node, TemplateError>>);

impl RendererFn<Store, Message, Action> for View {
    fn expansion(&self, store: &Store, message: &Option<Message>) -> Result<Node, TemplateError> {
        self.render(store, message)
    }

    fn render(&self, store: &Store, message: &Option<Message>) -> Result<Node, TemplateError> {
        (self.0)(store, message)
    }
}

fn panel() -> Builder<View, Message, Action> {
    Builder::container("panel")
}

fn button() -> Builder<View, Message, Action> {
    Builder::container("button")
}

fn text(content: &str) -> Builder<View, Message, Action> {
    Builder::text(content)
}

#[test]
fn simple_app_test() {
    let store = Store { points: 0 };

    let counter = Template::new(View(Box::new(|store: &Store, _message: &Option<Message>| {
        let points = format!("{} points", store.points);
        Ok(panel()
            .child(text(&points))
            .child(button().child(text("Increment")))
            .done()
            .unwrap())
    })));

    let mut app = App::new(store, DynamicNode::from(counter.clone()), |store: Store, action| {
        match action {
            Action::Increment => Store {
                points: store.points + 1,
            },
            Action::Nothing => store,
        }
    });

    app = app.action(Action::Nothing);

    assert_eq!(
        format!("\n{}\n", app.view().to_pretty_string()),
        r#"
<panel>
    0 points
    <button>
        Increment
    </button>
</panel>
"#
    );

    app = app.action(Action::Increment);

    assert_eq!(
        format!("\n{}\n", app.view().to_pretty_string()),
        r#"
<panel>
    1 points
    <button>
        Increment
    </button>
</panel>
"#
    );
}

#[test]
fn app_render_list_draws_the_current_state() {
    let counter = Template::new(View(Box::new(|store: &Store, _message: &Option<Message>| {
        Ok(text(&format!("{}", store.points * 100)).done().unwrap())
    })));
    let mut app = App::new(
        Store { points: 0 },
        DynamicNode::from(counter),
        |store: Store, action| match action {
            Action::Increment => Store { points: store.points + 1 },
            Action::Nothing => store,
        },
    );
    let list = app.render_list((2, 3), (80, 24)).commands;
    assert_eq!(list.len(), 1);
    match &list[0] {
        cinnabar::render::RenderCommand::Text(t) => {
            assert_eq!(t.node.content(), "0");
            assert_eq!(t.position, (2, 3));
            assert_eq!(t.size, (1, 1));
        }
        _ => panic!("not a text"),
    }
    app = app.action(Action::Increment);
    let list = app.render_list((2, 3), (80, 24)).commands;
    match &list[0] {
        cinnabar::render::RenderCommand::Text(t) => {
            assert_eq!(t.node.content(), "100");
            assert_eq!(t.size, (3, 1));
        }
        _ => panic!("not a text"),
    }
}

#[test]
fn app_keeps_the_screen_when_a_template_fails() {
    let moody = Template::new(View(Box::new(|store: &Store, _message: &Option<Message>| {
        if store.points % 2 == 1 {
            Err(TemplateError { reason: "odd".to_string() })
        } else {
            Ok(text("even").done().unwrap())
        }
    })));
    let tree = panel()
        .child(text("["))
        .child(Builder::from(moody))
        .child(text("]"))
        .done()
        .unwrap();
    let mut app = App::new(Store { points: 0 }, tree, |store: Store, action| match action {
        Action::Increment => Store { points: store.points + 1 },
        Action::Nothing => store,
    });
    assert_eq!(app.view().to_string(), "<panel>[even]</panel>");
    assert!(app.errors().is_empty());

    app = app.action(Action::Increment);
    assert_eq!(app.view().to_string(), "<panel>[]</panel>");
    assert_eq!(app.errors().len(), 1);
    assert_eq!(app.errors()[0].path, vec![1]);
    match &app.errors()[0].failure {
        RenderFailure::Template(cause) => assert_eq!(cause.reason, "odd"),
        RenderFailure::Depth => panic!("wrong failure"),
    }
    assert_eq!(app.render_list((0, 0), (80, 24)).commands.len(), 3);
    assert!(app.render_list((0, 0), (80, 24)).errors.is_empty());

    app = app.action(Action::Increment);
    assert_eq!(app.view().to_string(), "<panel>[even]</panel>");
    assert!(app.errors().is_empty());
}
