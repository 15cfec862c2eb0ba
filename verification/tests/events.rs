use cinnabar::event::{ClickEvent, ClickHandler, Handlers};

#[test]
fn handlers_start_empty() {
    let handlers: Handlers<u8> = Handlers::new();
    assert!(handlers.click.is_none());
    let handlers: Handlers<u8> = Handlers::default();
    assert!(handlers.click.is_none());
}

#[test]
fn click_stores_the_handler() {
    let mut handlers: Handlers<u8> = Handlers::new();
    handlers.click(|_event: ClickEvent| 7u8);
    match handlers.click.as_ref() {
        Some(handler) => assert_eq!(handler.handle(ClickEvent {}), 7),
        None => panic!("no handler"),
    }
}

#[test]
fn later_handler_replaces_earlier() {
    let mut handlers: Handlers<u8> = Handlers::new();
    handlers.click(|_event: ClickEvent| 1u8);
    handlers.click(|_event: ClickEvent| 2u8);
    match handlers.click.as_ref() {
        Some(handler) => assert_eq!(handler.handle(ClickEvent {}), 2),
        None => panic!("no handler"),
    }
}
