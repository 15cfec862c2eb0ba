//! The rendering core of a declarative, state-driven user interface on a character grid.
//!
//! An application holds one state. A declarative tree, which may use templates, says what
//! to show of it. `DynamicNode::render` resolves the tree under the state, `layout` gives
//! every node of the resolved tree its box on the screen, and `render_list` flattens the
//! positioned tree into draw commands in paint order.

pub mod app;
pub mod elements;
pub mod event;
pub mod layout;
pub mod lexical;
pub mod render;
pub mod store;
pub mod style;
pub mod template;
pub mod vnode;
pub mod words;

pub use app::App;
pub use render::render_list;
pub use template::Template;
pub use vnode::builder::Builder;
