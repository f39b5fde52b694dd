//! Editing core of a terminal text editor.
//!
//! A [`buffer::Buffer`] holds the lines of a file as coloured cells, edits
//! them and logs the edits. A [`window::Viewport`] is the cursor and scroll
//! position of one pane on a buffer. A [`window_tree::WindowTree`] divides the
//! screen among panes, keeps the focus on one of them and says what is to be
//! drawn. [`tree_model`] describes the tree as a mathematical value and
//! [`tree_laws`] proves what holds of it.

pub mod buffer;
pub mod cell;
pub mod drawer;
pub mod editor;
pub mod highlight;
pub mod layout;
pub mod render;
pub mod text;
pub mod transaction;
pub mod tree_laws;
pub mod tree_model;
pub mod util;
pub mod window;
pub mod window_tree;
