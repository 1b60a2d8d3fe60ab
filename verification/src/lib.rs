//! A live process-tree viewer's core: snapshots of the process table, the
//! parent/child tree built from them, the difference between two snapshots,
//! the rendered lines of the tree, and the scroll state of the viewport.

pub mod app;
pub mod diff;
pub mod process;
pub mod read;
pub mod render;
mod select;
pub mod text;
pub mod tree;
pub mod viewport;
pub mod widget;
