//! Renders a directory hierarchy as a tree of connector glyphs.
//!
//! The library decides which children of a directory are shown, in what order,
//! with which connectors and colours, and how the totals grow. Reading
//! directories and writing to a terminal stay with the caller: the walk is a
//! state machine that asks for one listing at a time.

pub mod args;
pub mod counts;
pub mod entry;
pub mod laws;
pub mod model;
pub mod name;
pub mod order;
pub mod pattern;
pub mod render;
pub mod tree;
pub mod walk;

pub use args::Opt;
pub use counts::Counts;
pub use entry::Entry;
pub use model::Failure;
pub use pattern::{Pattern, PatternError};
pub use render::{Connector, Line, SinkOp, Tint};
pub use walk::{walk_tree, Action, Event, Next, WalkError, Walker, ROOT_DEPTH};
