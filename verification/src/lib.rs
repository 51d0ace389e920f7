//! A cross-platform widget abstraction: application code describes its user
//! interface as a declarative tree of abstract widgets, and a diff-and-patch
//! engine turns two successive trees into a minimal edit script that a
//! backend replays against its live native widget tree.

pub mod attribute;
pub mod diff;
pub mod event;
pub mod laws;
pub mod native;
pub mod node;
pub mod program;
pub mod widget;
