//! Focus navigation engine for a tree of UI elements.
//!
//! The engine decides which single element of a tree currently has keyboard
//! focus and how that focus moves on a forward or backward navigation request
//! (Tab / Shift+Tab). Elements are classified into focus levels from their
//! attributes and event subscriptions; navigation sweeps the tree in traversal
//! order, one level bucket at a time, and records every element whose focus
//! indicator changed in a dirty set for the rendering pipeline to drain.

pub mod classify;
pub mod dirty;
pub mod level;
pub mod navigator;
pub mod tree;
