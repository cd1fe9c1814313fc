//! Materialization of a declared directory layout.
//!
//! A layout is a forest of entries, each a directory or a file with a path
//! relative to its parent. The library turns a layout and a root into the
//! ordered list of filesystem actions that realizes it, rejects entries whose
//! path could leave the root, and steers a run of those actions that stops at
//! the first failure. It touches no filesystem itself: the caller performs
//! each action and reports how it went.
//!
//! - [`path`]: which relative paths are safe, and how paths are joined.
//! - [`entry`]: the entries of a layout, and how they are decoded.
//! - [`plan`]: from a layout to its actions.
//! - [`run`]: carrying out a plan, one action at a time.
//! - [`effect`]: what the actions mean on a filesystem.
//! - [`laws`]: what holds of every plan and of every run.

pub mod effect;
pub mod entry;
pub mod laws;
pub mod path;
pub mod plan;
pub mod run;
