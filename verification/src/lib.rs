//! Core library of an alias launcher: a persistent registry of command-line
//! tools, named profiles of environment overrides and extra arguments per
//! tool, and the resolution logic that turns an invoked alias into a concrete
//! target binary and merged environment.
//!
//! Everything here is pure logic over plain values: the state document model,
//! its validation and repair, the registry operations, the launch resolution
//! rules, and the install-path computations.  File, environment and process
//! access lives with the callers, which hand snapshots in as arguments.

pub mod apps;
pub mod doc;
pub mod error;
pub mod install;
pub mod json;
pub mod launch;
pub mod omap;
pub mod state;
pub mod text;
pub mod tui;
