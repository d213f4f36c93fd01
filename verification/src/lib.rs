//! A dotfiles manager core: a declarative configuration tree is flattened
//! into tracked entries, ordered by their declared dependencies, and
//! synchronized between system locations and a managed directory with a
//! bounded, replayable undo journal.

pub mod config;
pub mod cwd;
pub mod diff;
pub mod dirs;
pub mod entry;
pub mod error;
pub mod history;
pub mod paths;
pub mod resolve;
pub mod sync;
pub mod text;
pub mod tree;
