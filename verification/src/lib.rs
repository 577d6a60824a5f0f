//! The logic of an interactive git-workflow assistant, verified.
//!
//! The heart of the crate is a picker for browsing a file tree in the
//! terminal and marking entries for an exclusion list:
//!
//! - [`builder`] builds the tree from directory listings,
//! - [`tree`] holds it and collects the marked entries,
//! - [`window`] decides which part of a list is visible,
//! - [`render`] says what is written to the terminal, and
//! - [`picker`] is the state machine that the keys drive.
//!
//! Nothing here reads a key, a directory or a repository, or writes to the
//! terminal: the caller does, and hands over plain values.  The remaining
//! modules hold the rules of the other commands on the same terms.

pub mod branch;
pub mod builder;
pub mod commit;
pub mod config;
pub mod git_operations;
pub mod ignore;
pub mod init;
pub mod pattern;
pub mod picker;
pub mod render;
pub mod revert;
pub mod text;
pub mod tree;
pub mod window;
