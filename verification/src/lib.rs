//! Filtered, depth-bounded rendering of directory trees.
//!
//! The crate holds the rules of a tree listing and none of its input or
//! output: which entries of a directory are shown ([`exclusion`]), how raw
//! patterns are read and matched ([`pattern`], [`glob`]), which lines a walk
//! gives rise to ([`walker`]) and what their text is ([`render`]). A caller
//! reads the directories that the walker asks for and prints the lines it
//! hands out; a tree that is already in memory is drawn in one call
//! ([`snapshot`]). What holds of every walk is proved in [`invariants`], and
//! that a walk draws the tree it is fed from in [`tree`].

pub mod config;
pub mod counter;
pub mod entry;
pub mod exclusion;
pub mod glob;
pub mod invariants;
pub mod pattern;
pub mod render;
pub mod snapshot;
pub mod text;
pub mod tree;
pub mod walker;

pub use config::Config;
pub use counter::Counter;
pub use entry::Entry;
pub use exclusion::{should_exclude, ExclusionPolicy};
pub use glob::simple_glob_match;
pub use pattern::{
    compile, matches_gitignore_pattern, parse_exclude_patterns, parse_gitignore, split_patterns,
    CompiledPattern, PatternSource,
};
pub use render::{Line, Style};
pub use snapshot::{draw, Snapshot};
pub use walker::{Step, TraversalState, TreeWalker};
