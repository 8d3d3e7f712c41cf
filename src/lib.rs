//! Rendering and introspection core of a mode-based management shell:
//! flattening a configuration tree into command lines, listing the commands
//! reachable in a command trie, and the shell's mode transitions.
pub mod tree;
pub mod flatten;
pub mod trie;
pub mod session;
pub mod show;
