//! A virtual WASI filesystem: an arena of inodes, a table of file descriptors
//! and the rules by which guest paths are resolved to inodes.
//!
//! The library decides; it performs no input or output itself. Where a decision
//! needs something of the host (the metadata of a path, the value of a symbolic
//! link, the size of an open file), the library names what it needs as plain
//! data and takes the host's answer as an argument.
#![allow(non_camel_case_types)]
pub mod arena;
pub mod attributes;
pub mod confine;
pub mod cursor;
pub mod descriptors;
pub mod following;
pub mod fs;
pub mod host;
pub mod inode;
pub mod jmp;
pub mod laws;
pub mod links;
pub mod loading;
pub mod making;
pub mod model;
pub mod outcomes;
pub mod parts;
pub mod path;
pub mod preopen;
pub mod resolution;
pub mod resolve;
pub mod steps;
pub mod tree;
pub mod walk;
pub mod wasi;
