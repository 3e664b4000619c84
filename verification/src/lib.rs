//! Matching engine and traversal decisions of a recursive file finder.
//!
//! An entry of a directory listing is reported when its kind, its base name,
//! its permission bits and its special mode flags all satisfy the search
//! settings. Every directory is descended into, reported or not.

pub mod args;
pub mod entry;
pub mod octal;
pub mod pattern;
pub mod perm;
pub mod tree;
pub mod walk;
