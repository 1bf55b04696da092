//! An in-memory filesystem model: an inode table, per-directory entry maps and
//! file contents, with every operation specified over a mathematical view.

pub mod attr;
pub mod behaviour;
pub mod dir;
pub mod errno;
pub mod inode;
pub mod laws;
pub mod model;
pub mod name_order;
pub mod reply;
pub mod tree;
