//! A read-only virtual file system over a file list published by the peer
//! of a remote-desktop clipboard channel: the list is parsed from its binary
//! descriptor format, turned into a directory tree, and file bytes are
//! fetched in blocks through content requests correlated with their
//! responses by stream id.
pub mod descriptor;
pub mod engine;
pub mod error;
pub mod message;
pub mod mount;
pub mod registry;
pub mod tree;
