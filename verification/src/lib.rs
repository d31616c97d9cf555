//! A WebDAV resource hierarchy presented as a tree of inodes.
//!
//! The crate holds the parts of a WebDAV-backed filesystem that decide
//! something: decoding a multistatus document into property records, the
//! directory of inodes and the registry of file records, and the handlers
//! behind `lookup`, `readdir` and `getattr`. Every function states its result
//! in a contract. Talking to the server and to the kernel is left to the
//! caller, which hands over what it received as plain values.
pub mod date;
pub mod errors;
pub mod file;
pub mod filesystem;
pub mod handler;
pub mod inode;
pub mod invariants;
pub mod multistatus;
pub mod prop;
pub mod text;
pub mod webdav;
pub mod xml;
