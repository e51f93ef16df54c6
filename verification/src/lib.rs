//! A content-addressable object store in the git object format.
//!
//! Files, directory trees and commits are framed with a textual header,
//! identified by the SHA-1 digest of the framed bytes, and stored as zlib
//! streams under a two-level directory layout. This crate holds the logic:
//! framing and parsing, digests and their hex rendering, the canonical tree
//! layout, and what a store holds for an object. It performs no I/O itself.

pub mod error;
pub mod digest;
pub mod codec;
pub mod zlib;
pub mod object;
pub mod entry;
pub mod order;
pub mod tree;
pub mod render;
pub mod commit;
pub mod command;
