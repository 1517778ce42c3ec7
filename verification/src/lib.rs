//! A sandboxed filesystem engine: list, search, read, write, edit, move and
//! create-directory operations, all confined to a fixed set of root
//! directories.
//!
//! The engine separates decisions from syscalls. Path containment, edit
//! application, diff assembly, glob filtering and error classification are
//! verified here; the caller performs the canonicalizing and reading
//! syscalls and hands their outcomes to the functions of this crate as
//! plain values.

pub mod edit;
pub mod errors;
pub mod http_paths;
pub mod info;
pub mod pathutil;
pub mod read;
pub mod requests;
pub mod sandbox;
pub mod search;
pub mod strings;
pub mod write;
