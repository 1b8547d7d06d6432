//! A lazily started, recursive enumeration of the files under a root
//! directory, written as the decisions of the traversal: what to list next,
//! what to hand to the consumer, what to start in the background.
//!
//! The library never touches the file system, a thread or a channel. The
//! surrounding program lists directories, moves paths through its channel and
//! starts background work; it tells the library what happened and the library
//! answers with what to do.

pub mod entry;
pub mod read_dir;
pub mod result;
pub mod tree;
pub mod visit;

pub use entry::{dirs_of, files_of, partition, Entry};
pub use read_dir::{Pull, ReadDir, Session};
pub use result::{into_result, Cause, Error, ErrorKind};
pub use visit::{spawn_after, visit_multithreaded, Plan, Visit};
