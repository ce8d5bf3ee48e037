//! Build-orchestration library.
//!
//! The heart of a remote build daemon: a dependency-ordered pipeline
//! executor, a persistent data store for workflows, actions, repositories
//! and build history, the control-message dispatch that drives both, and
//! the codec for the store's durable snapshot format.
//!
//! Everything here is plain computation over plain values.  The network,
//! the file system and child processes live outside the library; they hand
//! values in and carry the library's decisions out.

pub mod client;
pub mod codec;
pub mod executor;
pub mod graph;
pub mod protocol;
pub mod snapshot;
pub mod store;
pub mod text;
