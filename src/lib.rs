//! `memdb_lib` records the heap operations of an instrumented program and streams them,
//! together with user markers, to an observer.
//!
//! The library holds the tracer's logic: the reentrancy guard of the allocator hook, the
//! dispatch of messages to the tracer thread, the tracer's batching and marker numbering,
//! and the framing of a batch into bytes.
pub mod hook;
pub mod server;
pub mod wire;
