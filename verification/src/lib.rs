//! A user-space network stack behind a socket interface that never blocks.
//!
//! The stack is driven from outside: the runtime that embeds it hands in
//! what came from the network and the time, asks for rounds of work, and
//! takes away what is to be transmitted. Inside, the TCP engine keeps each
//! connection reliable and in order, the scheduler moves every pending
//! operation on step by step, and payloads travel as views of shared
//! stores that are never copied.

pub mod collections;
pub mod engine;
pub mod fail;
pub mod file_table;
pub mod interop;
pub mod libos;
pub mod operations;
pub mod protocols;
pub mod runtime;
pub mod scheduler;
pub mod sync;
pub mod test_helpers;
pub mod tracing;
