//! What a finished operation hands to the application.

use crate::fail::Fail;
use crate::file_table::FileDescriptor;
use crate::protocols::ipv4::Endpoint;
use crate::sync::Bytes;
use vstd::prelude::*;

verus! {

/// What a poll of a pending operation found.
#[derive(Debug)]
pub enum Poll<T> {
    /// The operation has its outcome.
    Ready(T),
    /// The operation waits for something to happen.
    Pending,
}

/// The outcome of an operation.
#[derive(Debug)]
pub enum OperationResult {
    /// The connection is established.
    Connect,
    /// A connection was accepted under the descriptor.
    Accept(FileDescriptor),
    /// The data was sent.
    Push,
    /// Data came in: from the endpoint, where the protocol says so.
    Pop(Option<Endpoint>, Bytes),
    /// The operation failed.
    Failed(Fail),
}

/// A pending piece of work together with its outcome, once it has one.
pub struct ResultFuture<F, T> {
    pub future: F,
    pub done: Option<T>,
}

impl<F, T> ResultFuture<F, T> {
    /// Work that has no outcome yet.
    pub fn new(future: F) -> (r: ResultFuture<F, T>)
        ensures
            r.future == future,
            r.done is None,
    {
        ResultFuture { future, done: None }
    }
}

} // verus!
