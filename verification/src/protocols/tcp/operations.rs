//! The operations on TCP sockets that take more than one step.

use crate::fail::Fail;
use crate::file_table::{files_kept, sockets_open_as, File, FileDescriptor, FileTable};
use crate::operations::{OperationResult, ResultFuture};
use crate::protocols::tcp::peer::{TcpPeer, TcpView};
use crate::operations::Poll;
use crate::sync::{Bytes, Waker};
use vstd::prelude::*;

verus! {

/// The wait for a connection to accept on a listening socket.
pub struct AcceptFuture {
    pub fd: FileDescriptor,
}

/// The wait for the end of a handshake that this side began.
pub struct ConnectFuture {
    pub fd: FileDescriptor,
    /// Whether the handshake could begin.
    pub started: Result<(), Fail>,
}

/// A send, which has its outcome from the start.
pub struct PushFuture {
    pub fd: FileDescriptor,
    pub result: Result<(), Fail>,
}

/// The wait for data on a connection.
pub struct PopFuture {
    pub fd: FileDescriptor,
}

/// An operation on a TCP socket.
pub enum TcpOperation {
    Accept(ResultFuture<AcceptFuture, Result<FileDescriptor, Fail>>),
    Connect(ResultFuture<ConnectFuture, Result<(), Fail>>),
    Pop(ResultFuture<PopFuture, Result<Bytes, Fail>>),
    Push(ResultFuture<PushFuture, Result<(), Fail>>),
}

/// The outcome in `polled`, if it holds one.
pub open spec fn ready<T>(polled: Poll<T>) -> Option<T> {
    match polled {
        Poll::Ready(r) => Some(r),
        Poll::Pending => None,
    }
}

impl TcpOperation {
    /// Whether the operation has its outcome.
    pub open spec fn is_ready(self) -> bool {
        match self {
            TcpOperation::Accept(f) => f.done is Some,
            TcpOperation::Connect(f) => f.done is Some,
            TcpOperation::Pop(f) => f.done is Some,
            TcpOperation::Push(f) => f.done is Some,
        }
    }

    /// The descriptor that the operation works on.
    pub open spec fn fd(self) -> FileDescriptor {
        match self {
            TcpOperation::Accept(f) => f.future.fd,
            TcpOperation::Connect(f) => f.future.fd,
            TcpOperation::Pop(f) => f.future.fd,
            TcpOperation::Push(f) => f.future.fd,
        }
    }

    /// The outcome of an operation that has one.
    pub open spec fn result(self) -> OperationResult {
        match self {
            TcpOperation::Accept(f) => match f.done {
                Some(Ok(new_fd)) => OperationResult::Accept(new_fd),
                Some(Err(e)) => OperationResult::Failed(e),
                None => arbitrary(),
            },
            TcpOperation::Connect(f) => match f.done {
                Some(Ok(())) => OperationResult::Connect,
                Some(Err(e)) => OperationResult::Failed(e),
                None => arbitrary(),
            },
            TcpOperation::Pop(f) => match f.done {
                Some(Ok(bytes)) => OperationResult::Pop(None, bytes),
                Some(Err(e)) => OperationResult::Failed(e),
                None => arbitrary(),
            },
            TcpOperation::Push(f) => match f.done {
                Some(Ok(())) => OperationResult::Push,
                Some(Err(e)) => OperationResult::Failed(e),
                None => arbitrary(),
            },
        }
    }

    /// The operation after a poll, where `tcp` is the peer and `files` are
    /// the open descriptors.
    pub open spec fn polled(self, tcp: TcpView, files: Map<u32, File>) -> TcpOperation {
        if self.is_ready() {
            self
        } else {
            match self {
                TcpOperation::Accept(f) => TcpOperation::Accept(
                    ResultFuture {
                        future: f.future,
                        done: ready(tcp.poll_accept_result(f.future.fd, files)),
                    },
                ),
                TcpOperation::Connect(f) => TcpOperation::Connect(
                    ResultFuture {
                        future: f.future,
                        done: match f.future.started {
                            Err(e) => Some(Err(e)),
                            Ok(()) => ready(tcp.poll_connect_result(f.future.fd)),
                        },
                    },
                ),
                TcpOperation::Pop(f) => TcpOperation::Pop(
                    ResultFuture {
                        future: f.future,
                        done: ready(tcp.poll_pop_result(f.future.fd)),
                    },
                ),
                TcpOperation::Push(f) => TcpOperation::Push(
                    ResultFuture { future: f.future, done: Some(f.future.result) },
                ),
            }
        }
    }

    /// The peer after a poll of the operation by `ctx`.
    pub open spec fn polled_peer(self, tcp: TcpView, files: Map<u32, File>, ctx: Waker) -> TcpView {
        if self.is_ready() {
            tcp
        } else {
            match self {
                TcpOperation::Accept(f) => tcp.poll_accept(f.future.fd, files, ctx),
                TcpOperation::Connect(f) => match f.future.started {
                    Err(_) => tcp,
                    Ok(()) => tcp.poll_connect(f.future.fd, ctx),
                },
                TcpOperation::Pop(f) => tcp.poll_pop(f.future.fd, ctx),
                TcpOperation::Push(_) => tcp,
            }
        }
    }

    /// The open descriptors after a poll of the operation.
    pub open spec fn polled_files(self, tcp: TcpView, files: Map<u32, File>) -> Map<u32, File> {
        match self {
            TcpOperation::Accept(f) => if f.done is None {
                tcp.poll_accept_files(f.future.fd, files)
            } else {
                files
            },
            _ => files,
        }
    }

    /// Moves the operation on by one step, or leaves `ctx` to be woken when
    /// it can move on.
    pub fn poll(&mut self, tcp: &mut TcpPeer, file_table: &mut FileTable, ctx: &Waker) -> (polled:
        Poll<()>)
        requires
            old(tcp).wf(),
            old(file_table).wf(),
            sockets_open_as(old(tcp)@.sockets, old(file_table)@, File::TcpSocket),
        ensures
            final(tcp).wf(),
            final(file_table).wf(),
            sockets_open_as(final(tcp)@.sockets, final(file_table)@, File::TcpSocket),
            files_kept(old(file_table)@, final(file_table)@),
            *final(self) == old(self).polled(old(tcp)@, old(file_table)@),
            final(tcp)@ == old(self).polled_peer(old(tcp)@, old(file_table)@, *ctx),
            final(file_table)@ == old(self).polled_files(old(tcp)@, old(file_table)@),
            polled is Ready <==> final(self).is_ready(),
    {
        match self {
            TcpOperation::Accept(f) => {
                if f.done.is_some() {
                    return Poll::Ready(());
                }
                match tcp.poll_accept(f.future.fd, file_table, ctx) {
                    Poll::Ready(r) => {
                        f.done = Some(r);
                        Poll::Ready(())
                    },
                    Poll::Pending => Poll::Pending,
                }
            },
            TcpOperation::Connect(f) => {
                if f.done.is_some() {
                    return Poll::Ready(());
                }
                let polled = match f.future.started {
                    Err(e) => Poll::Ready(Err(e)),
                    Ok(()) => tcp.poll_connect(f.future.fd, ctx),
                };
                match polled {
                    Poll::Ready(r) => {
                        f.done = Some(r);
                        Poll::Ready(())
                    },
                    Poll::Pending => Poll::Pending,
                }
            },
            TcpOperation::Pop(f) => {
                if f.done.is_some() {
                    return Poll::Ready(());
                }
                match tcp.poll_pop(f.future.fd, ctx) {
                    Poll::Ready(r) => {
                        f.done = Some(r);
                        Poll::Ready(())
                    },
                    Poll::Pending => Poll::Pending,
                }
            },
            TcpOperation::Push(f) => {
                if f.done.is_none() {
                    f.done = Some(f.future.result);
                }
                Poll::Ready(())
            },
        }
    }

    /// Gives up the operation for the descriptor it worked on and its
    /// outcome.
    pub fn expect_result(self) -> (outcome: (FileDescriptor, OperationResult))
        requires
            self.is_ready(),
        ensures
            outcome.0 == self.fd(),
            outcome.1 == self.result(),
    {
        match self {
            TcpOperation::Accept(f) => match f.done.unwrap() {
                Ok(new_fd) => (f.future.fd, OperationResult::Accept(new_fd)),
                Err(e) => (f.future.fd, OperationResult::Failed(e)),
            },
            TcpOperation::Connect(f) => match f.done.unwrap() {
                Ok(()) => (f.future.fd, OperationResult::Connect),
                Err(e) => (f.future.fd, OperationResult::Failed(e)),
            },
            TcpOperation::Pop(f) => match f.done.unwrap() {
                Ok(bytes) => (f.future.fd, OperationResult::Pop(None, bytes)),
                Err(e) => (f.future.fd, OperationResult::Failed(e)),
            },
            TcpOperation::Push(f) => match f.done.unwrap() {
                Ok(()) => (f.future.fd, OperationResult::Push),
                Err(e) => (f.future.fd, OperationResult::Failed(e)),
            },
        }
    }
}

} // verus!
