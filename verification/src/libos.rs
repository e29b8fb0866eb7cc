//! The socket interface of the stack: calls that never block, tokens for
//! the operations that take more than one step, and the rounds of work in
//! which tokens are resolved.

use crate::engine::{Engine, EngineView, Protocol};
use crate::fail::Fail;
use crate::file_table::FileDescriptor;
use crate::interop::{dmtr_qresult_t, dmtr_sgarray_t};
use crate::operations::OperationResult;
use crate::protocols::ip::Port;
use crate::protocols::ipv4::Endpoint;
use crate::runtime::{Runtime, RuntimeView};
use crate::scheduler::{Operation, Scheduler, SchedulerView};
use crate::sync::Bytes;
use vstd::prelude::*;

verus! {

/// Every how many rounds the clock is read.
pub const TIMER_RESOLUTION: usize = 64;

/// After how many frames beyond the first a round of a wait stops looking
/// at what came in.
pub const MAX_RECV_ITER: usize = 2;

/// Every how many rounds a wait with a timeout looks at its deadline, and
/// after how many rounds it sets one.
pub const DEADLINE_ROUNDS: u64 = 25;

/// The name of a pending operation.
pub type QToken = u64;

/// `libc::AF_INET`: the number of the IPv4 address family on this
/// platform.
#[verifier::external_body]
fn af_inet() -> (domain: i32) {
    libc::AF_INET
}

/// `libc::SOCK_STREAM`: the number of the stream socket type on this
/// platform.
#[verifier::external_body]
fn sock_stream() -> (socket_type: i32) {
    libc::SOCK_STREAM
}

/// `libc::SOCK_DGRAM`: the number of the datagram socket type on this
/// platform.
#[verifier::external_body]
fn sock_dgram() -> (socket_type: i32) {
    libc::SOCK_DGRAM
}

/// The protocol that a call of `socket` asks for, where `inet`, `stream`
/// and `dgram` are the platform's numbers for the IPv4 family and the two
/// socket types.
pub open spec fn requested_protocol(
    domain: i32,
    socket_type: i32,
    protocol: i32,
    inet: i32,
    stream: i32,
    dgram: i32,
) -> Result<Protocol, Fail> {
    if domain != inet {
        Err(Fail::Invalid { details: "Invalid domain" })
    } else if socket_type != stream && socket_type != dgram {
        Err(Fail::Invalid { details: "Invalid socket type" })
    } else if protocol != 0 {
        Err(Fail::Invalid { details: "Invalid protocol" })
    } else if socket_type == stream {
        Ok(Protocol::Tcp)
    } else {
        Ok(Protocol::Udp)
    }
}

/// The protocol that a call of `socket` asks for.
pub fn classify_socket(
    domain: i32,
    socket_type: i32,
    protocol: i32,
    inet: i32,
    stream: i32,
    dgram: i32,
) -> (asked: Result<Protocol, Fail>)
    ensures
        asked == requested_protocol(domain, socket_type, protocol, inet, stream, dgram),
{
    if domain != inet {
        return Err(Fail::Invalid { details: "Invalid domain" });
    }
    let engine_protocol = if socket_type == stream {
        Protocol::Tcp
    } else if socket_type == dgram {
        Protocol::Udp
    } else {
        return Err(Fail::Invalid { details: "Invalid socket type" });
    };
    if protocol != 0 {
        return Err(Fail::Invalid { details: "Invalid protocol" });
    }
    Ok(engine_protocol)
}

/// What a wait with a timeout remembers from round to round.
#[derive(Clone, Copy, Debug, PartialEq, Eq, Structural)]
pub struct WaitState {
    /// How many rounds the wait has taken.
    pub iter: u64,
    /// When the wait gives up.
    pub deadline: Option<u64>,
}

/// How a round of a wait ended.
#[derive(Debug)]
pub enum Waited<T> {
    /// The operation has its outcome.
    Done(T),
    /// The deadline has passed.
    TimedOut,
    /// Another round is needed.
    Pending,
}

impl WaitState {
    /// A wait that has taken no round.
    pub fn new() -> (state: WaitState)
        ensures
            state == (WaitState { iter: 0, deadline: None }),
    {
        WaitState { iter: 0, deadline: None }
    }

    /// The deadline after the round `iter`, which ended at time `now`: one
    /// is set `timeout` after the first round that is not among the first
    /// `DEADLINE_ROUNDS`.
    pub open spec fn deadline_after(self, iter: u64, timeout: u64, now: u64) -> Option<u64> {
        if iter >= DEADLINE_ROUNDS && self.deadline is None {
            Some(
                if now + timeout <= u64::MAX {
                    (now + timeout) as u64
                } else {
                    u64::MAX
                },
            )
        } else {
            self.deadline
        }
    }

    /// Whether the wait gives up after the round `iter`, which ended at
    /// time `now`: the deadline is looked at every `DEADLINE_ROUNDS`
    /// rounds.
    pub open spec fn timed_out(self, iter: u64, timeout: u64, now: u64) -> bool {
        iter % DEADLINE_ROUNDS == 0 && (self.deadline_after(iter, timeout, now) matches Some(
            deadline,
        ) && now >= deadline)
    }

    /// Ends the round `iter` at time `now`: sets the deadline where one is
    /// due, and says whether the wait gives up.
    pub fn end_round(&mut self, iter: u64, timeout: u64, now: u64) -> (gives_up: bool)
        ensures
            gives_up == old(self).timed_out(iter, timeout, now),
            final(self).deadline == old(self).deadline_after(iter, timeout, now),
            final(self).iter == old(self).iter,
    {
        if iter >= DEADLINE_ROUNDS && self.deadline.is_none() {
            self.deadline = Some(now.saturating_add(timeout));
        }
        if iter % DEADLINE_ROUNDS == 0 {
            if let Some(d) = self.deadline {
                if now >= d {
                    return true;
                }
            }
        }
        false
    }
}

/// The socket interface as plain values.
pub struct LibOSView {
    pub engine: EngineView,
    pub scheduler: SchedulerView,
    /// How many rounds have passed since the clock was read, modulo
    /// `TIMER_RESOLUTION`.
    pub ts_iters: usize,
}

/// The place of the first token of `qts` whose operation has its outcome,
/// if one has.
pub open spec fn first_completed(scheduler: SchedulerView, qts: Seq<QToken>) -> Option<int>
    decreases qts.len(),
{
    if qts.len() == 0 {
        None
    } else {
        match first_completed(scheduler, qts.drop_last()) {
            Some(i) => Some(i),
            None => if scheduler.has_completed(qts.last()) {
                Some(qts.len() - 1)
            } else {
                None
            },
        }
    }
}

/// The first token that has its outcome is the one at the lowest place.
pub proof fn lemma_first_completed(scheduler: SchedulerView, qts: Seq<QToken>)
    ensures
        match first_completed(scheduler, qts) {
            Some(i) => 0 <= i < qts.len() && scheduler.has_completed(qts[i]) && forall|j: int|
                0 <= j < i ==> !scheduler.has_completed(#[trigger] qts[j]),
            None => forall|j: int| 0 <= j < qts.len() ==> !scheduler.has_completed(#[trigger] qts[j]),
        },
    decreases qts.len(),
{
    if qts.len() > 0 {
        lemma_first_completed(scheduler, qts.drop_last());
        match first_completed(scheduler, qts.drop_last()) {
            Some(i) => {
                assert(qts.drop_last()[i] == qts[i]);
                assert forall|j: int| 0 <= j < i implies !scheduler.has_completed(
                    #[trigger] qts[j],
                ) by {
                    assert(qts.drop_last()[j] == qts[j]);
                }
            },
            None => {
                assert forall|j: int| 0 <= j < qts.len() - 1 implies !scheduler.has_completed(
                    #[trigger] qts[j],
                ) by {
                    assert(qts.drop_last()[j] == qts[j]);
                }
            },
        }
    }
}

/// Whether every token of `qts` names a send that is done.
pub open spec fn all_pushed(scheduler: SchedulerView, qts: Seq<QToken>) -> bool {
    forall|i: int|
        0 <= i < qts.len() ==> scheduler.has_completed(#[trigger] qts[i])
            && scheduler.tasks[qts[i]].result() is Push
}

/// The tokens `qts` without the token at the place `i`: the last token
/// takes its place.
pub open spec fn swap_removed(qts: Seq<QToken>, i: int) -> Seq<QToken> {
    qts.update(i, qts.last()).drop_last()
}

impl LibOSView {
    /// Whether `opened` and `after` are what `socket` gives where the call
    /// asks for `asked`.
    pub open spec fn socket(
        self,
        asked: Result<Protocol, Fail>,
        opened: Result<FileDescriptor, Fail>,
        after: LibOSView,
    ) -> bool {
        match asked {
            Ok(protocol) => opened == self.engine.socket_result() && after == (LibOSView {
                engine: self.engine.socket(protocol),
                ..self
            }),
            Err(e) => opened == Err::<FileDescriptor, Fail>(e) && after == self,
        }
    }

    /// The engine after the round's look at the clock: it is read where
    /// `ts_iters` has come round to zero.
    pub open spec fn clock_read(engine: EngineView, ts_iters: usize, now: u64) -> EngineView {
        if ts_iters == 0 {
            EngineView {
                rt: RuntimeView {
                    now: if now >= engine.rt.now {
                        now
                    } else {
                        engine.rt.now
                    },
                    ..engine.rt
                },
                ..engine
            }
        } else {
            engine
        }
    }

    /// Whether `after` is this interface once a round of the scheduler was
    /// polled, the first `frames` frames that came in were looked at, and
    /// the clock was read if it was due at time `now`.
    pub open spec fn worked(self, frames: nat, now: u64, after: LibOSView) -> bool {
        &&& after.scheduler == self.scheduler.poll(self.engine)
        &&& after.ts_iters == (self.ts_iters + 1) % (TIMER_RESOLUTION as int)
        &&& exists|looked: EngineView| #[trigger]
            self.scheduler.poll_engine(self.engine).drained(frames, looked) && after.engine
                == Self::clock_read(looked, self.ts_iters, now)
    }

    /// The interface after the operation behind `qt` was taken out, where
    /// it has its outcome.
    pub open spec fn resolved(self, qt: QToken) -> LibOSView {
        if self.scheduler.has_completed(qt) {
            LibOSView { scheduler: self.scheduler.remove(qt), ..self }
        } else {
            self
        }
    }

    /// The outcome of the operation behind `qt`, where it has one, with
    /// the descriptor it worked on.
    pub open spec fn outcome(self, qt: QToken) -> Option<(FileDescriptor, OperationResult)> {
        if self.scheduler.has_completed(qt) {
            Some((self.scheduler.tasks[qt].fd(), self.scheduler.tasks[qt].result()))
        } else {
            None
        }
    }

    /// Whether `record` packs the outcome of the operation behind `qt`,
    /// where it has one.
    pub open spec fn packed(self, qt: QToken, record: Option<dmtr_qresult_t>) -> bool {
        match record {
            Some(r) => self.scheduler.has_completed(qt) && r.holds(
                self.scheduler.tasks[qt].result(),
                self.scheduler.tasks[qt].fd(),
                qt,
            ),
            None => !self.scheduler.has_completed(qt),
        }
    }

    /// The interface after `op`, if the engine handed one out, was put
    /// into the scheduler.
    pub open spec fn scheduled(self, op: Result<Operation, Fail>) -> LibOSView {
        match op {
            Ok(o) => LibOSView { scheduler: self.scheduler.insert(o), ..self },
            Err(_) => self,
        }
    }

    /// The token under which `op` is known, or why there is none.
    pub open spec fn token(self, op: Result<Operation, Fail>) -> Result<QToken, Fail> {
        match op {
            Ok(_) => if self.scheduler.next_key < u64::MAX {
                Ok(self.scheduler.next_key)
            } else {
                Err(Fail::ResourceExhausted { details: "Out of scheduler keys" })
            },
            Err(e) => Err(e),
        }
    }

    /// How many frames a full round looks at: all that wait after the
    /// poll.
    pub open spec fn waiting_frames(self) -> nat {
        self.scheduler.poll_engine(self.engine).rt.incoming.len()
    }

    /// How many frames a round of a wait looks at: those that wait after
    /// the poll, but no more than `MAX_RECV_ITER` beyond the first.
    pub open spec fn limited_frames(self) -> nat {
        if self.waiting_frames() <= MAX_RECV_ITER + 1 {
            self.waiting_frames()
        } else {
            (MAX_RECV_ITER + 1) as nat
        }
    }
}

/// The socket interface of the stack.
pub struct LibOS {
    pub engine: Engine,
    pub scheduler: Scheduler,
    pub ts_iters: usize,
}

impl View for LibOS {
    type V = LibOSView;

    open spec fn view(&self) -> LibOSView {
        LibOSView { engine: self.engine@, scheduler: self.scheduler@, ts_iters: self.ts_iters }
    }
}

impl LibOS {
    /// Whether the interface keeps its invariant.
    pub open spec fn wf(&self) -> bool {
        self.engine.wf() && self.scheduler.wf() && self.ts_iters < TIMER_RESOLUTION
    }

    /// The interface on top of the runtime `rt`, with no socket open. The
    /// background work of the engine is its first operation.
    pub fn new(rt: Runtime) -> (libos: Result<LibOS, Fail>)
        ensures
            libos matches Ok(l) && l.wf() && l@.engine.is_fresh(rt@) && l@.ts_iters == 0
                && l@.scheduler == (SchedulerView {
                tasks: Map::empty().insert(0u64, Operation::Background),
                ready: seq![0u64],
                next_key: 1,
            }),
    {
        LibOS::with_first_port(rt, Port::first_private_port())
    }

    /// The interface on top of the runtime `rt`, with no socket open, whose
    /// ephemeral ports are the ports from `first_port` on.
    pub fn with_first_port(rt: Runtime, first_port: Port) -> (libos: Result<LibOS, Fail>)
        ensures
            libos matches Ok(l) && l.wf() && l@.engine.is_fresh_from(rt@, first_port@)
                && l@.ts_iters == 0 && l@.scheduler == (SchedulerView {
                tasks: Map::empty().insert(0u64, Operation::Background),
                ready: seq![0u64],
                next_key: 1,
            }),
    {
        let engine = match Engine::with_first_port(rt, first_port) {
            Ok(engine) => engine,
            Err(e) => {
                return Err(e);
            },
        };
        let mut scheduler = Scheduler::new();
        let _ = scheduler.insert(Operation::Background);
        assert(scheduler@.ready =~= seq![0u64]);
        Ok(LibOS { engine, scheduler, ts_iters: 0 })
    }

    /// What the interface shares with the runtime.
    pub fn rt(&self) -> (rt: &Runtime)
        ensures
            *rt == self.engine.rt,
    {
        &self.engine.rt
    }

    /// Opens a socket on a platform whose numbers for the IPv4 family, for
    /// stream sockets and for datagram sockets are `inet`, `stream` and
    /// `dgram`. Only that family is served, with stream sockets for TCP and
    /// datagram sockets for UDP, and no protocol number but zero.
    pub fn socket_with(
        &mut self,
        domain: i32,
        socket_type: i32,
        protocol: i32,
        inet: i32,
        stream: i32,
        dgram: i32,
    ) -> (opened: Result<FileDescriptor, Fail>)
        requires
            old(self).wf(),
        ensures
            final(self).wf(),
            old(self)@.socket(
                requested_protocol(domain, socket_type, protocol, inet, stream, dgram),
                opened,
                final(self)@,
            ),
    {
        match classify_socket(domain, socket_type, protocol, inet, stream, dgram) {
            Ok(engine_protocol) => self.engine.socket(engine_protocol),
            Err(e) => Err(e),
        }
    }

    /// Opens a socket. Only the IPv4 family is served, with stream sockets
    /// for TCP and datagram sockets for UDP, and no protocol number but
    /// zero.
    pub fn socket(&mut self, domain: i32, socket_type: i32, protocol: i32) -> (opened: Result<
        FileDescriptor,
        Fail,
    >)
        requires
            old(self).wf(),
        ensures
            final(self).wf(),
            exists|inet: i32, stream: i32, dgram: i32|
                old(self)@.socket(
                    #[trigger] requested_protocol(
                        domain,
                        socket_type,
                        protocol,
                        inet,
                        stream,
                        dgram,
                    ),
                    opened,
                    final(self)@,
                ),
            protocol != 0 ==> opened is Err,
            opened is Err ==> final(self)@ == old(self)@,
    {
        let inet = af_inet();
        let stream = sock_stream();
        let dgram = sock_dgram();
        self.socket_with(domain, socket_type, protocol, inet, stream, dgram)
    }
}

impl LibOS {
    /// Puts the operation that the engine handed out into the scheduler.
    fn schedule(&mut self, op: Result<Operation, Fail>) -> (token: Result<QToken, Fail>)
        requires
            old(self).wf(),
        ensures
            final(self).wf(),
            final(self)@ == old(self)@.scheduled(op),
            token == old(self)@.token(op),
    {
        match op {
            Ok(op) => match self.scheduler.insert(op) {
                Ok(handle) => Ok(handle.into_raw()),
                Err(e) => Err(e),
            },
            Err(e) => Err(e),
        }
    }

    /// Binds the socket `fd` to `endpoint`.
    pub fn bind(&mut self, fd: FileDescriptor, endpoint: Endpoint) -> (done: Result<(), Fail>)
        requires
            old(self).wf(),
        ensures
            final(self).wf(),
            final(self)@ == (LibOSView {
                engine: old(self)@.engine.bind(fd, endpoint),
                ..old(self)@
            }),
            done == old(self)@.engine.bind_result(fd, endpoint),
    {
        self.engine.bind(fd, endpoint)
    }

    /// Lets the socket `fd` wait for peers.
    pub fn listen(&mut self, fd: FileDescriptor, backlog: usize) -> (done: Result<(), Fail>)
        requires
            old(self).wf(),
        ensures
            final(self).wf(),
            final(self)@ == (LibOSView {
                engine: old(self)@.engine.listen(fd, backlog),
                ..old(self)@
            }),
            done == old(self)@.engine.listen_result(fd),
    {
        self.engine.listen(fd, backlog)
    }

    /// Begins the wait for a connection to accept on the socket `fd`.
    pub fn accept(&mut self, fd: FileDescriptor) -> (token: Result<QToken, Fail>)
        requires
            old(self).wf(),
        ensures
            final(self).wf(),
            final(self)@ == old(self)@.scheduled(old(self)@.engine.accept_operation(fd)),
            token == old(self)@.token(old(self)@.engine.accept_operation(fd)),
    {
        let future = self.engine.accept(fd);
        self.schedule(future)
    }

    /// Begins a connection of the socket `fd` to `remote`.
    pub fn connect(&mut self, fd: FileDescriptor, remote: Endpoint) -> (token: Result<QToken, Fail>)
        requires
            old(self).wf(),
        ensures
            final(self).wf(),
            exists|isn: u32|
                final(self)@ == (LibOSView {
                    engine: #[trigger] old(self)@.engine.connect(fd, remote, isn),
                    ..old(self)@
                }).scheduled(old(self)@.engine.connect_operation(fd, remote)),
            token == old(self)@.token(old(self)@.engine.connect_operation(fd, remote)),
    {
        let future = self.engine.connect(fd, remote);
        self.schedule(future)
    }

    /// Closes the socket `fd`.
    pub fn close(&mut self, fd: FileDescriptor) -> (done: Result<(), Fail>)
        requires
            old(self).wf(),
        ensures
            final(self).wf(),
            old(self)@.engine.close(fd).same_but_pool(final(self)@.engine),
            old(self)@.engine.rt.pool.donated_all(
                old(self)@.engine.close_released(fd),
                final(self)@.engine.rt.pool,
            ),
            final(self)@.scheduler == old(self)@.scheduler,
            final(self)@.ts_iters == old(self)@.ts_iters,
            done == old(self)@.engine.close_result(fd),
    {
        self.engine.close(fd)
    }

    /// Sends the bytes of `sga`, copied into one buffer, on the socket
    /// `fd`.
    pub fn push(&mut self, fd: FileDescriptor, sga: &dmtr_sgarray_t) -> (token: Result<
        QToken,
        Fail,
    >)
        requires
            old(self).wf(),
            sga.wf(),
            0 < sga.spec_bytes().len() <= usize::MAX,
        ensures
            final(self).wf(),
            exists|buf: Bytes|
                buf@ == sga.spec_bytes() && final(self)@ == (LibOSView {
                    engine: #[trigger] old(self)@.engine.push(fd, buf),
                    ..old(self)@
                }).scheduled(old(self)@.engine.push_operation(fd, buf)) && token == old(
                    self,
                )@.token(old(self)@.engine.push_operation(fd, buf)),
    {
        let buf = sga.gather().freeze();
        let future = self.engine.push(fd, buf);
        let token = self.schedule(future);
        assert(buf@ == sga.spec_bytes() && self@ == (LibOSView {
            engine: old(self)@.engine.push(fd, buf),
            ..old(self)@
        }).scheduled(old(self)@.engine.push_operation(fd, buf)) && token == old(self)@.token(
            old(self)@.engine.push_operation(fd, buf),
        ));
        token
    }

    /// Sends `buf` on the socket `fd`. No byte is copied.
    pub fn push2(&mut self, fd: FileDescriptor, buf: Bytes) -> (token: Result<QToken, Fail>)
        requires
            old(self).wf(),
        ensures
            final(self).wf(),
            final(self)@ == (LibOSView {
                engine: old(self)@.engine.push(fd, buf),
                ..old(self)@
            }).scheduled(old(self)@.engine.push_operation(fd, buf)),
            token == old(self)@.token(old(self)@.engine.push_operation(fd, buf)),
    {
        let future = self.engine.push(fd, buf);
        self.schedule(future)
    }

    /// Sends the bytes of `sga`, copied into one buffer, from the UDP
    /// socket `fd` to the endpoint `to`.
    pub fn pushto(&mut self, fd: FileDescriptor, sga: &dmtr_sgarray_t, to: Endpoint) -> (token:
        Result<QToken, Fail>)
        requires
            old(self).wf(),
            sga.wf(),
            0 < sga.spec_bytes().len() <= usize::MAX,
        ensures
            final(self).wf(),
            exists|buf: Bytes|
                buf@ == sga.spec_bytes() && final(self)@ == (LibOSView {
                    engine: #[trigger] old(self)@.engine.pushto(fd, buf, to),
                    ..old(self)@
                }).scheduled(old(self)@.engine.pushto_operation(fd, buf, to)) && token == old(
                    self,
                )@.token(old(self)@.engine.pushto_operation(fd, buf, to)),
    {
        let buf = sga.gather().freeze();
        let future = self.engine.pushto(fd, buf, to);
        let token = self.schedule(future);
        assert(buf@ == sga.spec_bytes() && self@ == (LibOSView {
            engine: old(self)@.engine.pushto(fd, buf, to),
            ..old(self)@
        }).scheduled(old(self)@.engine.pushto_operation(fd, buf, to)) && token == old(
            self,
        )@.token(old(self)@.engine.pushto_operation(fd, buf, to)));
        token
    }

    /// Cancels the operation behind `qt`: it leaves the scheduler, whether
    /// it has its outcome or not.
    pub fn drop_qtoken(&mut self, qt: QToken)
        requires
            old(self).wf(),
            old(self)@.scheduler.tasks.contains_key(qt),
        ensures
            final(self).wf(),
            final(self)@ == (LibOSView {
                scheduler: old(self)@.scheduler.remove(qt),
                ..old(self)@
            }),
    {
        let handle = self.scheduler.from_raw_handle(qt).unwrap();
        self.scheduler.cancel(handle);
    }

    /// Begins a read on the socket `fd`.
    pub fn pop(&mut self, fd: FileDescriptor) -> (token: Result<QToken, Fail>)
        requires
            old(self).wf(),
        ensures
            final(self).wf(),
            final(self)@ == old(self)@.scheduled(old(self)@.engine.pop_operation(fd)),
            token == old(self)@.token(old(self)@.engine.pop_operation(fd)),
    {
        let future = self.engine.pop(fd);
        self.schedule(future)
    }

    /// Takes the operation behind `qt`, which has its outcome, out of the
    /// scheduler.
    fn take_operation2(&mut self, qt: QToken) -> (outcome: (FileDescriptor, OperationResult))
        requires
            old(self).wf(),
            old(self)@.scheduler.has_completed(qt),
        ensures
            final(self).wf(),
            final(self)@ == old(self)@.resolved(qt),
            Some(outcome) == old(self)@.outcome(qt),
    {
        let handle = self.scheduler.from_raw_handle(qt).unwrap();
        self.scheduler.take(handle).expect_result()
    }

    /// Takes the operation behind `qt`, which has its outcome, out of the
    /// scheduler and packs the outcome.
    fn take_operation(&mut self, qt: QToken) -> (record: dmtr_qresult_t)
        requires
            old(self).wf(),
            old(self)@.scheduler.has_completed(qt),
        ensures
            final(self).wf(),
            final(self)@ == old(self)@.resolved(qt),
            old(self)@.packed(qt, Some(record)),
    {
        let (qd, r) = self.take_operation2(qt);
        dmtr_qresult_t::pack(r, qd, qt)
    }

    /// Whether the operation behind `qt` has its outcome.
    fn completed(&self, qt: QToken) -> (done: bool)
        requires
            self.wf(),
        ensures
            done == self@.scheduler.has_completed(qt),
    {
        match self.scheduler.from_raw_handle(qt) {
            Some(handle) => self.scheduler.has_completed(&handle),
            None => false,
        }
    }

    /// Packs the outcome of the operation behind `qt` where it has one,
    /// and leaves the operation alone where it has none. Past such an
    /// outcome `qt` names nothing.
    pub fn poll(&mut self, qt: QToken) -> (record: Option<dmtr_qresult_t>)
        requires
            old(self).wf(),
            old(self)@.scheduler.tasks.contains_key(qt),
        ensures
            final(self).wf(),
            final(self)@ == old(self)@.resolved(qt),
            old(self)@.packed(qt, record),
    {
        if !self.completed(qt) {
            return None;
        }
        Some(self.take_operation(qt))
    }

    /// Looks at up to `limit` of the frames that came in, the oldest
    /// first. A frame that the engine refuses is dropped.
    fn receive_frames(&mut self, limit: usize) -> (count: usize)
        requires
            old(self).wf(),
        ensures
            final(self).wf(),
            count == (if old(self)@.engine.rt.incoming.len() <= limit {
                old(self)@.engine.rt.incoming.len()
            } else {
                limit as nat
            }),
            old(self)@.engine.drained(count as nat, final(self)@.engine),
            final(self)@.scheduler == old(self)@.scheduler,
            final(self)@.ts_iters == old(self)@.ts_iters,
    {
        let mut count: usize = 0;
        while count < limit
            invariant
                self.wf(),
                count <= limit,
                count <= old(self)@.engine.rt.incoming.len(),
                self@.engine.rt.incoming == old(self)@.engine.rt.incoming.skip(count as int),
                old(self)@.engine.drained(count as nat, self@.engine),
                self@.scheduler == old(self)@.scheduler,
                self@.ts_iters == old(self)@.ts_iters,
            ensures
                count == limit || count == old(self)@.engine.rt.incoming.len(),
            decreases limit - count,
        {
            let ghost mid = self@.engine;
            match self.engine.rt.receive() {
                None => {
                    break ;
                },
                Some(frame) => {
                    assert(self@.engine == mid.next_frame());
                    assert(frame == mid.rt.incoming[0]);
                    let _ = self.engine.receive(frame);
                    proof {
                        assert(mid.next_frame().received(mid.rt.incoming[0], self@.engine));
                        assert(self@.engine.rt.incoming =~= old(self)@.engine.rt.incoming.skip(
                            count + 1,
                        ));
                    }
                    count = count + 1;
                },
            }
        }
        count
    }

    /// Reads the clock where it is due, and counts the round.
    fn end_round(&mut self, now: u64)
        requires
            old(self).wf(),
        ensures
            final(self).wf(),
            final(self)@ == (LibOSView {
                engine: LibOSView::clock_read(old(self)@.engine, old(self)@.ts_iters, now),
                ts_iters: ((old(self)@.ts_iters + 1) % (TIMER_RESOLUTION as int)) as usize,
                ..old(self)@
            }),
    {
        if self.ts_iters == 0 {
            self.engine.rt.advance_clock(now);
        }
        self.ts_iters = (self.ts_iters + 1) % TIMER_RESOLUTION;
    }

    /// Does one round of work: polls the scheduler, looks at every frame
    /// that came in, and reads the clock where it is due, at time `now`.
    pub fn poll_bg_work(&mut self, now: u64)
        requires
            old(self).wf(),
        ensures
            final(self).wf(),
            old(self)@.worked(old(self)@.waiting_frames(), now, final(self)@),
    {
        self.scheduler.poll(&mut self.engine);
        let ghost polled = self@.engine;
        let waiting = self.engine.rt.incoming.len();
        let _ = self.receive_frames(waiting);
        let ghost looked = self@.engine;
        self.end_round(now);
        assert(polled.drained(old(self)@.waiting_frames(), looked) && self@.engine
            == LibOSView::clock_read(looked, old(self)@.ts_iters, now));
    }

    /// Does one round of a wait: polls the scheduler and hands out the
    /// outcome of the operation behind `qt` where it has one; looks at a
    /// few of the frames that came in and reads the clock where it has
    /// none.
    fn wait_round(&mut self, qt: QToken, now: u64) -> (outcome: Option<
        (FileDescriptor, OperationResult),
    >)
        requires
            old(self).wf(),
            old(self)@.scheduler.tasks.contains_key(qt),
        ensures
            final(self).wf(),
            final(self)@.scheduler.tasks.contains_key(qt) == (outcome is None),
            ({
                let polled = LibOSView {
                    engine: old(self)@.scheduler.poll_engine(old(self)@.engine),
                    scheduler: old(self)@.scheduler.poll(old(self)@.engine),
                    ..old(self)@
                };
                &&& outcome == polled.outcome(qt)
                &&& outcome is Some ==> final(self)@ == polled.resolved(qt)
                &&& outcome is None ==> old(self)@.worked(
                    old(self)@.limited_frames(),
                    now,
                    final(self)@,
                )
            }),
    {
        proof {
            self.scheduler.lemma_wf();
            let start = SchedulerView { ready: Seq::empty(), ..self@.scheduler };
            start.lemma_poll_run_keeps_keys(
                EngineView {
                    rt: RuntimeView { wakes: Seq::empty(), ..self@.engine.rt },
                    ..self@.engine
                },
                self@.scheduler.round(self@.engine),
            );
            assert(self@.scheduler.poll(self@.engine).tasks.dom().contains(qt));
        }
        self.scheduler.poll(&mut self.engine);
        if self.completed(qt) {
            return Some(self.take_operation2(qt));
        }
        let ghost polled = self@.engine;
        let _ = self.receive_frames(MAX_RECV_ITER + 1);
        let ghost looked = self@.engine;
        self.end_round(now);
        assert(polled.drained(old(self)@.limited_frames(), looked) && self@.engine
            == LibOSView::clock_read(looked, old(self)@.ts_iters, now));
        None
    }

    /// Does one round of work at time `now` and packs the outcome of the
    /// operation behind `qt` where it has one.
    pub fn wait(&mut self, qt: QToken, now: u64) -> (record: Option<dmtr_qresult_t>)
        requires
            old(self).wf(),
            old(self)@.scheduler.tasks.contains_key(qt),
        ensures
            final(self).wf(),
            exists|worked: LibOSView| #[trigger]
                old(self)@.worked(old(self)@.waiting_frames(), now, worked) && final(self)@
                    == worked.resolved(qt) && worked.packed(qt, record),
    {
        self.poll_bg_work(now);
        let ghost worked = self@;
        if self.completed(qt) {
            let record = self.take_operation(qt);
            assert(old(self)@.worked(old(self)@.waiting_frames(), now, worked) && self@
                == worked.resolved(qt) && worked.packed(qt, Some(record)));
            return Some(record);
        }
        assert(old(self)@.worked(old(self)@.waiting_frames(), now, worked) && self@
            == worked.resolved(qt) && worked.packed(qt, None));
        None
    }

    /// Does one round of a wait for the operation behind `qt` at time
    /// `now`.
    pub fn wait2(&mut self, qt: QToken, now: u64) -> (outcome: Option<
        (FileDescriptor, OperationResult),
    >)
        requires
            old(self).wf(),
            old(self)@.scheduler.tasks.contains_key(qt),
        ensures
            final(self).wf(),
            final(self)@.scheduler.tasks.contains_key(qt) == (outcome is None),
            ({
                let polled = LibOSView {
                    engine: old(self)@.scheduler.poll_engine(old(self)@.engine),
                    scheduler: old(self)@.scheduler.poll(old(self)@.engine),
                    ..old(self)@
                };
                &&& outcome == polled.outcome(qt)
                &&& outcome is Some ==> final(self)@ == polled.resolved(qt)
                &&& outcome is None ==> old(self)@.worked(
                    old(self)@.limited_frames(),
                    now,
                    final(self)@,
                )
            }),
    {
        self.wait_round(qt, now)
    }

    /// Does one round of a wait for the operation behind `qt` at time
    /// `now`.
    pub fn wait3(&mut self, qt: QToken, now: u64) -> (outcome: Option<
        (FileDescriptor, OperationResult),
    >)
        requires
            old(self).wf(),
            old(self)@.scheduler.tasks.contains_key(qt),
        ensures
            final(self).wf(),
            final(self)@.scheduler.tasks.contains_key(qt) == (outcome is None),
            ({
                let polled = LibOSView {
                    engine: old(self)@.scheduler.poll_engine(old(self)@.engine),
                    scheduler: old(self)@.scheduler.poll(old(self)@.engine),
                    ..old(self)@
                };
                &&& outcome == polled.outcome(qt)
                &&& outcome is Some ==> final(self)@ == polled.resolved(qt)
                &&& outcome is None ==> old(self)@.worked(
                    old(self)@.limited_frames(),
                    now,
                    final(self)@,
                )
            }),
    {
        self.wait_round(qt, now)
    }

    /// Does one round of a wait for the operation behind `qt` that gives
    /// up `timeout` after its first `DEADLINE_ROUNDS` rounds. `state` is
    /// what the wait remembers from round to round.
    pub fn wait4(&mut self, qt: QToken, state: &mut WaitState, timeout: u64, now: u64) -> (waited:
        Waited<(FileDescriptor, OperationResult)>)
        requires
            old(self).wf(),
            old(self)@.scheduler.tasks.contains_key(qt),
        ensures
            final(self).wf(),
            final(self)@.scheduler.tasks.contains_key(qt) == !(waited is Done),
            ({
                let polled = LibOSView {
                    engine: old(self)@.scheduler.poll_engine(old(self)@.engine),
                    scheduler: old(self)@.scheduler.poll(old(self)@.engine),
                    ..old(self)@
                };
                match polled.outcome(qt) {
                    Some(outcome) => waited == Waited::Done(outcome) && final(self)@
                        == polled.resolved(qt) && *final(state) == *old(state),
                    None => {
                        &&& old(self)@.worked(old(self)@.limited_frames(), now, final(self)@)
                        &&& final(state).iter == (if old(state).iter < u64::MAX {
                            (old(state).iter + 1) as u64
                        } else {
                            u64::MAX
                        })
                        &&& final(state).deadline == old(state).deadline_after(
                            old(state).iter,
                            timeout,
                            now,
                        )
                        &&& if old(state).timed_out(old(state).iter, timeout, now) {
                            waited is TimedOut
                        } else {
                            waited is Pending
                        }
                    },
                }
            }),
    {
        match self.wait_round(qt, now) {
            Some(outcome) => Waited::Done(outcome),
            None => {
                let iter = state.iter;
                let gives_up = state.end_round(iter, timeout, now);
                state.iter = state.iter.saturating_add(1);
                if gives_up {
                    Waited::TimedOut
                } else {
                    Waited::Pending
                }
            },
        }
    }

    /// Looks for the first token of `qts` whose operation has its outcome.
    fn find_completed(&self, qts: &[QToken]) -> (found: Option<usize>)
        requires
            self.wf(),
        ensures
            match found {
                Some(i) => first_completed(self@.scheduler, qts@) == Some(i as int) && i
                    < qts@.len() && self@.scheduler.has_completed(qts@[i as int]),
                None => first_completed(self@.scheduler, qts@) is None,
            },
    {
        let mut i: usize = 0;
        assert(qts@.take(0) =~= Seq::<QToken>::empty());
        while i < qts.len()
            invariant
                self.wf(),
                i <= qts@.len(),
                first_completed(self@.scheduler, qts@.take(i as int)) is None,
            decreases qts@.len() - i,
        {
            proof {
                assert(qts@.take(i + 1).drop_last() =~= qts@.take(i as int));
                assert(qts@.take(i + 1).last() == qts@[i as int]);
                lemma_first_completed_prefix(self@.scheduler, qts@, i as int + 1);
            }
            if self.completed(qts[i]) {
                proof {
                    lemma_first_completed_extends(self@.scheduler, qts@, i as int + 1);
                }
                return Some(i);
            }
            i = i + 1;
        }
        assert(qts@.take(qts@.len() as int) =~= qts@);
        None
    }

    /// Does one round of work at time `now` and hands out the outcome of
    /// the first operation among `qts` that has one; its token leaves
    /// `qts`, and the last token takes its place. The wait gives up
    /// `timeout` after its first `DEADLINE_ROUNDS` rounds.
    pub fn wait_any2(
        &mut self,
        qts: &mut Vec<QToken>,
        state: &mut WaitState,
        timeout: u64,
        now: u64,
    ) -> (waited:
        Waited<(FileDescriptor, OperationResult)>)
        requires
            old(self).wf(),
        ensures
            final(self).wf(),
            exists|worked: LibOSView| #[trigger]
                old(self)@.worked(old(self)@.waiting_frames(), now, worked) && (
                match first_completed(worked.scheduler, old(qts)@) {
                    Some(i) => {
                        &&& waited matches Waited::Done(outcome)
                        &&& Some(outcome) == worked.outcome(old(qts)@[i])
                        &&& final(self)@ == worked.resolved(old(qts)@[i])
                        &&& final(qts)@ == swap_removed(old(qts)@, i)
                        &&& *final(state) == *old(state)
                    },
                    None => {
                        let iter = if old(state).iter < u64::MAX {
                            (old(state).iter + 1) as u64
                        } else {
                            u64::MAX
                        };
                        &&& final(self)@ == worked
                        &&& final(qts)@ == old(qts)@
                        &&& final(state).iter == iter
                        &&& final(state).deadline == old(state).deadline_after(iter, timeout, now)
                        &&& if old(state).timed_out(iter, timeout, now) {
                            waited is TimedOut
                        } else {
                            waited is Pending
                        }
                    },
                }),
    {
        self.poll_bg_work(now);
        let ghost worked = self@;
        match self.find_completed(qts.as_slice()) {
            Some(i) => {
                let outcome = self.take_operation2(qts[i]);
                let _ = qts.swap_remove(i);
                assert(qts@ =~= swap_removed(old(qts)@, i as int));
                assert(old(self)@.worked(old(self)@.waiting_frames(), now, worked));
                Waited::Done(outcome)
            },
            None => {
                state.iter = state.iter.saturating_add(1);
                let iter = state.iter;
                let gives_up = state.end_round(iter, timeout, now);
                assert(old(self)@.worked(old(self)@.waiting_frames(), now, worked));
                if gives_up {
                    Waited::TimedOut
                } else {
                    Waited::Pending
                }
            },
        }
    }

    /// Does one round of work at time `now` and packs the outcome of the
    /// first operation among `qts` that has one, with its place in `qts`.
    pub fn wait_any(&mut self, qts: &[QToken], now: u64) -> (found: Option<(usize, dmtr_qresult_t)>)
        requires
            old(self).wf(),
        ensures
            final(self).wf(),
            exists|worked: LibOSView| #[trigger]
                old(self)@.worked(old(self)@.waiting_frames(), now, worked) && (
                match first_completed(worked.scheduler, qts@) {
                    Some(i) => {
                        &&& found matches Some((place, record))
                        &&& place == i
                        &&& worked.packed(qts@[i], Some(record))
                        &&& final(self)@ == worked.resolved(qts@[i])
                    },
                    None => found is None && final(self)@ == worked,
                }),
    {
        self.poll_bg_work(now);
        let ghost worked = self@;
        match self.find_completed(qts) {
            Some(i) => {
                let record = self.take_operation(qts[i]);
                assert(old(self)@.worked(old(self)@.waiting_frames(), now, worked));
                Some((i, record))
            },
            None => {
                assert(old(self)@.worked(old(self)@.waiting_frames(), now, worked));
                None
            },
        }
    }
}

impl LibOS {
    /// Whether the operation behind `qt` is a send that is done.
    fn pushed(&self, qt: QToken) -> (done: bool)
        requires
            self.wf(),
        ensures
            done == (self@.scheduler.has_completed(qt) && self@.scheduler.tasks[qt].result()
                is Push),
    {
        match self.scheduler.from_raw_handle(qt) {
            Some(handle) => self.scheduler.has_pushed(&handle),
            None => false,
        }
    }

    /// Does one round of work at time `now` and resolves the tokens `qts`,
    /// which all name sends that are done by then: every one of them
    /// leaves the scheduler and `qts`. Where one of them is not a send
    /// that is done, nothing is resolved.
    pub fn wait_all_pushes(&mut self, qts: &mut Vec<QToken>, now: u64) -> (done: Result<(), Fail>)
        requires
            old(self).wf(),
        ensures
            final(self).wf(),
            exists|worked: LibOSView| #[trigger]
                old(self)@.worked(old(self)@.waiting_frames(), now, worked) && (if all_pushed(
                    worked.scheduler,
                    old(qts)@,
                ) {
                    &&& done == Ok::<(), Fail>(())
                    &&& final(qts)@.len() == 0
                    &&& final(self)@ == (LibOSView {
                        scheduler: SchedulerView {
                            tasks: worked.scheduler.tasks.remove_keys(old(qts)@.to_set()),
                            ..worked.scheduler
                        },
                        ..worked
                    })
                } else {
                    &&& done == Err::<(), Fail>(Fail::Invalid { details: "Push not done" })
                    &&& final(qts)@ == old(qts)@
                    &&& final(self)@ == worked
                }),
    {
        self.poll_bg_work(now);
        let ghost worked = self@;
        assert(old(self)@.worked(old(self)@.waiting_frames(), now, worked));
        let mut i: usize = 0;
        while i < qts.len()
            invariant
                self.wf(),
                self@ == worked,
                old(self)@.worked(old(self)@.waiting_frames(), now, worked),
                *qts == *old(qts),
                i <= qts@.len(),
                forall|j: int|
                    0 <= j < i ==> worked.scheduler.has_completed(#[trigger] qts@[j])
                        && worked.scheduler.tasks[qts@[j]].result() is Push,
            decreases qts@.len() - i,
        {
            if !self.pushed(qts[i]) {
                assert(!(worked.scheduler.has_completed(qts@[i as int])
                    && worked.scheduler.tasks[qts@[i as int]].result() is Push));
                return Err(Fail::Invalid { details: "Push not done" });
            }
            i = i + 1;
        }
        let mut i: usize = 0;
        assert(qts@.take(0).to_set() =~= Set::<QToken>::empty());
        assert(worked.scheduler.tasks.remove_keys(Set::<QToken>::empty())
            =~= worked.scheduler.tasks);
        while i < qts.len()
            invariant
                self.wf(),
                old(self)@.worked(old(self)@.waiting_frames(), now, worked),
                all_pushed(worked.scheduler, qts@),
                *qts == *old(qts),
                i <= qts@.len(),
                self@ == (LibOSView {
                    scheduler: SchedulerView {
                        tasks: worked.scheduler.tasks.remove_keys(qts@.take(i as int).to_set()),
                        ..worked.scheduler
                    },
                    ..worked
                }),
            decreases qts@.len() - i,
        {
            let qt = qts[i];
            let ghost before = self@.scheduler.tasks;
            match self.scheduler.from_raw_handle(qt) {
                Some(handle) => {
                    self.scheduler.cancel(handle);
                },
                None => {},
            }
            proof {
                assert(qts@.take(i + 1) =~= qts@.take(i as int).push(qt));
                qts@.take(i as int).lemma_push_to_set_commute(qt);
                assert(self@.scheduler.tasks =~= worked.scheduler.tasks.remove_keys(
                    qts@.take(i + 1).to_set(),
                ));
            }
            i = i + 1;
        }
        assert(qts@.take(qts@.len() as int) =~= qts@);
        qts.clear();
        Ok(())
    }
}

/// A token that is the first among the first `n` to have its outcome is the
/// first among all.
pub proof fn lemma_first_completed_extends(scheduler: SchedulerView, qts: Seq<QToken>, n: int)
    requires
        0 <= n <= qts.len(),
        first_completed(scheduler, qts.take(n)) is Some,
    ensures
        first_completed(scheduler, qts) == first_completed(scheduler, qts.take(n)),
    decreases qts.len() - n,
{
    if n < qts.len() {
        lemma_first_completed_prefix(scheduler, qts, n + 1);
        lemma_first_completed_extends(scheduler, qts, n + 1);
    } else {
        assert(qts.take(n) =~= qts);
    }
}

/// Among the first `n` tokens, the first that has its outcome is found by
/// looking at the first `n - 1` and then at the one after them.
pub proof fn lemma_first_completed_prefix(scheduler: SchedulerView, qts: Seq<QToken>, n: int)
    requires
        0 < n <= qts.len(),
    ensures
        first_completed(scheduler, qts.take(n)) == (match first_completed(
            scheduler,
            qts.take(n - 1),
        ) {
            Some(i) => Some(i),
            None => if scheduler.has_completed(qts[n - 1]) {
                Some(n - 1)
            } else {
                None
            },
        }),
{
    assert(qts.take(n).drop_last() =~= qts.take(n - 1));
    assert(qts.take(n).last() == qts[n - 1]);
}

} // verus!
