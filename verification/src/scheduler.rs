//! The cooperative scheduler: a pool of operations on one thread, each of
//! which is moved on by one step when it is polled.

use crate::collections::Table;
use crate::engine::{Engine, EngineView};
use crate::fail::Fail;
use crate::file_table::FileDescriptor;
use crate::operations::OperationResult;
use crate::protocols::tcp::operations::TcpOperation;
use crate::operations::Poll;
use crate::protocols::udp::UdpOperation;
use crate::runtime::RuntimeView;
use crate::sync::{Waker, WakerU64};
use vstd::prelude::*;

verus! {

/// What the scheduler moves on: an operation on a socket of one of the
/// protocols, or the background work of the engine.
pub enum Operation {
    Tcp(TcpOperation),
    Udp(UdpOperation),
    Background,
}

impl Operation {
    /// Whether the operation has its outcome. Background work never ends.
    pub open spec fn is_ready(self) -> bool {
        match self {
            Operation::Tcp(op) => op.is_ready(),
            Operation::Udp(op) => op.is_ready(),
            Operation::Background => false,
        }
    }

    /// The descriptor that the operation works on.
    pub open spec fn fd(self) -> FileDescriptor {
        match self {
            Operation::Tcp(op) => op.fd(),
            Operation::Udp(op) => op.fd(),
            Operation::Background => arbitrary(),
        }
    }

    /// The outcome of an operation that has one.
    pub open spec fn result(self) -> OperationResult {
        match self {
            Operation::Tcp(op) => op.result(),
            Operation::Udp(op) => op.result(),
            Operation::Background => arbitrary(),
        }
    }

    /// The operation after a poll against `engine`.
    pub open spec fn polled(self, engine: EngineView) -> Operation {
        match self {
            Operation::Tcp(op) => Operation::Tcp(op.polled(engine.tcp, engine.files)),
            Operation::Udp(op) => Operation::Udp(op.polled(engine.udp)),
            Operation::Background => Operation::Background,
        }
    }

    /// The engine after a poll of the operation by `ctx`.
    pub open spec fn polled_engine(self, engine: EngineView, ctx: Waker) -> EngineView {
        match self {
            Operation::Tcp(op) => EngineView {
                tcp: op.polled_peer(engine.tcp, engine.files, ctx),
                files: op.polled_files(engine.tcp, engine.files),
                ..engine
            },
            Operation::Udp(op) => EngineView { udp: op.polled_peer(engine.udp, ctx), ..engine },
            Operation::Background => engine.background(),
        }
    }

    /// Whether the operation has its outcome.
    pub fn has_completed(&self) -> (done: bool)
        ensures
            done == self.is_ready(),
    {
        match self {
            Operation::Tcp(TcpOperation::Accept(f)) => f.done.is_some(),
            Operation::Tcp(TcpOperation::Connect(f)) => f.done.is_some(),
            Operation::Tcp(TcpOperation::Pop(f)) => f.done.is_some(),
            Operation::Tcp(TcpOperation::Push(f)) => f.done.is_some(),
            Operation::Udp(UdpOperation::Pop(f)) => f.done.is_some(),
            Operation::Udp(_) => true,
            Operation::Background => false,
        }
    }

    /// Whether the operation is a send that is done.
    pub fn has_pushed(&self) -> (done: bool)
        ensures
            done == (self.is_ready() && self.result() is Push),
    {
        match self {
            Operation::Tcp(TcpOperation::Push(f)) => match f.done {
                Some(Ok(())) => true,
                _ => false,
            },
            Operation::Udp(UdpOperation::Push(_, Ok(()))) => true,
            _ => false,
        }
    }

    /// Moves the operation on by one step against `engine`, or leaves `ctx`
    /// to be woken when it can move on.
    pub fn poll(&mut self, engine: &mut Engine, ctx: &Waker) -> (polled: Poll<()>)
        requires
            old(engine).wf(),
        ensures
            final(engine).wf(),
            *final(self) == old(self).polled(old(engine)@),
            final(engine)@ == old(self).polled_engine(old(engine)@, *ctx),
            polled is Ready <==> final(self).is_ready(),
    {
        match self {
            Operation::Tcp(op) => op.poll(&mut engine.tcp, &mut engine.file_table, ctx),
            Operation::Udp(op) => op.poll(&mut engine.udp, ctx),
            Operation::Background => {
                engine.background();
                Poll::Pending
            },
        }
    }

    /// Gives up the operation for the descriptor it worked on and its
    /// outcome.
    pub fn expect_result(self) -> (outcome: (FileDescriptor, OperationResult))
        requires
            self.is_ready(),
        ensures
            outcome.0 == self.fd(),
            outcome.1 == self.result(),
    {
        match self {
            Operation::Tcp(op) => op.expect_result(),
            Operation::Udp(op) => op.expect_result(),
            Operation::Background => (0, OperationResult::Push),
        }
    }
}

/// The name of an operation in the scheduler.
#[derive(Debug)]
pub struct SchedulerHandle {
    key: u64,
}

impl SchedulerHandle {
    /// The number that stands for the handle.
    pub closed spec fn spec_key(&self) -> u64 {
        self.key
    }

    /// Gives up the handle for the number that stands for it. The
    /// operation stays in the scheduler.
    pub fn into_raw(self) -> (key: u64)
        ensures
            key == self.spec_key(),
    {
        self.key
    }
}

/// The scheduler as plain values.
pub struct SchedulerView {
    /// The operations in the scheduler, by key.
    pub tasks: Map<u64, Operation>,
    /// The keys of the operations to poll on the next round, in order.
    pub ready: Seq<u64>,
    /// The key that the next operation gets. Keys are never used again.
    pub next_key: u64,
}

impl SchedulerView {
    /// Whether every key in use was handed out.
    pub open spec fn wf(self) -> bool {
        forall|key: u64| #[trigger] self.tasks.contains_key(key) ==> key < self.next_key
    }

    /// Whether the operation under `key` is in the scheduler and has its
    /// outcome.
    pub open spec fn has_completed(self, key: u64) -> bool {
        self.tasks.contains_key(key) && self.tasks[key].is_ready()
    }

    /// Whether `key` was handed out and its operation has left the
    /// scheduler: it was taken or cancelled.
    pub open spec fn retired(self, key: u64) -> bool {
        key < self.next_key && !self.tasks.contains_key(key)
    }

    /// The scheduler after `op` was put in.
    pub open spec fn insert(self, op: Operation) -> SchedulerView {
        if self.next_key < u64::MAX {
            SchedulerView {
                tasks: self.tasks.insert(self.next_key, op),
                ready: self.ready.push(self.next_key),
                next_key: (self.next_key + 1) as u64,
            }
        } else {
            self
        }
    }

    /// The scheduler after the operation under `key` left it.
    pub open spec fn remove(self, key: u64) -> SchedulerView {
        SchedulerView { tasks: self.tasks.remove(key), ..self }
    }

    /// The scheduler after the operation under `key` was polled against
    /// `engine`. An operation that has its outcome is left alone;
    /// background work is polled again on the next round.
    pub open spec fn poll_one(self, engine: EngineView, key: u64) -> SchedulerView {
        if self.tasks.contains_key(key) {
            let op = self.tasks[key];
            SchedulerView {
                tasks: self.tasks.insert(
                    key,
                    if op.is_ready() {
                        op
                    } else {
                        op.polled(engine)
                    },
                ),
                ready: if op is Background {
                    self.ready.push(key)
                } else {
                    self.ready
                },
                ..self
            }
        } else {
            self
        }
    }

    /// The engine after the operation under `key` was polled against it.
    pub open spec fn poll_one_engine(self, engine: EngineView, key: u64) -> EngineView {
        if self.tasks.contains_key(key) && !self.tasks[key].is_ready() {
            self.tasks[key].polled_engine(engine, Waker { key })
        } else {
            engine
        }
    }

    /// The scheduler after the operations under the keys `run` were polled
    /// against `engine`, one after the other.
    pub open spec fn poll_run(self, engine: EngineView, run: Seq<u64>) -> SchedulerView
        decreases run.len(),
    {
        if run.len() == 0 {
            self
        } else {
            self.poll_run(engine, run.drop_last()).poll_one(
                self.poll_run_engine(engine, run.drop_last()),
                run.last(),
            )
        }
    }

    /// The engine after the operations under the keys `run` were polled
    /// against it, one after the other.
    pub open spec fn poll_run_engine(self, engine: EngineView, run: Seq<u64>) -> EngineView
        decreases run.len(),
    {
        if run.len() == 0 {
            engine
        } else {
            self.poll_run(engine, run.drop_last()).poll_one_engine(
                self.poll_run_engine(engine, run.drop_last()),
                run.last(),
            )
        }
    }

    /// The keys that a round polls: those that were due, then those that
    /// were woken since the last round.
    pub open spec fn round(self, engine: EngineView) -> Seq<u64> {
        self.ready + engine.rt.wakes
    }

    /// The scheduler after a round against `engine`.
    pub open spec fn poll(self, engine: EngineView) -> SchedulerView {
        (SchedulerView { ready: Seq::empty(), ..self }).poll_run(
            EngineView { rt: RuntimeView { wakes: Seq::empty(), ..engine.rt }, ..engine },
            self.round(engine),
        )
    }

    /// The engine after a round of the scheduler against it.
    pub open spec fn poll_engine(self, engine: EngineView) -> EngineView {
        (SchedulerView { ready: Seq::empty(), ..self }).poll_run_engine(
            EngineView { rt: RuntimeView { wakes: Seq::empty(), ..engine.rt }, ..engine },
            self.round(engine),
        )
    }

    /// A poll neither brings an operation in nor takes one out, and hands
    /// out no key.
    pub proof fn lemma_poll_one_keeps_keys(self, engine: EngineView, key: u64)
        ensures
            self.poll_one(engine, key).tasks.dom() =~= self.tasks.dom(),
            self.poll_one(engine, key).next_key == self.next_key,
    {
    }

    /// A run of polls neither brings an operation in nor takes one out,
    /// and hands out no key.
    pub proof fn lemma_poll_run_keeps_keys(self, engine: EngineView, run: Seq<u64>)
        ensures
            self.poll_run(engine, run).tasks.dom() =~= self.tasks.dom(),
            self.poll_run(engine, run).next_key == self.next_key,
        decreases run.len(),
    {
        if run.len() > 0 {
            self.lemma_poll_run_keeps_keys(engine, run.drop_last());
            self.poll_run(engine, run.drop_last()).lemma_poll_one_keeps_keys(
                self.poll_run_engine(engine, run.drop_last()),
                run.last(),
            );
        }
    }

    /// An operation that has its outcome keeps it through a poll.
    pub proof fn lemma_poll_one_keeps_outcome(self, engine: EngineView, polled: u64, key: u64)
        requires
            self.has_completed(key),
        ensures
            self.poll_one(engine, polled).has_completed(key),
            self.poll_one(engine, polled).tasks[key] == self.tasks[key],
    {
    }

    /// An operation that has its outcome keeps it through a run of polls.
    pub proof fn lemma_poll_run_keeps_outcome(self, engine: EngineView, run: Seq<u64>, key: u64)
        requires
            self.has_completed(key),
        ensures
            self.poll_run(engine, run).has_completed(key),
            self.poll_run(engine, run).tasks[key] == self.tasks[key],
        decreases run.len(),
    {
        if run.len() > 0 {
            self.lemma_poll_run_keeps_outcome(engine, run.drop_last(), key);
            self.poll_run(engine, run.drop_last()).lemma_poll_one_keeps_outcome(
                self.poll_run_engine(engine, run.drop_last()),
                run.last(),
                key,
            );
        }
    }

    /// Whether `after` is this scheduler one step later: an operation was
    /// put in, or taken out, or a round was polled against some engine.
    pub open spec fn step(self, after: SchedulerView) -> bool {
        ||| exists|op: Operation| after == #[trigger] self.insert(op)
        ||| exists|key: u64| after == #[trigger] self.remove(key)
        ||| exists|engine: EngineView| after == #[trigger] self.poll(engine)
    }

    /// An operation that was cancelled or taken never reports an outcome
    /// again: its key stays retired through every step of the scheduler,
    /// and a retired key has no outcome.
    pub proof fn lemma_retired_is_final(self, after: SchedulerView, key: u64)
        requires
            self.wf(),
            self.retired(key),
            self.step(after),
        ensures
            after.wf(),
            after.retired(key),
            !after.has_completed(key),
    {
        if exists|engine: EngineView| after == #[trigger] self.poll(engine) {
            let engine = choose|engine: EngineView| after == #[trigger] self.poll(engine);
            let start = SchedulerView { ready: Seq::empty(), ..self };
            start.lemma_poll_run_keeps_keys(
                EngineView { rt: RuntimeView { wakes: Seq::empty(), ..engine.rt }, ..engine },
                self.round(engine),
            );
            assert forall|k: u64| #[trigger] after.tasks.contains_key(k) implies k
                < after.next_key by {
                assert(after.tasks.dom().contains(k));
                assert(self.tasks.dom().contains(k));
            }
            assert(!after.tasks.dom().contains(key));
        }
    }

    /// Cancelling an operation retires its key, finished or not.
    pub proof fn lemma_cancelled_is_retired(self, key: u64)
        requires
            self.wf(),
            self.tasks.contains_key(key),
        ensures
            self.remove(key).wf(),
            self.remove(key).retired(key),
    {
    }
}

/// The pool of operations. Each operation is known by a key that no other
/// operation gets, before or after.
pub struct Scheduler {
    tasks: Table<Operation>,
    ready: Vec<u64>,
    next_key: WakerU64,
}

impl View for Scheduler {
    type V = SchedulerView;

    closed spec fn view(&self) -> SchedulerView {
        SchedulerView {
            tasks: Map::new(
                |key: u64| self.tasks@.contains_key(key as u128),
                |key: u64| self.tasks@[key as u128],
            ),
            ready: self.ready@,
            next_key: self.next_key@,
        }
    }
}

impl Scheduler {
    /// Whether the scheduler keeps its invariant.
    pub closed spec fn wf(&self) -> bool {
        &&& self.tasks.wf()
        &&& forall|key: u128| #[trigger] self.tasks@.contains_key(key) ==> key < self.next_key@
    }

    /// The invariant of the scheduler is that of its plain values.
    pub proof fn lemma_wf(&self)
        requires
            self.wf(),
        ensures
            self@.wf(),
    {
        assert forall|key: u64| #[trigger] self@.tasks.contains_key(key) implies key
            < self@.next_key by {
            assert(self.tasks@.contains_key(key as u128));
        }
    }

    /// A scheduler with no operation.
    pub fn new() -> (scheduler: Scheduler)
        ensures
            scheduler.wf(),
            scheduler@ == (SchedulerView { tasks: Map::empty(), ready: Seq::empty(), next_key: 0 }),
    {
        let scheduler = Scheduler {
            tasks: Table::new(),
            ready: Vec::new(),
            next_key: WakerU64::new(0),
        };
        assert(scheduler@.tasks =~= Map::<u64, Operation>::empty());
        scheduler
    }

    /// Puts `op` into the scheduler, to be polled on the next round. No
    /// key is left where every key was handed out.
    pub fn insert(&mut self, op: Operation) -> (handle: Result<SchedulerHandle, Fail>)
        requires
            old(self).wf(),
        ensures
            final(self).wf(),
            final(self)@ == old(self)@.insert(op),
            match handle {
                Ok(h) => old(self)@.next_key < u64::MAX && h.spec_key() == old(self)@.next_key,
                Err(e) => old(self)@.next_key == u64::MAX && e == (Fail::ResourceExhausted {
                    details: "Out of scheduler keys",
                }),
            },
    {
        if self.next_key.load() == u64::MAX {
            return Err(Fail::ResourceExhausted { details: "Out of scheduler keys" });
        }
        let key = self.next_key.fetch_add(1);
        let _ = self.tasks.insert(key as u128, op);
        self.ready.push(key);
        assert(self@.tasks =~= old(self)@.tasks.insert(key, op));
        Ok(SchedulerHandle { key })
    }

    /// The handle of the operation under `key`, if the scheduler holds
    /// one.
    pub fn from_raw_handle(&self, key: u64) -> (handle: Option<SchedulerHandle>)
        ensures
            match handle {
                Some(h) => self@.tasks.contains_key(key) && h.spec_key() == key,
                None => !self@.tasks.contains_key(key),
            },
    {
        if self.tasks.contains_key(key as u128) {
            Some(SchedulerHandle { key })
        } else {
            None
        }
    }

    /// Whether the operation behind `handle` has its outcome. The
    /// operation stays as it is.
    pub fn has_completed(&self, handle: &SchedulerHandle) -> (done: bool)
        requires
            self.wf(),
        ensures
            done == self@.has_completed(handle.spec_key()),
    {
        match self.tasks.get(handle.key as u128) {
            Some(op) => op.has_completed(),
            None => false,
        }
    }

    /// Whether the operation behind `handle` is a send that is done.
    pub fn has_pushed(&self, handle: &SchedulerHandle) -> (done: bool)
        requires
            self.wf(),
        ensures
            done == (self@.has_completed(handle.spec_key()) && self@.tasks[handle.spec_key()].result()
                is Push),
    {
        match self.tasks.get(handle.key as u128) {
            Some(op) => op.has_pushed(),
            None => false,
        }
    }

    /// Takes the operation behind `handle`, which has its outcome, out of
    /// the scheduler.
    pub fn take(&mut self, handle: SchedulerHandle) -> (op: Operation)
        requires
            old(self).wf(),
            old(self)@.has_completed(handle.spec_key()),
        ensures
            final(self).wf(),
            final(self)@ == old(self)@.remove(handle.spec_key()),
            op == old(self)@.tasks[handle.spec_key()],
            op.is_ready(),
    {
        let op = self.tasks.remove(handle.key as u128).unwrap();
        assert(self@.tasks =~= old(self)@.tasks.remove(handle.key));
        op
    }

    /// Cancels the operation behind `handle`: it leaves the scheduler,
    /// finished or not, and what it held is let go.
    pub fn cancel(&mut self, handle: SchedulerHandle)
        requires
            old(self).wf(),
        ensures
            final(self).wf(),
            final(self)@ == old(self)@.remove(handle.spec_key()),
    {
        let _ = self.tasks.remove(handle.key as u128);
        assert(self@.tasks =~= old(self)@.tasks.remove(handle.key));
    }

    /// Polls one round: every operation that is due or was woken since the
    /// last round, and has no outcome yet, is moved on by one step against
    /// `engine`.
    pub fn poll(&mut self, engine: &mut Engine)
        requires
            old(self).wf(),
            old(engine).wf(),
        ensures
            final(self).wf(),
            final(engine).wf(),
            final(self)@ == old(self)@.poll(old(engine)@),
            final(engine)@ == old(self)@.poll_engine(old(engine)@),
    {
        let mut run: Vec<u64> = Vec::new();
        std::mem::swap(&mut run, &mut self.ready);
        let mut woken = engine.rt.wakes.drain();
        run.append(&mut woken);
        let ghost start = self@;
        let ghost start_engine = engine@;
        assert(run@ == old(self)@.round(old(engine)@));
        assert(start == (SchedulerView { ready: Seq::empty(), ..old(self)@ })) by {
            assert(start.ready =~= Seq::<u64>::empty());
            assert(start.tasks =~= old(self)@.tasks);
        }
        assert(start_engine == (EngineView {
            rt: RuntimeView { wakes: Seq::empty(), ..old(engine)@.rt },
            ..old(engine)@
        })) by {
            assert(start_engine.rt.wakes =~= Seq::<u64>::empty());
        }
        let mut i: usize = 0;
        assert(run@.take(0) =~= Seq::<u64>::empty());
        while i < run.len()
            invariant
                i <= run@.len(),
                self.wf(),
                engine.wf(),
                self@ == start.poll_run(start_engine, run@.take(i as int)),
                engine@ == start.poll_run_engine(start_engine, run@.take(i as int)),
            decreases run@.len() - i,
        {
            let key = run[i];
            let ghost before = self@;
            let ghost before_engine = engine@;
            proof {
                assert(run@.take(i + 1).drop_last() =~= run@.take(i as int));
                assert(run@.take(i + 1).last() == key);
            }
            match self.tasks.remove(key as u128) {
                Some(op) => {
                    let mut op = op;
                    if !op.has_completed() {
                        let _ = op.poll(engine, &Waker::new(key));
                    }
                    match op {
                        Operation::Background => {
                            self.ready.push(key);
                        },
                        _ => {},
                    }
                    let _ = self.tasks.insert(key as u128, op);
                    assert(self@.tasks =~= before.poll_one(before_engine, key).tasks);
                },
                None => {
                    assert(self@.tasks =~= before.tasks);
                },
            }
            i = i + 1;
        }
        assert(run@.take(run@.len() as int) =~= run@);
    }
}

} // verus!
