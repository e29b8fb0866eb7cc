//! A bounded log of named events with their times, for finding out where
//! the time goes. The log is set up once and torn down by `dump`.

use vstd::prelude::*;

verus! {

/// The log: the events that had room, and how many had none.
pub struct LoggingState {
    start: u64,
    buf: Vec<(&'static str, u64)>,
    capacity: usize,
    num_overflow: usize,
}

/// A log as plain values.
pub struct LoggingView {
    /// The time at which the log was set up.
    pub start: u64,
    /// The events, each with the nanoseconds from `start` to it, oldest
    /// first.
    pub events: Seq<(&'static str, u64)>,
    /// How many events the log has room for.
    pub capacity: usize,
    /// How many events found no room.
    pub num_overflow: usize,
}

impl View for LoggingState {
    type V = LoggingView;

    closed spec fn view(&self) -> LoggingView {
        LoggingView {
            start: self.start,
            events: self.buf@,
            capacity: self.capacity,
            num_overflow: self.num_overflow,
        }
    }
}

impl LoggingView {
    /// The log never holds more events than it has room for.
    pub open spec fn wf(self) -> bool {
        self.events.len() <= self.capacity
    }

    /// The log after the event `name` at time `now`: it is kept where the
    /// log has room, and counted where it has none.
    pub open spec fn log(self, name: &'static str, now: u64) -> LoggingView {
        if self.events.len() == self.capacity {
            LoggingView {
                num_overflow: if self.num_overflow < usize::MAX {
                    (self.num_overflow + 1) as usize
                } else {
                    usize::MAX
                },
                ..self
            }
        } else {
            LoggingView {
                events: self.events.push(
                    (
                        name,
                        if now >= self.start {
                            (now - self.start) as u64
                        } else {
                            0
                        },
                    ),
                ),
                ..self
            }
        }
    }
}

/// Sets up a log with room for `num_events` events, at time `now`.
pub fn init(num_events: usize, now: u64) -> (state: LoggingState)
    ensures
        state@.wf(),
        state@ == (LoggingView {
            start: now,
            events: Seq::empty(),
            capacity: num_events,
            num_overflow: 0,
        }),
{
    LoggingState {
        start: now,
        buf: Vec::with_capacity(num_events),
        capacity: num_events,
        num_overflow: 0,
    }
}

/// Notes the event `name` at time `now`.
pub fn log(state: &mut LoggingState, name: &'static str, now: u64)
    requires
        old(state)@.wf(),
    ensures
        final(state)@.wf(),
        final(state)@ == old(state)@.log(name, now),
{
    if state.buf.len() == state.capacity {
        state.num_overflow = state.num_overflow.saturating_add(1);
        return ;
    }
    let delta_ns = now.saturating_sub(state.start);
    state.buf.push((name, delta_ns));
}

/// Tears the log down: hands out its events, oldest first, and the count
/// of those that found no room.
pub fn dump(state: LoggingState) -> (all: (Vec<(&'static str, u64)>, usize))
    ensures
        all.0@ == state@.events,
        all.1 == state@.num_overflow,
{
    (state.buf, state.num_overflow)
}

} // verus!
