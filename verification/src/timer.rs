//! The one timer that guards a socket's outstanding write.
//!
//! Time is a count of milliseconds that the caller reads off a monotonic clock.

use crate::consts::{SOCKET_ACK_TIMEOUT, SOCKET_MAX_RESENDS};
use crate::error::AcsmaIoError;
use crate::frame::{FrameModel, MacFrame};
use vstd::prelude::*;

verus! {

/// A frame to send, and the ticket under which its sender waits for the outcome.
pub struct AcsmaSocketWriteTask {
    pub frame: MacFrame,
    pub ticket: u64,
}

/// A write task as a mathematical value.
pub struct TaskModel {
    pub frame: FrameModel,
    pub ticket: u64,
}

impl View for AcsmaSocketWriteTask {
    type V = TaskModel;

    open spec fn view(&self) -> TaskModel {
        TaskModel { frame: self.frame@, ticket: self.ticket }
    }
}

/// The outcome of a write task, to be handed to whoever holds the ticket.
#[derive(Clone, Copy, Debug, PartialEq, Eq)]
pub struct Completion {
    pub ticket: u64,
    pub result: Result<(), AcsmaIoError>,
}

/// A write task together with the number of times it was sent again.
pub struct AcsmaSocketWriteTimerInner {
    pub task: AcsmaSocketWriteTask,
    pub resends: usize,
}

/// A guarded task as a mathematical value.
pub struct InnerModel {
    pub task: TaskModel,
    pub resends: usize,
}

impl InnerModel {
    /// The frame can be laid out, and it was sent again at most
    /// `SOCKET_MAX_RESENDS + 1` times.
    pub open spec fn wf(self) -> bool {
        &&& self.task.frame.wf()
        &&& self.resends <= SOCKET_MAX_RESENDS + 1
    }
}

impl View for AcsmaSocketWriteTimerInner {
    type V = InnerModel;

    open spec fn view(&self) -> InnerModel {
        InnerModel { task: self.task@, resends: self.resends }
    }
}

impl AcsmaSocketWriteTimerInner {
    /// Ends the task with success.
    pub fn ok(self) -> (done: Completion)
        ensures
            done == (Completion { ticket: self.task.ticket, result: Ok(()) }),
    {
        Completion { ticket: self.task.ticket, result: Ok(()) }
    }

    /// Ends the task with a link error that carries the number of resends.
    pub fn link_error(self) -> (done: Completion)
        ensures
            done == (Completion {
                ticket: self.task.ticket,
                result: Err(AcsmaIoError::LinkError(self.resends)),
            }),
    {
        Completion {
            ticket: self.task.ticket,
            result: Err(AcsmaIoError::LinkError(self.resends)),
        }
    }
}

/// The view of a task that may be absent.
pub open spec fn inner_view(inner: Option<AcsmaSocketWriteTimerInner>) -> Option<InnerModel> {
    match inner {
        Some(i) => Some(i@),
        None => None,
    }
}

/// The timer of the write side.
#[allow(inconsistent_fields)]
pub enum AcsmaSocketWriteTimer {
    /// Waiting for the acknowledgement of a frame that was sent at `start`.
    Timeout { start: u64, inner: AcsmaSocketWriteTimerInner },
    /// Waiting out a contention window of `duration` that began at `start`; with
    /// a task to send afterwards, or without one after a task was acknowledged.
    Backoff { start: u64, inner: Option<AcsmaSocketWriteTimerInner>, retry: usize, duration: u64 },
}

/// A timer as a mathematical value.
#[allow(inconsistent_fields)]
pub enum TimerModel {
    Timeout { start: u64, inner: InnerModel },
    Backoff { start: u64, inner: Option<InnerModel>, retry: usize, duration: u64 },
}

impl TimerModel {
    /// The task that the timer guards, if it guards one.
    pub open spec fn pending(self) -> Option<InnerModel> {
        match self {
            TimerModel::Timeout { inner, .. } => Some(inner),
            TimerModel::Backoff { inner, .. } => inner,
        }
    }

    /// Whatever task the timer guards is well formed.
    pub open spec fn wf(self) -> bool {
        match self.pending() {
            Some(inner) => inner.wf(),
            None => true,
        }
    }

    /// When the timer was started.
    pub open spec fn start(self) -> u64 {
        match self {
            TimerModel::Timeout { start, .. } => start,
            TimerModel::Backoff { start, .. } => start,
        }
    }

    /// How long the timer runs.
    pub open spec fn duration(self) -> u64 {
        match self {
            TimerModel::Timeout { .. } => SOCKET_ACK_TIMEOUT,
            TimerModel::Backoff { duration, .. } => duration,
        }
    }

    /// How long the timer has run at `now`; zero if `now` lies before its start.
    pub open spec fn elapsed(self, now: u64) -> nat {
        if now >= self.start() {
            (now - self.start()) as nat
        } else {
            0
        }
    }

    /// Whether the timer has run for longer than its duration.
    pub open spec fn is_expired(self, now: u64) -> bool {
        self.elapsed(now) > self.duration()
    }
}

impl View for AcsmaSocketWriteTimer {
    type V = TimerModel;

    open spec fn view(&self) -> TimerModel {
        match self {
            AcsmaSocketWriteTimer::Timeout { start, inner } => TimerModel::Timeout {
                start: *start,
                inner: inner@,
            },
            AcsmaSocketWriteTimer::Backoff { start, inner, retry, duration } => TimerModel::Backoff {
                start: *start,
                inner: inner_view(*inner),
                retry: *retry,
                duration: *duration,
            },
        }
    }
}

/// The view of a timer that may be absent.
pub open spec fn timer_view(timer: Option<AcsmaSocketWriteTimer>) -> Option<TimerModel> {
    match timer {
        Some(t) => Some(t@),
        None => None,
    }
}

impl AcsmaSocketWriteTimer {
    /// A timer that waits, from `now`, for the acknowledgement of `task`.
    pub fn timeout(task: AcsmaSocketWriteTask, resends: usize, now: u64) -> (timer:
        AcsmaSocketWriteTimer)
        ensures
            timer@ == (TimerModel::Timeout {
                start: now,
                inner: InnerModel { task: task@, resends },
            }),
    {
        AcsmaSocketWriteTimer::Timeout {
            start: now,
            inner: AcsmaSocketWriteTimerInner { task, resends },
        }
    }

    /// A timer that waits out `duration` from `now`.
    pub fn backoff(
        inner: Option<AcsmaSocketWriteTimerInner>,
        retry: usize,
        duration: u64,
        now: u64,
    ) -> (timer: AcsmaSocketWriteTimer)
        ensures
            timer@ == (TimerModel::Backoff {
                start: now,
                inner: inner_view(inner),
                retry,
                duration,
            }),
    {
        AcsmaSocketWriteTimer::Backoff { start: now, inner, retry, duration }
    }

    /// How long the timer has run at `now`.
    pub fn elapsed(&self, now: u64) -> (ms: u64)
        ensures
            ms == self@.elapsed(now),
    {
        let start = match self {
            AcsmaSocketWriteTimer::Timeout { start, .. } => *start,
            AcsmaSocketWriteTimer::Backoff { start, .. } => *start,
        };
        if now >= start {
            now - start
        } else {
            0
        }
    }

    /// How long the timer runs: the acknowledgement timeout, or the drawn delay.
    pub fn duration(&self) -> (ms: u64)
        ensures
            ms == self@.duration(),
    {
        match self {
            AcsmaSocketWriteTimer::Timeout { .. } => SOCKET_ACK_TIMEOUT,
            AcsmaSocketWriteTimer::Backoff { duration, .. } => *duration,
        }
    }

    /// Whether the timer has run for longer than its duration.
    pub fn is_expired(&self, now: u64) -> (expired: bool)
        ensures
            expired == self@.is_expired(now),
    {
        self.elapsed(now) > self.duration()
    }
}

} // verus!
