//! The CSMA/CA daemon of a socket, as a state machine.
//!
//! The daemon owns the write timer and the jar of recent sequence numbers. Its
//! caller runs the loop: it waits for frames, reads the clock, senses the
//! channel and plays audio, and hands each result to one of the functions here,
//! which decide what happens next.
//!
//! One iteration is: [`SocketDaemon::receive`] if a frame came in; then
//! [`SocketDaemon::tick`]. If `tick` says `Vacant` and a task is queued,
//! [`SocketDaemon::accept`]; if it says `Sense`, [`SocketDaemon::resolve`]. After
//! a `Transmit` verdict the frame is played and [`SocketDaemon::settle`] records
//! how that went.

use crate::backoff::{generate_backoff, is_backoff};
use crate::bits::{bits_view, Bits};
use crate::consts::{SOCKET_BROADCAST_ADDRESS, SOCKET_MAX_RESENDS};
use crate::error::AcsmaIoError;
use crate::frame::{
    frame_bits, parse, FrameFlag, FrameHeader, FrameModel, FrameType, MacFrame,
};
use crate::jar::{spec_observe, Jar, JAR_CAPACITY_LIMIT};
use crate::timer::{
    inner_view, timer_view, AcsmaSocketWriteTask, AcsmaSocketWriteTimer,
    AcsmaSocketWriteTimerInner, Completion, InnerModel, TimerModel,
};
use rand::rngs::SmallRng;
use vstd::prelude::*;

verus! {

/// Whether a station at `address` accepts a frame with this header: it is
/// addressed to the station, or broadcast by another one.
pub open spec fn spec_is_for_self(address: usize, header: FrameHeader) -> bool {
    header.dest == address || (header.dest == SOCKET_BROADCAST_ADDRESS && header.src != address)
}

/// Whether a station at `address` accepts a frame with this header.
pub fn is_for_self(address: usize, header: &FrameHeader) -> (yes: bool)
    ensures
        yes == spec_is_for_self(address, *header),
{
    let is_dest = header.dest == address;
    let is_broadcast = header.dest == SOCKET_BROADCAST_ADDRESS && header.src != address;
    is_dest || is_broadcast
}

/// The frame that answers `frame` at once: an acknowledgement with the same
/// sequence number for data, a ping response for a ping request, each with the
/// addresses swapped; nothing for the other kinds.
pub open spec fn spec_resp(frame: FrameModel) -> Option<FrameModel> {
    match frame.kind {
        FrameType::Data => Some(
            FrameModel {
                kind: FrameType::Ack,
                header: FrameHeader {
                    dest: frame.header.src,
                    src: frame.header.dest,
                    seq: frame.header.seq,
                    flag: FrameFlag { eop: false },
                },
                payload: Seq::<bool>::empty(),
            },
        ),
        FrameType::MacPingReq => Some(
            FrameModel {
                kind: FrameType::MacPingResp,
                header: FrameHeader {
                    dest: frame.header.src,
                    src: frame.header.dest,
                    seq: 0,
                    flag: FrameFlag { eop: false },
                },
                payload: Seq::<bool>::empty(),
            },
        ),
        _ => None,
    }
}

/// The view of a frame that may be absent.
pub open spec fn frame_view(frame: Option<MacFrame>) -> Option<FrameModel> {
    match frame {
        Some(f) => Some(f@),
        None => None,
    }
}

/// The frame that answers `frame` at once, if its kind asks for an answer.
pub fn create_resp(frame: &MacFrame) -> (resp: Option<MacFrame>)
    ensures
        frame_view(resp) == spec_resp(frame@),
        frame@.wf() && resp.is_some() ==> resp.unwrap()@.wf(),
{
    let header = frame.header();
    match frame {
        MacFrame::Data { .. } => Some(MacFrame::ack(header.src, header.dest, header.seq)),
        MacFrame::MacPingReq { .. } => Some(MacFrame::ping_resp(header.src, header.dest)),
        _ => None,
    }
}

/// Whether `reply` settles the guarded task: it is of the kind that answers the
/// task's frame and carries the same sequence number.
pub open spec fn matches_task(inner: InnerModel, reply: FrameModel) -> bool {
    &&& inner.task.frame.kind.spec_answer() == Some(reply.kind)
    &&& inner.task.frame.header.seq == reply.header.seq
}

/// The retry count after one more failed attempt; it stops at `usize::MAX`.
pub open spec fn next_retry(retry: usize) -> usize {
    if retry < usize::MAX {
        (retry + 1) as usize
    } else {
        retry
    }
}

/// Whether `timer` is a back-off that began at `now`, guards exactly `inner`,
/// stands at `retry`, and runs for a delay inside the window of `retry`.
pub open spec fn armed_backoff(
    timer: Option<TimerModel>,
    now: u64,
    inner: Option<InnerModel>,
    retry: usize,
) -> bool {
    match timer {
        Some(TimerModel::Backoff { start, inner: guarded, retry: at, duration }) => {
            &&& start == now
            &&& guarded == inner
            &&& at == retry
            &&& is_backoff(duration, retry as nat)
        },
        _ => false,
    }
}

/// A back-off timer from `now` for the given retry, with a freshly drawn delay.
pub fn create_backoff(
    rng: &mut SmallRng,
    inner: Option<AcsmaSocketWriteTimerInner>,
    retry: usize,
    now: u64,
) -> (timer: AcsmaSocketWriteTimer)
    ensures
        armed_backoff(Some(timer@), now, inner_view(inner), retry),
{
    let duration = generate_backoff(rng, retry);
    AcsmaSocketWriteTimer::backoff(inner, retry, duration, now)
}

/// Holds an incoming answer against the timer. If the timer guards a task that
/// the answer settles, the task ends with success and the timer becomes an empty
/// back-off at retry zero; otherwise the timer stays as it is.
pub fn clear_timer(
    rng: &mut SmallRng,
    reply: &MacFrame,
    timer: AcsmaSocketWriteTimer,
    now: u64,
) -> (out: (AcsmaSocketWriteTimer, Option<Completion>))
    ensures
        match timer@.pending() {
            Some(inner) if matches_task(inner, reply@) => {
                &&& out.1 == Some(Completion { ticket: inner.task.ticket, result: Ok(()) })
                &&& armed_backoff(Some(out.0@), now, None, 0)
            },
            _ => out.0@ == timer@ && out.1.is_none(),
        },
{
    let settles = match &timer {
        AcsmaSocketWriteTimer::Timeout { inner, .. } => inner.task.frame.corresponds(reply)
            && inner.task.frame.header().seq == reply.header().seq,
        AcsmaSocketWriteTimer::Backoff { inner: Some(inner), .. } => inner.task.frame.corresponds(
            reply,
        ) && inner.task.frame.header().seq == reply.header().seq,
        _ => false,
    };
    if !settles {
        return (timer, None);
    }
    let done = match timer {
        AcsmaSocketWriteTimer::Timeout { inner, .. } => Some(inner.ok()),
        AcsmaSocketWriteTimer::Backoff { inner: Some(inner), .. } => Some(inner.ok()),
        _ => None,
    };
    (create_backoff(rng, None, 0, now), done)
}

/// A frame on its way to the channel: the guarded task, the retry count of the
/// back-off it came from, and whether this is the task's first attempt.
pub struct Attempt {
    pub inner: AcsmaSocketWriteTimerInner,
    pub retry: usize,
    pub fresh: bool,
}

/// An attempt as a mathematical value.
pub struct AttemptModel {
    pub inner: InnerModel,
    pub retry: usize,
    pub fresh: bool,
}

impl View for Attempt {
    type V = AttemptModel;

    open spec fn view(&self) -> AttemptModel {
        AttemptModel { inner: self.inner@, retry: self.retry, fresh: self.fresh }
    }
}

impl AttemptModel {
    /// The retry count of the back-off that follows when the channel is busy: a
    /// first attempt starts at zero, a later one goes one up.
    pub open spec fn retry_when_busy(self) -> usize {
        if self.fresh {
            0
        } else {
            next_retry(self.retry)
        }
    }

    /// Whether the frame may still go out: it was sent again at most
    /// `SOCKET_MAX_RESENDS` times.
    pub open spec fn sendable(self) -> bool {
        self.inner.resends <= SOCKET_MAX_RESENDS
    }

    /// The resend count once the frame was played: a first attempt is no resend.
    pub open spec fn resends_when_sent(self) -> usize {
        if self.fresh {
            self.inner.resends
        } else {
            (self.inner.resends + 1) as usize
        }
    }
}

/// What the timer asks for at a given time.
pub enum Due {
    /// No timer runs: a queued task may be accepted.
    Vacant,
    /// A timer runs and has not expired.
    Waiting,
    /// A timer expired and was dealt with; nothing is left to do.
    Settled,
    /// A back-off with a task expired: sense the channel, then resolve.
    Sense(Attempt),
}

/// What becomes of an attempt once the channel was sensed.
pub enum Verdict {
    /// The channel is busy: the task waits in a new back-off.
    Deferred,
    /// The task was sent again too often and ends with a link error.
    Failed(Completion),
    /// The channel is free: play `bits`, then settle the attempt.
    Transmit { bits: Bits, attempt: Attempt },
}

/// What the daemon does about a frame that came in.
pub struct Reaction {
    /// Bits to play at once, without sensing the channel.
    pub reply: Option<Bits>,
    /// A data frame to hand to the reader.
    pub forward: Option<MacFrame>,
    /// The outcome of the guarded task, if the frame settled it.
    pub completed: Option<Completion>,
}

/// The state that the daemon of one socket owns.
pub struct SocketDaemon {
    /// The socket's own address.
    pub address: usize,
    /// The write timer; at most one task is outstanding at any time.
    pub timer: Option<AcsmaSocketWriteTimer>,
    /// The sequence numbers of the data frames seen lately.
    pub jar: Jar,
}

impl SocketDaemon {
    /// The jar is well formed, and so is the task under the timer, if any.
    pub open spec fn wf(&self) -> bool {
        &&& self.jar.wf()
        &&& match timer_view(self.timer) {
            Some(t) => t.wf(),
            None => true,
        }
    }

    /// A daemon without a timer and with an empty jar of the given capacity.
    pub fn new(address: usize, capacity: usize) -> (daemon: SocketDaemon)
        requires
            0 < capacity <= JAR_CAPACITY_LIMIT,
        ensures
            daemon.wf(),
            daemon.address == address,
            daemon.timer.is_none(),
            daemon.jar@ == Seq::<usize>::empty(),
            daemon.jar.capacity() == capacity,
    {
        SocketDaemon { address, timer: None, jar: Jar::new(capacity) }
    }

    /// Whether no timer runs.
    pub fn is_idle(&self) -> (idle: bool)
        ensures
            idle == self.timer.is_none(),
    {
        self.timer.is_none()
    }

    /// Takes in the bits of one audio frame.
    ///
    /// Bits that are no frame, and frames for other stations, change nothing. A
    /// data frame is acknowledged every time, and handed to the reader unless its
    /// sequence number is in the jar, where it is put. A ping request is
    /// answered. An acknowledgement or a ping response is held against the
    /// timer, see [`clear_timer`].
    pub fn receive(&mut self, bits: &Bits, now: u64, rng: &mut SmallRng) -> (reaction: Reaction)
        requires
            old(self).wf(),
        ensures
            final(self).wf(),
            final(self).address == old(self).address,
            final(self).jar.capacity() == old(self).jar.capacity(),
            match parse(bits@) {
                Ok(frame) if spec_is_for_self(old(self).address, frame.header) => {
                    match frame.kind {
                        FrameType::Data => {
                            &&& bits_view(reaction.reply) == Some(
                                frame_bits(spec_resp(frame).unwrap()),
                            )
                            &&& frame_view(reaction.forward) == (if old(self).jar@.contains(
                                frame.header.seq,
                            ) {
                                None
                            } else {
                                Some(frame)
                            })
                            &&& reaction.completed.is_none()
                            &&& final(self).jar@ == spec_observe(
                                old(self).jar@,
                                old(self).jar.capacity(),
                                frame.header.seq,
                            )
                            &&& timer_view(final(self).timer) == timer_view(old(self).timer)
                        },
                        FrameType::MacPingReq => {
                            &&& bits_view(reaction.reply) == Some(
                                frame_bits(spec_resp(frame).unwrap()),
                            )
                            &&& reaction.forward.is_none()
                            &&& reaction.completed.is_none()
                            &&& final(self).jar@ == old(self).jar@
                            &&& timer_view(final(self).timer) == timer_view(old(self).timer)
                        },
                        _ => {
                            &&& reaction.reply.is_none()
                            &&& reaction.forward.is_none()
                            &&& final(self).jar@ == old(self).jar@
                            &&& match timer_view(old(self).timer) {
                                Some(t) if t.pending().is_some() && matches_task(
                                    t.pending().unwrap(),
                                    frame,
                                ) => {
                                    &&& reaction.completed == Some(
                                        Completion {
                                            ticket: t.pending().unwrap().task.ticket,
                                            result: Ok(()),
                                        },
                                    )
                                    &&& armed_backoff(timer_view(final(self).timer), now, None, 0)
                                },
                                _ => {
                                    &&& reaction.completed.is_none()
                                    &&& timer_view(final(self).timer) == timer_view(
                                        old(self).timer,
                                    )
                                },
                            }
                        },
                    }
                },
                _ => {
                    &&& reaction.reply.is_none()
                    &&& reaction.forward.is_none()
                    &&& reaction.completed.is_none()
                    &&& final(self).jar@ == old(self).jar@
                    &&& timer_view(final(self).timer) == timer_view(old(self).timer)
                },
            },
    {
        let silent = Reaction { reply: None, forward: None, completed: None };
        let frame = match MacFrame::decode(bits) {
            Ok(frame) => frame,
            Err(_) => {
                return silent;
            },
        };
        if !is_for_self(self.address, frame.header()) {
            return silent;
        }
        match create_resp(&frame) {
            Some(resp) => {
                let reply = Some(resp.encode());
                let forward = match frame {
                    MacFrame::Data { header, payload } => {
                        if self.jar.observe(header.seq) {
                            Some(MacFrame::Data { header, payload })
                        } else {
                            None
                        }
                    },
                    _ => None,
                };
                Reaction { reply, forward, completed: None }
            },
            None => {
                match self.timer.take() {
                    Some(timer) => {
                        let (timer, completed) = clear_timer(rng, &frame, timer, now);
                        self.timer = Some(timer);
                        Reaction { reply: None, forward: None, completed }
                    },
                    None => silent,
                }
            },
        }
    }

    /// Looks at the timer at time `now`.
    ///
    /// An expired acknowledgement timeout turns into a back-off at retry zero
    /// that keeps the task and its resend count. An expired back-off without a
    /// task is dropped. An expired back-off with a task is taken off the daemon
    /// and handed out as an attempt, for which the channel is to be sensed.
    pub fn tick(&mut self, now: u64, rng: &mut SmallRng) -> (due: Due)
        requires
            old(self).wf(),
        ensures
            final(self).wf(),
            final(self).address == old(self).address,
            final(self).jar == old(self).jar,
            match timer_view(old(self).timer) {
                None => due is Vacant && final(self).timer.is_none(),
                Some(t) => if !t.is_expired(now) {
                    due is Waiting && timer_view(final(self).timer) == Some(t)
                } else {
                    match t {
                        TimerModel::Timeout { inner, .. } => {
                            &&& due is Settled
                            &&& armed_backoff(timer_view(final(self).timer), now, Some(inner), 0)
                        },
                        TimerModel::Backoff { inner: None, .. } => {
                            &&& due is Settled
                            &&& final(self).timer.is_none()
                        },
                        TimerModel::Backoff { inner: Some(inner), retry, .. } => {
                            &&& final(self).timer.is_none()
                            &&& match due {
                                Due::Sense(attempt) => attempt@ == (AttemptModel {
                                    inner,
                                    retry,
                                    fresh: false,
                                }),
                                _ => false,
                            }
                        },
                    }
                },
            },
    {
        let timer = match self.timer.take() {
            Some(timer) => timer,
            None => {
                return Due::Vacant;
            },
        };
        if !timer.is_expired(now) {
            self.timer = Some(timer);
            return Due::Waiting;
        }
        match timer {
            AcsmaSocketWriteTimer::Timeout { inner, .. } => {
                self.timer = Some(create_backoff(rng, Some(inner), 0, now));
                Due::Settled
            },
            AcsmaSocketWriteTimer::Backoff { inner: Some(inner), retry, .. } => Due::Sense(
                Attempt { inner, retry, fresh: false },
            ),
            AcsmaSocketWriteTimer::Backoff { inner: None, .. } => Due::Settled,
        }
    }

    /// Decides about an attempt once the channel was sensed.
    ///
    /// On a busy channel the task goes into a new back-off. On a free channel a
    /// task that was sent again more than `SOCKET_MAX_RESENDS` times ends with a
    /// link error; any other is laid out in bits to be played.
    pub fn resolve(&mut self, attempt: Attempt, free: bool, now: u64, rng: &mut SmallRng) -> (verdict:
        Verdict)
        requires
            old(self).wf(),
            old(self).timer.is_none(),
            attempt@.inner.wf(),
        ensures
            final(self).wf(),
            final(self).address == old(self).address,
            final(self).jar == old(self).jar,
            if !free {
                &&& verdict is Deferred
                &&& armed_backoff(
                    timer_view(final(self).timer),
                    now,
                    Some(attempt@.inner),
                    attempt@.retry_when_busy(),
                )
            } else if !attempt@.sendable() {
                &&& final(self).timer.is_none()
                &&& verdict matches Verdict::Failed(done)
                &&& done == (Completion {
                    ticket: attempt.inner.task.ticket,
                    result: Err(AcsmaIoError::LinkError(attempt.inner.resends)),
                })
                &&& attempt.inner.resends == SOCKET_MAX_RESENDS + 1
            } else {
                &&& final(self).timer.is_none()
                &&& verdict matches Verdict::Transmit { bits, attempt: kept }
                &&& bits@ == frame_bits(attempt@.inner.task.frame)
                &&& kept@ == attempt@
            },
    {
        if !free {
            let retry = if attempt.fresh {
                0
            } else if attempt.retry < usize::MAX {
                attempt.retry + 1
            } else {
                attempt.retry
            };
            self.timer = Some(create_backoff(rng, Some(attempt.inner), retry, now));
            Verdict::Deferred
        } else if attempt.inner.resends > SOCKET_MAX_RESENDS {
            Verdict::Failed(attempt.inner.link_error())
        } else {
            let bits = attempt.inner.task.frame.encode();
            Verdict::Transmit { bits, attempt }
        }
    }

    /// Takes a task off the queue while no timer runs, the channel having been
    /// sensed: the task's first attempt, resolved at once.
    pub fn accept(
        &mut self,
        task: AcsmaSocketWriteTask,
        free: bool,
        now: u64,
        rng: &mut SmallRng,
    ) -> (verdict: Verdict)
        requires
            old(self).wf(),
            old(self).timer.is_none(),
            task@.frame.wf(),
        ensures
            final(self).wf(),
            final(self).address == old(self).address,
            final(self).jar == old(self).jar,
            if !free {
                &&& verdict is Deferred
                &&& armed_backoff(
                    timer_view(final(self).timer),
                    now,
                    Some(InnerModel { task: task@, resends: 0 }),
                    0,
                )
            } else {
                &&& final(self).timer.is_none()
                &&& verdict matches Verdict::Transmit { bits, attempt }
                &&& bits@ == frame_bits(task@.frame)
                &&& attempt@ == (AttemptModel {
                    inner: InnerModel { task: task@, resends: 0 },
                    retry: 0,
                    fresh: true,
                })
            },
    {
        let attempt = Attempt {
            inner: AcsmaSocketWriteTimerInner { task, resends: 0 },
            retry: 0,
            fresh: true,
        };
        self.resolve(attempt, free, now, rng)
    }

    /// Records how playing an attempt's frame went.
    ///
    /// A frame that went out whole is now waited for: an acknowledgement timeout
    /// from `now`, with the resend count one up unless this was the first
    /// attempt. A frame that collided goes into a back-off one retry up.
    pub fn settle(&mut self, attempt: Attempt, delivered: bool, now: u64, rng: &mut SmallRng)
        requires
            old(self).wf(),
            old(self).timer.is_none(),
            attempt@.inner.task.frame.wf(),
            attempt@.sendable(),
        ensures
            final(self).wf(),
            final(self).address == old(self).address,
            final(self).jar == old(self).jar,
            delivered ==> timer_view(final(self).timer) == Some(
                TimerModel::Timeout {
                    start: now,
                    inner: InnerModel {
                        task: attempt@.inner.task,
                        resends: attempt@.resends_when_sent(),
                    },
                },
            ),
            !delivered ==> armed_backoff(
                timer_view(final(self).timer),
                now,
                Some(attempt@.inner),
                next_retry(attempt.retry),
            ),
    {
        if delivered {
            let resends = if attempt.fresh {
                attempt.inner.resends
            } else {
                attempt.inner.resends + 1
            };
            self.timer = Some(AcsmaSocketWriteTimer::timeout(attempt.inner.task, resends, now));
        } else {
            let retry = if attempt.retry < usize::MAX {
                attempt.retry + 1
            } else {
                attempt.retry
            };
            self.timer = Some(create_backoff(rng, Some(attempt.inner), retry, now));
        }
    }
}

/// Whether the channel counts as free: the latest sample of the monitor is
/// quiet, or the monitor has no sample yet.
pub fn is_channel_free(quiet: Option<bool>) -> (free: bool)
    ensures
        free == (match quiet {
            Some(q) => q,
            None => true,
        }),
{
    match quiet {
        Some(q) => q,
        None => true,
    }
}

/// Whether the daemon's loop ends: nobody can queue a task any more, and nobody
/// reads what comes in.
pub fn is_finished(writers_gone: bool, reader_gone: bool) -> (done: bool)
    ensures
        done == (writers_gone && reader_gone),
{
    writers_gone && reader_gone
}

} // verus!
