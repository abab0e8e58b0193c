//! The receiving stream of the physical layer: a lazy sequence of payloads that
//! can be suspended and resumed.
//!
//! A background task decodes; the stream's reader polls. Both meet in one small
//! state, which this module owns. Waking the reader is left to the caller: the
//! functions say when a wake-up is due.

use crate::ather::AtherStreamConfig;
use crate::bits::{bits_view, Bits};
use crate::decode::{AtherDecoder, PhaseModel};
use vstd::prelude::*;

verus! {

/// What the reader's side asks of the decoding task.
#[derive(Clone, Copy, Debug, PartialEq, Eq, Structural)]
pub enum AtherInputTaskCmd {
    /// Decode the next frame.
    Running,
    /// Pause the sample source.
    Suspended,
    /// Let the sample source run again.
    Resume,
}

/// Where the stream stands between its reader and its decoding task.
pub enum AtherInputTaskState {
    /// Nobody waits and nothing is decoded.
    Pending,
    /// The reader waits for the frame that the task decodes.
    Running,
    /// A payload is ready for the reader.
    Completed(Bits),
    /// The source is paused; one payload may be parked.
    Suspended(Option<Bits>),
}

/// A stream state as a mathematical value.
pub enum TaskStateModel {
    Pending,
    Running,
    Completed(Seq<bool>),
    Suspended(Option<Seq<bool>>),
}

impl View for AtherInputTaskState {
    type V = TaskStateModel;

    open spec fn view(&self) -> TaskStateModel {
        match self {
            AtherInputTaskState::Pending => TaskStateModel::Pending,
            AtherInputTaskState::Running => TaskStateModel::Running,
            AtherInputTaskState::Completed(bits) => TaskStateModel::Completed(bits@),
            AtherInputTaskState::Suspended(bits) => TaskStateModel::Suspended(bits_view(*bits)),
        }
    }
}

impl AtherInputTaskState {
    /// Takes the state out and leaves `Suspended(None)` behind.
    pub fn take(&mut self) -> (state: AtherInputTaskState)
        ensures
            state@ == old(self)@,
            final(self)@ == TaskStateModel::Suspended(None),
    {
        let mut state = AtherInputTaskState::Suspended(None);
        core::mem::swap(self, &mut state);
        state
    }
}

/// What a poll of the stream gives.
pub enum Polled {
    /// Nothing yet; the reader is to be woken later. With `start` set the
    /// decoding task is to be told to run.
    Pending { start: bool },
    /// The next payload, or `None` at the end of the stream.
    Ready(Option<Bits>),
}

/// A poll's result as a mathematical value.
pub enum PolledModel {
    Pending { start: bool },
    Ready(Option<Seq<bool>>),
}

impl View for Polled {
    type V = PolledModel;

    open spec fn view(&self) -> PolledModel {
        match self {
            Polled::Pending { start } => PolledModel::Pending { start: *start },
            Polled::Ready(bits) => PolledModel::Ready(bits_view(*bits)),
        }
    }
}

/// The state after a poll, and what the poll gives.
pub open spec fn spec_poll(state: TaskStateModel) -> (TaskStateModel, PolledModel) {
    match state {
        TaskStateModel::Pending => (TaskStateModel::Running, PolledModel::Pending { start: true }),
        TaskStateModel::Running => (TaskStateModel::Running, PolledModel::Pending { start: false }),
        TaskStateModel::Completed(bits) => (TaskStateModel::Pending, PolledModel::Ready(Some(bits))),
        TaskStateModel::Suspended(Some(bits)) => (
            TaskStateModel::Suspended(None),
            PolledModel::Ready(Some(bits)),
        ),
        TaskStateModel::Suspended(None) => (
            TaskStateModel::Suspended(None),
            PolledModel::Ready(None),
        ),
    }
}

/// The state after the task decoded `bits`, and whether the reader is woken: a
/// waiting reader gets the payload; without one it is dropped.
pub open spec fn spec_complete(state: TaskStateModel, bits: Seq<bool>) -> (TaskStateModel, bool) {
    match state {
        TaskStateModel::Running => (TaskStateModel::Completed(bits), true),
        other => (other, false),
    }
}

/// The state after the source was paused, and whether the reader is woken: a
/// waiting reader is woken to find the stream suspended, a ready payload is parked.
pub open spec fn spec_suspend(state: TaskStateModel) -> (TaskStateModel, bool) {
    match state {
        TaskStateModel::Running => (TaskStateModel::Suspended(None), true),
        TaskStateModel::Completed(bits) => (TaskStateModel::Suspended(Some(bits)), false),
        other => (other, false),
    }
}

/// The state after the source was let run again: a parked payload is ready, and
/// without one the stream is idle.
pub open spec fn spec_resume(state: TaskStateModel) -> TaskStateModel {
    match state {
        TaskStateModel::Suspended(Some(bits)) => TaskStateModel::Completed(bits),
        TaskStateModel::Suspended(None) => TaskStateModel::Pending,
        other => other,
    }
}

/// The receiving side of the physical layer.
pub struct AtherInputStream {
    /// The state shared by the reader and the decoding task.
    pub task: AtherInputTaskState,
    /// The decoder that the task drives.
    pub decoder: AtherDecoder,
}

impl AtherInputStream {
    /// An idle stream whose decoder looks for a preamble.
    pub fn new(config: AtherStreamConfig) -> (stream: AtherInputStream)
        requires
            config.wf(),
        ensures
            stream.task@ == TaskStateModel::Pending,
            stream.decoder.wf(),
            stream.decoder.phase@ == PhaseModel::Preamble,
            stream.decoder.symbol_len == config.spec_symbol_len(),
            stream.decoder.preamble_len == crate::consts::PREAMBLE_LEN * config.spec_symbol_len(),
    {
        AtherInputStream { task: AtherInputTaskState::Pending, decoder: AtherDecoder::new(&config) }
    }

    /// The reader asks for the next payload.
    pub fn poll_next(&mut self) -> (polled: Polled)
        ensures
            (final(self).task@, polled@) == spec_poll(old(self).task@),
            final(self).decoder == old(self).decoder,
    {
        match self.task.take() {
            AtherInputTaskState::Pending => {
                self.task = AtherInputTaskState::Running;
                Polled::Pending { start: true }
            },
            AtherInputTaskState::Running => {
                self.task = AtherInputTaskState::Running;
                Polled::Pending { start: false }
            },
            AtherInputTaskState::Completed(bits) => {
                self.task = AtherInputTaskState::Pending;
                Polled::Ready(Some(bits))
            },
            AtherInputTaskState::Suspended(bits) => {
                match bits {
                    Some(bits) => {
                        self.task = AtherInputTaskState::Suspended(None);
                        Polled::Ready(Some(bits))
                    },
                    None => Polled::Ready(None),
                }
            },
        }
    }

    /// The task decoded a payload. Returns whether the reader is to be woken.
    pub fn complete(&mut self, bits: Bits) -> (wake: bool)
        ensures
            (final(self).task@, wake) == spec_complete(old(self).task@, bits@),
            final(self).decoder == old(self).decoder,
    {
        match self.task.take() {
            AtherInputTaskState::Running => {
                self.task = AtherInputTaskState::Completed(bits);
                true
            },
            content => {
                self.task = content;
                false
            },
        }
    }

    /// The source was paused. Returns whether the reader is to be woken.
    pub fn suspend(&mut self) -> (wake: bool)
        ensures
            (final(self).task@, wake) == spec_suspend(old(self).task@),
            final(self).decoder == old(self).decoder,
    {
        match self.task.take() {
            AtherInputTaskState::Running => {
                self.task = AtherInputTaskState::Suspended(None);
                true
            },
            AtherInputTaskState::Completed(bits) => {
                self.task = AtherInputTaskState::Suspended(Some(bits));
                false
            },
            content => {
                self.task = content;
                false
            },
        }
    }

    /// The source is closed for good: the stream ends as if it were suspended
    /// for ever. A payload that is ready is still handed out; after it, or at
    /// once, the reader finds the end of the stream. The frame in progress is
    /// given up. Returns whether the reader is to be woken.
    pub fn close(&mut self) -> (wake: bool)
        requires
            old(self).decoder.wf(),
        ensures
            (final(self).task@, wake) == spec_suspend(old(self).task@),
            final(self).decoder.wf(),
            final(self).decoder.phase@ == PhaseModel::Preamble,
            final(self).decoder.preamble_len == old(self).decoder.preamble_len,
            final(self).decoder.symbol_len == old(self).decoder.symbol_len,
    {
        self.decoder.reset();
        self.suspend()
    }

    /// The source was let run again.
    pub fn resume(&mut self)
        ensures
            final(self).task@ == spec_resume(old(self).task@),
            final(self).decoder == old(self).decoder,
    {
        match self.task.take() {
            AtherInputTaskState::Suspended(bits) => {
                match bits {
                    Some(bits) => {
                        self.task = AtherInputTaskState::Completed(bits);
                    },
                    None => {
                        self.task = AtherInputTaskState::Pending;
                    },
                }
            },
            content => {
                self.task = content;
            },
        }
    }
}

} // verus!
