//! The forwarder: a tailer whose records leave as frames.
//!
//! It is the tailer's state machine with one thing added: a record that the
//! tailer hands on is projected to its wire record and framed, so that the
//! driver gets the bytes to write.

use vstd::prelude::*;
use crate::codec::{encode, framed};
use crate::record::{project, NativeEventRecord, WrapperEventlogRecord};
use crate::tailer::{SessionError, Tailer, TailerAction, TailerEvent, TailerView};

verus! {

/// What the forwarder asks of its driver.
#[derive(Clone, Debug, PartialEq, Eq)]
pub enum ForwarderAction {
    /// Read from the source, starting at record `position`, into a buffer
    /// of `buffer_size` bytes, and report what came of it.
    Read { position: u64, buffer_size: usize },
    /// Write these bytes to the collector and flush, then report
    /// `Delivered`, or `DeliveryFailed` if either failed.
    Write(Vec<u8>),
    /// Wait this long, then report `BackoffElapsed`.
    Sleep { seconds: u64 },
    /// Release the source: the session has ended with this error.
    Close(SessionError),
    /// Nothing is left to do, nor to release.
    Halt,
}

impl ForwarderAction {
    /// This action is what the forwarder makes of the tailer's `asked`:
    /// the same, but that a record to hand on has become its frame.
    pub open spec fn carries_out(self, asked: TailerAction) -> bool {
        match asked {
            TailerAction::Read { position, buffer_size } => self == (ForwarderAction::Read {
                position,
                buffer_size,
            }),
            TailerAction::Yield(record) => self matches ForwarderAction::Write(bytes) && bytes@
                == framed(project(record)),
            TailerAction::Sleep { seconds } => self == (ForwarderAction::Sleep { seconds }),
            TailerAction::Close(error) => self == ForwarderAction::Close(error),
            TailerAction::Halt => self == ForwarderAction::Halt,
        }
    }
}

/// The bytes that carry a native record to the collector.
pub fn frame_record(native: NativeEventRecord) -> (bytes: Vec<u8>)
    ensures
        bytes@ == framed(project(native)),
{
    let wire: WrapperEventlogRecord = WrapperEventlogRecord::from(native);
    encode(&wire).to_bytes()
}

/// A forwarding session.
#[derive(Debug)]
pub struct Forwarder {
    tailer: Tailer,
}

impl View for Forwarder {
    type V = TailerView;

    closed spec fn view(&self) -> TailerView {
        self.tailer@
    }
}

impl Forwarder {
    /// A session that has not opened its source yet.
    pub fn new() -> (forwarder: Forwarder)
        ensures
            forwarder@ == TailerView::initial(),
    {
        Forwarder { tailer: Tailer::new() }
    }

    /// The tailer that this session runs.
    pub fn tailer(&self) -> (tailer: &Tailer)
        ensures
            tailer@ == self@,
    {
        &self.tailer
    }

    /// Takes what the driver reports and gives the session that follows and
    /// what the driver is to do next: what the tailer decides, with the
    /// record to hand on as the bytes of its frame.
    pub fn step(self, event: TailerEvent) -> (out: (Forwarder, ForwarderAction))
        ensures
            out.0@ == self@.step(event).0,
            out.1.carries_out(self@.step(event).1),
    {
        let (tailer, asked) = self.tailer.step(event);
        let action = match asked {
            TailerAction::Read { position, buffer_size } => ForwarderAction::Read {
                position,
                buffer_size,
            },
            TailerAction::Yield(record) => ForwarderAction::Write(frame_record(record)),
            TailerAction::Sleep { seconds } => ForwarderAction::Sleep { seconds },
            TailerAction::Close(error) => ForwarderAction::Close(error),
            TailerAction::Halt => ForwarderAction::Halt,
        };
        (Forwarder { tailer }, action)
    }
}

} // verus!
