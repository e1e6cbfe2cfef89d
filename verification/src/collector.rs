//! The collector's side of a connection: frames are cut out of the byte
//! stream by their length prefixes alone, and each payload is decoded on
//! its own, so that a payload that is no record costs that one record and
//! never the place of the next frame.

use vstd::prelude::*;
use vstd::slice::{slice_subrange, slice_to_vec};
use crate::codec::{
    decode, decode_spec, framed, lemma_decode_inverts_encode, lemma_wire_layout_len, wire_layout,
    DecodeError, PREFIX_LEN, WIRE_RECORD_LEN,
};
use crate::octets::{
    lemma_u32_be_at_agrees, lemma_u32_be_at_slice, lemma_u32_be_round_trip, lemma_u32_width,
    read_u32_be, u32_be_at, u32_be_bytes,
};
use crate::record::WrapperEventlogRecord;

verus! {

/// Why a connection was closed.
#[derive(Clone, Copy, Debug, PartialEq, Eq, Structural)]
pub enum CloseReason {
    /// The stream ended where a frame would have begun: the normal end.
    EndOfStream,
    /// The stream ended inside a payload.
    TruncatedFrame,
}

/// Where the handler of one connection stands.
#[derive(Clone, Copy, Debug, PartialEq, Eq, Structural)]
pub enum ConnectionHandler {
    /// The four bytes of a length prefix are awaited.
    AwaitingPrefix,
    /// A payload of this many bytes is awaited.
    AwaitingPayload(u32),
    /// The connection is closed.
    Closed(CloseReason),
}

/// What the driver of a connection reports to its handler.
#[derive(Debug)]
pub enum HandlerEvent {
    /// The read that was asked for gave these bytes.
    Bytes(Vec<u8>),
    /// The stream ended, or failed, before the read was complete.
    ShortRead,
}

/// What the handler asks of the driver of its connection.
#[derive(Clone, Copy, Debug, PartialEq, Eq, Structural)]
pub enum HandlerAction {
    /// Read exactly this many bytes, then report them.
    Read(usize),
    /// Close the connection.
    Close(CloseReason),
    /// Nothing is left to do: the connection is closed already.
    Halt,
}

/// What one frame came to: the record to hand to the index, or the reason
/// why its payload is none.
pub type FrameOutcome = Result<WrapperEventlogRecord, DecodeError>;

impl ConnectionHandler {
    /// The transition function: the handler after `event`, what the frame
    /// that `event` completed came to, if it completed one, and what the
    /// driver is to do next.
    ///
    /// A read that brings another count of bytes than was asked for counts
    /// as a short read.
    pub open spec fn step_spec(self, event: HandlerEvent) -> (
        ConnectionHandler,
        Option<FrameOutcome>,
        HandlerAction,
    ) {
        match self {
            ConnectionHandler::AwaitingPrefix => match event {
                HandlerEvent::Bytes(data) if data@.len() == PREFIX_LEN => {
                    let length = u32_be_at(data@, 0);
                    (
                        ConnectionHandler::AwaitingPayload(length),
                        None,
                        HandlerAction::Read(length as usize),
                    )
                },
                _ => (
                    ConnectionHandler::Closed(CloseReason::EndOfStream),
                    None,
                    HandlerAction::Close(CloseReason::EndOfStream),
                ),
            },
            ConnectionHandler::AwaitingPayload(length) => match event {
                HandlerEvent::Bytes(data) if data@.len() == length => (
                    ConnectionHandler::AwaitingPrefix,
                    Some(decode_spec(data@)),
                    HandlerAction::Read(PREFIX_LEN),
                ),
                _ => (
                    ConnectionHandler::Closed(CloseReason::TruncatedFrame),
                    None,
                    HandlerAction::Close(CloseReason::TruncatedFrame),
                ),
            },
            ConnectionHandler::Closed(_) => (self, None, HandlerAction::Halt),
        }
    }

    /// The handler of a connection that was just accepted, and the first
    /// thing its driver is to do.
    pub fn new() -> (out: (ConnectionHandler, HandlerAction))
        ensures
            out == (ConnectionHandler::AwaitingPrefix, HandlerAction::Read(PREFIX_LEN)),
    {
        (ConnectionHandler::AwaitingPrefix, HandlerAction::Read(PREFIX_LEN))
    }

    /// Takes what the driver reports and gives the handler that follows,
    /// the outcome of the frame that was completed, if one was, and what
    /// the driver is to do next.
    pub fn step(self, event: HandlerEvent) -> (out: (
        ConnectionHandler,
        Option<FrameOutcome>,
        HandlerAction,
    ))
        ensures
            out == self.step_spec(event),
    {
        match self {
            ConnectionHandler::AwaitingPrefix => match event {
                HandlerEvent::Bytes(data) => {
                    if data.len() == PREFIX_LEN {
                        let length = read_u32_be(data.as_slice(), 0);
                        (
                            ConnectionHandler::AwaitingPayload(length),
                            None,
                            HandlerAction::Read(length as usize),
                        )
                    } else {
                        (
                            ConnectionHandler::Closed(CloseReason::EndOfStream),
                            None,
                            HandlerAction::Close(CloseReason::EndOfStream),
                        )
                    }
                },
                HandlerEvent::ShortRead => (
                    ConnectionHandler::Closed(CloseReason::EndOfStream),
                    None,
                    HandlerAction::Close(CloseReason::EndOfStream),
                ),
            },
            ConnectionHandler::AwaitingPayload(length) => match event {
                HandlerEvent::Bytes(data) => {
                    if data.len() == length as usize {
                        (
                            ConnectionHandler::AwaitingPrefix,
                            Some(decode(data.as_slice())),
                            HandlerAction::Read(PREFIX_LEN),
                        )
                    } else {
                        (
                            ConnectionHandler::Closed(CloseReason::TruncatedFrame),
                            None,
                            HandlerAction::Close(CloseReason::TruncatedFrame),
                        )
                    }
                },
                HandlerEvent::ShortRead => (
                    ConnectionHandler::Closed(CloseReason::TruncatedFrame),
                    None,
                    HandlerAction::Close(CloseReason::TruncatedFrame),
                ),
            },
            ConnectionHandler::Closed(_) => (self, None, HandlerAction::Halt),
        }
    }
}

/// Whether a whole frame stands at `at`: four bytes of length, and as many
/// bytes after them as they say.
pub open spec fn frame_at(stream: Seq<u8>, at: int) -> bool {
    &&& 0 <= at
    &&& at + PREFIX_LEN <= stream.len()
    &&& at + PREFIX_LEN + u32_be_at(stream, at) <= stream.len()
}

/// Where the frame at `at` ends and the next one begins.
pub open spec fn frame_end(stream: Seq<u8>, at: int) -> int {
    at + PREFIX_LEN + u32_be_at(stream, at)
}

/// The payload of the frame at `at`.
pub open spec fn payload_at(stream: Seq<u8>, at: int) -> Seq<u8> {
    stream.subrange(at + PREFIX_LEN, frame_end(stream, at))
}

/// Where each whole frame begins, for the frames that follow one another
/// from `at` on.
pub open spec fn frame_starts(stream: Seq<u8>, at: int) -> Seq<int>
    decreases stream.len() - at,
{
    if frame_at(stream, at) {
        seq![at] + frame_starts(stream, frame_end(stream, at))
    } else {
        Seq::empty()
    }
}

/// What each whole frame from `at` on comes to, in the order of arrival.
pub open spec fn outcomes_from(stream: Seq<u8>, at: int) -> Seq<FrameOutcome>
    decreases stream.len() - at,
{
    if frame_at(stream, at) {
        seq![decode_spec(payload_at(stream, at))] + outcomes_from(stream, frame_end(stream, at))
    } else {
        Seq::empty()
    }
}

/// The end of the last whole frame, for the frames that follow one another
/// from `at` on.
pub open spec fn frames_end(stream: Seq<u8>, at: int) -> int
    decreases stream.len() - at,
{
    if frame_at(stream, at) {
        frames_end(stream, frame_end(stream, at))
    } else {
        at
    }
}

/// Why the connection is closed when no whole frame stands at `at`: the
/// stream ended before a length prefix was complete, or inside a payload.
pub open spec fn close_at(stream: Seq<u8>, at: int) -> CloseReason {
    if stream.len() - at < PREFIX_LEN {
        CloseReason::EndOfStream
    } else {
        CloseReason::TruncatedFrame
    }
}

/// What a connection came to once its stream has ended.
#[derive(Clone, Debug, PartialEq, Eq)]
pub struct StreamReport {
    /// What each frame came to, in the order of arrival.
    pub outcomes: Vec<FrameOutcome>,
    /// How many bytes the whole frames took.
    pub consumed: usize,
    /// Why the connection was closed.
    pub close: CloseReason,
}

/// Where a handler stands that has read `stream` up to `pos`, its last
/// whole frame ending at `start`.
spec fn in_step(
    stream: Seq<u8>,
    handler: ConnectionHandler,
    action: HandlerAction,
    start: int,
    pos: int,
) -> bool {
    &&& 0 <= start <= pos <= stream.len()
    &&& match handler {
        ConnectionHandler::AwaitingPrefix => pos == start && action == HandlerAction::Read(
            PREFIX_LEN,
        ),
        ConnectionHandler::AwaitingPayload(length) => {
            &&& pos == start + PREFIX_LEN
            &&& length == u32_be_at(stream, start)
            &&& action == HandlerAction::Read(length as usize)
        },
        ConnectionHandler::Closed(reason) => {
            &&& !frame_at(stream, start)
            &&& reason == close_at(stream, start)
            &&& action == HandlerAction::Close(reason)
        },
    }
}

/// How far a handler is from the end of its stream, for termination.
spec fn phase(handler: ConnectionHandler) -> int {
    match handler {
        ConnectionHandler::AwaitingPayload(_) => 2,
        ConnectionHandler::AwaitingPrefix => 1,
        ConnectionHandler::Closed(_) => 0,
    }
}

/// Runs a handler over a stream that is there as a whole, as its driver
/// would over a connection: each read takes the bytes that are next, and
/// the stream's end cuts the last read short.
pub fn drain_stream(stream: &[u8]) -> (report: StreamReport)
    ensures
        report.outcomes@ == outcomes_from(stream@, 0),
        report.consumed == frames_end(stream@, 0),
        report.close == close_at(stream@, report.consumed as int),
{
    let (mut handler, mut action) = ConnectionHandler::new();
    let mut outcomes: Vec<FrameOutcome> = Vec::new();
    let mut start: usize = 0;
    let mut pos: usize = 0;
    loop
        invariant
            in_step(stream@, handler, action, start as int, pos as int),
            outcomes@ + outcomes_from(stream@, start as int) == outcomes_from(stream@, 0),
            frames_end(stream@, start as int) == frames_end(stream@, 0),
        decreases stream@.len() - pos, phase(handler),
    {
        match action {
            HandlerAction::Read(count) => {
                let event = if count <= stream.len() - pos {
                    let chunk = slice_subrange(stream, pos, pos + count);
                    pos = pos + count;
                    HandlerEvent::Bytes(slice_to_vec(chunk))
                } else {
                    HandlerEvent::ShortRead
                };
                proof {
                    if start + PREFIX_LEN <= stream@.len() {
                        lemma_u32_be_at_slice(stream@, start as int);
                    }
                }
                let (next, outcome, then) = handler.step(event);
                match outcome {
                    Some(result) => {
                        proof {
                            let rest = outcomes_from(stream@, pos as int);
                            assert(outcomes@.push(result) + rest =~= outcomes@ + (seq![result]
                                + rest));
                        }
                        outcomes.push(result);
                        start = pos;
                    },
                    None => {},
                }
                handler = next;
                action = then;
            },
            HandlerAction::Close(reason) => {
                return StreamReport { outcomes, consumed: start, close: reason };
            },
            HandlerAction::Halt => {
                return vstd::pervasive::unreached();
            },
        }
    }
}

/// Frame boundaries: every whole frame of a stream ends exactly four bytes
/// and its declared length after it begins, there the next one begins, and
/// each frame comes to one outcome, which is what its payload decodes to,
/// be that a record or an error.
pub proof fn lemma_frames_advance_by_their_length(stream: Seq<u8>, at: int, i: int)
    requires
        0 <= i < frame_starts(stream, at).len(),
    ensures
        outcomes_from(stream, at).len() == frame_starts(stream, at).len(),
        at <= frame_starts(stream, at)[i],
        frame_at(stream, frame_starts(stream, at)[i]),
        outcomes_from(stream, at)[i] == decode_spec(
            payload_at(stream, frame_starts(stream, at)[i]),
        ),
        payload_at(stream, frame_starts(stream, at)[i]).len() == u32_be_at(
            stream,
            frame_starts(stream, at)[i],
        ),
        i + 1 < frame_starts(stream, at).len() ==> frame_starts(stream, at)[i + 1]
            == frame_starts(stream, at)[i] + PREFIX_LEN + u32_be_at(
            stream,
            frame_starts(stream, at)[i],
        ),
        i + 1 == frame_starts(stream, at).len() ==> frames_end(stream, at) == frame_starts(
            stream,
            at,
        )[i] + PREFIX_LEN + u32_be_at(stream, frame_starts(stream, at)[i]),
    decreases stream.len() - at,
{
    let next = frame_end(stream, at);
    let later = frame_starts(stream, next);
    lemma_one_outcome_per_frame(stream, at);
    lemma_one_outcome_per_frame(stream, next);
    assert(frame_at(stream, at));
    assert(frame_starts(stream, at) == seq![at] + later);
    assert(frames_end(stream, at) == frames_end(stream, next));
    if i > 0 {
        lemma_frames_advance_by_their_length(stream, next, i - 1);
    } else if later.len() == 0 {
        assert(!frame_at(stream, next));
    } else {
        assert(frame_at(stream, next));
        assert(later[0] == next);
    }
}

/// Every whole frame comes to exactly one outcome.
pub proof fn lemma_one_outcome_per_frame(stream: Seq<u8>, at: int)
    ensures
        outcomes_from(stream, at).len() == frame_starts(stream, at).len(),
    decreases stream.len() - at,
{
    if frame_at(stream, at) {
        lemma_one_outcome_per_frame(stream, frame_end(stream, at));
    }
}

/// What is read from `at` on depends on the bytes from `at` on alone.
proof fn lemma_frames_depend_on_what_follows(a: Seq<u8>, b: Seq<u8>, at: int)
    requires
        0 <= at,
        a.len() == b.len(),
        forall|i: int| at <= i < a.len() ==> a[i] == b[i],
    ensures
        frame_starts(a, at) == frame_starts(b, at),
        outcomes_from(a, at) == outcomes_from(b, at),
        frames_end(a, at) == frames_end(b, at),
    decreases a.len() - at,
{
    if at + PREFIX_LEN <= a.len() {
        lemma_u32_be_at_agrees(a, b, at);
        if frame_at(a, at) {
            assert(payload_at(a, at) =~= payload_at(b, at));
            lemma_frames_depend_on_what_follows(a, b, frame_end(a, at));
        }
    }
}

/// A payload cannot move a frame boundary: when any one byte inside the
/// payload of a frame is replaced, every frame of the stream begins and
/// ends where it did, the connection is closed where and why it was, and
/// every other frame comes to what it came to before.
pub proof fn lemma_payload_cannot_move_frames(stream: Seq<u8>, at: int, k: int, j: int, v: u8)
    requires
        0 <= at,
        0 <= k < frame_starts(stream, at).len(),
        frame_starts(stream, at)[k] + PREFIX_LEN <= j < frame_end(
            stream,
            frame_starts(stream, at)[k],
        ),
    ensures
        frame_starts(stream.update(j, v), at) == frame_starts(stream, at),
        frames_end(stream.update(j, v), at) == frames_end(stream, at),
        close_at(stream.update(j, v), frames_end(stream.update(j, v), at)) == close_at(
            stream,
            frames_end(stream, at),
        ),
        outcomes_from(stream.update(j, v), at).len() == outcomes_from(stream, at).len(),
        forall|i: int|
            0 <= i < outcomes_from(stream, at).len() && i != k ==> outcomes_from(
                stream.update(j, v),
                at,
            )[i] == outcomes_from(stream, at)[i],
    decreases stream.len() - at,
{
    let changed = stream.update(j, v);
    let next = frame_end(stream, at);
    lemma_frames_advance_by_their_length(stream, at, k);
    assert(frame_at(stream, at));
    assert(frame_starts(stream, at) == seq![at] + frame_starts(stream, next));
    lemma_u32_be_at_agrees(stream, changed, at);
    assert(frame_end(changed, at) == next);
    assert(frame_at(changed, at));
    if k == 0 {
        lemma_frames_depend_on_what_follows(stream, changed, next);
    } else {
        lemma_frames_advance_by_their_length(stream, next, k - 1);
        assert(payload_at(changed, at) =~= payload_at(stream, at));
        lemma_payload_cannot_move_frames(stream, next, k - 1, j, v);
        assert forall|i: int|
            0 <= i < outcomes_from(stream, at).len() && i != k implies outcomes_from(changed, at)[i]
            == outcomes_from(stream, at)[i] by {
            if i > 0 {
                assert(outcomes_from(changed, next)[i - 1] == outcomes_from(stream, next)[i - 1]);
            }
        }
    }
}

/// Whatever a payload holds, a handler that is given a length prefix and
/// then a payload of the length that the prefix declares has asked for
/// exactly that many bytes, hands on what the payload decodes to, and
/// awaits the next prefix: a payload that is no record does not close the
/// connection.
pub proof fn lemma_handler_takes_declared_length(prefix: Vec<u8>, payload: Vec<u8>)
    requires
        prefix@.len() == PREFIX_LEN,
        payload@.len() == u32_be_at(prefix@, 0),
    ensures
        ({
            let (after_prefix, none, ask) = ConnectionHandler::AwaitingPrefix.step_spec(
                HandlerEvent::Bytes(prefix),
            );
            let (after_payload, outcome, then) = after_prefix.step_spec(
                HandlerEvent::Bytes(payload),
            );
            &&& none is None
            &&& ask == HandlerAction::Read(payload@.len() as usize)
            &&& outcome == Some(decode_spec(payload@))
            &&& after_payload == ConnectionHandler::AwaitingPrefix
            &&& then == HandlerAction::Read(PREFIX_LEN)
        }),
{
}

/// The stream that carries `records`: the frame of each, one after the
/// other.
pub open spec fn framed_all(records: Seq<WrapperEventlogRecord>) -> Seq<u8>
    decreases records.len(),
{
    if records.len() == 0 {
        Seq::empty()
    } else {
        framed(records[0]) + framed_all(records.drop_first())
    }
}

/// The frames that follow `head` in a stream are the frames of what
/// follows, each `head.len()` further on.
proof fn lemma_frames_after_head(head: Seq<u8>, tail: Seq<u8>, at: int)
    requires
        0 <= at,
    ensures
        outcomes_from(head + tail, head.len() + at) == outcomes_from(tail, at),
        frames_end(head + tail, head.len() + at) == head.len() + frames_end(tail, at),
    decreases tail.len() - at,
{
    let whole = head + tail;
    let shifted = head.len() + at;
    if at + PREFIX_LEN <= tail.len() {
        lemma_u32_be_at_slice(whole, shifted);
        lemma_u32_be_at_slice(tail, at);
        assert(whole.subrange(shifted, shifted + 4) =~= tail.subrange(at, at + 4));
        if frame_at(tail, at) {
            assert(payload_at(whole, shifted) =~= payload_at(tail, at));
            lemma_frames_after_head(head, tail, frame_end(tail, at));
        }
    }
}

/// What the forwarder writes, the collector reads: a stream made of the
/// frames of some records comes to exactly those records, in their order,
/// every byte of it consumed, and ends as a stream should.
pub proof fn lemma_framed_records_arrive(records: Seq<WrapperEventlogRecord>)
    ensures
        outcomes_from(framed_all(records), 0) == records.map_values(
            |r: WrapperEventlogRecord| Ok::<WrapperEventlogRecord, DecodeError>(r),
        ),
        frames_end(framed_all(records), 0) == framed_all(records).len(),
        close_at(framed_all(records), framed_all(records).len() as int)
            == CloseReason::EndOfStream,
    decreases records.len(),
{
    let stream = framed_all(records);
    let expected = records.map_values(
        |r: WrapperEventlogRecord| Ok::<WrapperEventlogRecord, DecodeError>(r),
    );
    if records.len() == 0 {
        assert(outcomes_from(stream, 0) =~= expected);
    } else {
        let first = records[0];
        let rest = framed_all(records.drop_first());
        let payload = wire_layout(first);
        lemma_framed_records_arrive(records.drop_first());
        lemma_u32_width(WIRE_RECORD_LEN as u32);
        lemma_wire_layout_len(first);
        lemma_decode_inverts_encode(first);
        lemma_u32_be_round_trip(WIRE_RECORD_LEN as u32, Seq::empty(), payload + rest);
        assert(stream =~= Seq::<u8>::empty() + u32_be_bytes(WIRE_RECORD_LEN as u32) + (payload
            + rest));
        assert(payload_at(stream, 0) =~= payload);
        lemma_frames_after_head(framed(first), rest, 0);
        assert(outcomes_from(stream, 0) =~= expected) by {
            let later = records.drop_first().map_values(
                |r: WrapperEventlogRecord| Ok::<WrapperEventlogRecord, DecodeError>(r),
            );
            assert forall|i: int| 0 <= i < expected.len() implies outcomes_from(stream, 0)[i]
                == expected[i] by {
                if i > 0 {
                    assert(later[i - 1] == expected[i]);
                }
            }
        }
    }
}

} // verus!
