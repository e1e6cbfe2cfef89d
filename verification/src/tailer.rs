//! The tailer: the state machine that follows a live log source.
//!
//! The tailer decides; its driver acts. Each call of [`Tailer::step`] takes
//! what the driver last observed and gives the next thing to do: read at a
//! position, hand on a record, wait, or end the session. The driver opens
//! the source, reads, sends and sleeps, and reports back.

use vstd::prelude::*;
use crate::record::{
    lemma_record_fits, numbered_from, parse_record, record_at, records_from, walk_error,
    NativeEventRecord, RecordError,
};

verus! {

/// Size in bytes of the read buffer that a session starts with.
pub const DEFAULT_BUFFER_SIZE: usize = 4096;

/// Seconds to wait before reading again once the source has nothing new.
pub const BACKOFF_SECONDS: u64 = 1;

/// The tailer's bookmark in the log, and the bounds it was computed from.
#[derive(Clone, Copy, Debug, PartialEq, Eq, Structural)]
pub struct Cursor {
    pub oldest_available: u32,
    pub total_available: u32,
    pub last_delivered: u32,
}

impl Cursor {
    /// The number of the newest record in a log with these bounds: the
    /// record after which a session starts to tail.
    pub open spec fn newest(oldest_available: u32, total_available: u32) -> int {
        oldest_available + total_available - 1
    }

    /// The cursor after delivery of the record numbered `record_number`: it
    /// stands on that record.
    pub open spec fn delivered(self, record_number: u32) -> Cursor {
        Cursor { last_delivered: record_number, ..self }
    }

    /// The cursor of a session that starts on a log with these bounds. It
    /// stands on the newest record present, so that the backlog is skipped.
    /// There is none when that record's number is no `u32`.
    pub fn new(oldest_available: u32, total_available: u32) -> (cursor: Option<Cursor>)
        ensures
            cursor is Some <==> 0 <= Cursor::newest(oldest_available, total_available) <= u32::MAX,
            cursor is Some ==> cursor->Some_0 == (Cursor {
                oldest_available,
                total_available,
                last_delivered: Cursor::newest(oldest_available, total_available) as u32,
            }),
    {
        let end: u64 = oldest_available as u64 + total_available as u64;
        if end == 0 || end - 1 > u32::MAX as u64 {
            None
        } else {
            Some(Cursor { oldest_available, total_available, last_delivered: (end - 1) as u32 })
        }
    }

    /// The number of the record to ask the source for next.
    pub fn next_position(&self) -> (position: u64)
        ensures
            position == self.last_delivered + 1,
    {
        self.last_delivered as u64 + 1
    }

    /// Records that the record numbered `record_number` was delivered.
    pub fn advance(self, record_number: u32) -> (moved: Cursor)
        ensures
            moved == self.delivered(record_number),
    {
        Cursor { last_delivered: record_number, ..self }
    }
}

/// Why a session ended.
#[derive(Clone, Copy, Debug, PartialEq, Eq, Structural)]
pub enum SessionError {
    /// The log source could not be opened.
    SourceOpen,
    /// The bounds of the log give no record number to start after.
    CursorOutOfRange,
    /// The source failed a read with something other than "buffer too
    /// small" or "nothing new".
    SourceRead,
    /// The read buffer holds bytes that are no record.
    MalformedRecord(RecordError),
    /// A frame could not be written to the collector.
    Transport,
    /// The driver reported something that the tailer was not waiting for.
    UnexpectedEvent,
}

/// Where a session stands.
#[derive(Clone, Copy, Debug, PartialEq, Eq, Structural)]
pub enum TailerState {
    /// Waiting for the source to be opened and its bounds reported.
    Init,
    /// A read is under way.
    Seeking,
    /// A record of the read buffer was handed on; its delivery is awaited.
    Draining,
    /// The source had nothing new; the backoff is under way.
    Polling,
    /// The session is over.
    Failed(SessionError),
}

/// What the driver reports to the tailer.
#[derive(Debug)]
pub enum TailerEvent {
    /// The source is open and holds `total_available` records, the oldest
    /// numbered `oldest_available`.
    SourceOpened { oldest_available: u32, total_available: u32 },
    /// The source could not be opened.
    SourceOpenFailed,
    /// The read filled the buffer with these bytes.
    Records(Vec<u8>),
    /// The read needs a buffer of at least this many bytes.
    NeedLargerBuffer(usize),
    /// The read found nothing after the position asked for.
    NoMoreRecords,
    /// The read failed for good.
    ReadFailed,
    /// The backoff is over.
    BackoffElapsed,
    /// The record handed on was framed, written and flushed.
    Delivered,
    /// The record handed on could not be written.
    DeliveryFailed,
}

/// What the tailer asks of the driver.
#[derive(Clone, Copy, Debug, PartialEq, Eq, Structural)]
pub enum TailerAction {
    /// Read from the source, starting at record `position`, into a buffer
    /// of `buffer_size` bytes.
    Read { position: u64, buffer_size: usize },
    /// Deliver this record, then report how that went.
    Yield(NativeEventRecord),
    /// Wait this long, then report `BackoffElapsed`.
    Sleep { seconds: u64 },
    /// Release the source: the session has ended with this error.
    Close(SessionError),
    /// Nothing is left to do, nor to release.
    Halt,
}

/// A tailing session.
#[derive(Debug)]
pub struct Tailer {
    state: TailerState,
    cursor: Cursor,
    buffer_size: usize,
    buffer: Vec<u8>,
    offset: usize,
}

/// A session as the contracts see it.
pub struct TailerView {
    pub state: TailerState,
    pub cursor: Cursor,
    /// Size of the read buffer that the next read is to use.
    pub buffer_size: usize,
    /// The bytes of the last read, while they are being drained.
    pub buffer: Seq<u8>,
    /// Where in `buffer` the record handed on last begins.
    pub offset: nat,
}

impl TailerView {
    /// The session before its source is opened: no cursor yet, and a read
    /// buffer of the default size.
    pub open spec fn initial() -> TailerView {
        TailerView {
            state: TailerState::Init,
            cursor: Cursor { oldest_available: 0, total_available: 0, last_delivered: 0 },
            buffer_size: DEFAULT_BUFFER_SIZE,
            buffer: Seq::empty(),
            offset: 0,
        }
    }

    /// The read that this session issues whenever it seeks: one past the
    /// cursor, with the buffer it has.
    pub open spec fn read(self) -> TailerAction {
        TailerAction::Read {
            position: (self.cursor.last_delivered + 1) as u64,
            buffer_size: self.buffer_size,
        }
    }

    /// The session as it is left when it ends with `error`.
    pub open spec fn failed(self, error: SessionError) -> TailerView {
        TailerView { state: TailerState::Failed(error), buffer: Seq::empty(), offset: 0, ..self }
    }

    /// The session ends with `error`, and the driver is to release the
    /// source.
    pub open spec fn fail(self, error: SessionError) -> (TailerView, TailerAction) {
        (self.failed(error), TailerAction::Close(error))
    }

    /// The session ends with `error` before a source was opened: nothing is
    /// there to release.
    pub open spec fn abort(self, error: SessionError) -> (TailerView, TailerAction) {
        (self.failed(error), TailerAction::Halt)
    }

    /// The session goes to read again, at its cursor.
    pub open spec fn seek(self) -> (TailerView, TailerAction) {
        (
            TailerView { state: TailerState::Seeking, buffer: Seq::empty(), offset: 0, ..self },
            self.read(),
        )
    }

    /// The session looks at its buffer from `offset` on: at the end of the
    /// buffer it reads again, at a record it hands the record on, and at
    /// anything else it fails.
    pub open spec fn drain(self) -> (TailerView, TailerAction) {
        if self.offset >= self.buffer.len() {
            self.seek()
        } else {
            match record_at(self.buffer, self.offset as int) {
                Ok(record) => (
                    TailerView { state: TailerState::Draining, ..self },
                    TailerAction::Yield(record),
                ),
                Err(e) => self.fail(SessionError::MalformedRecord(e)),
            }
        }
    }

    /// The transition function: the session after `event`, and what the
    /// driver is to do next.
    pub open spec fn step(self, event: TailerEvent) -> (TailerView, TailerAction) {
        match (self.state, event) {
            (
                TailerState::Init,
                TailerEvent::SourceOpened { oldest_available, total_available },
            ) => {
                let newest = Cursor::newest(oldest_available, total_available);
                if 0 <= newest <= u32::MAX {
                    TailerView {
                        cursor: Cursor {
                            oldest_available,
                            total_available,
                            last_delivered: newest as u32,
                        },
                        ..self
                    }.seek()
                } else {
                    self.fail(SessionError::CursorOutOfRange)
                }
            },
            (TailerState::Init, TailerEvent::SourceOpenFailed) => self.abort(
                SessionError::SourceOpen,
            ),
            (TailerState::Init, _) => self.abort(SessionError::UnexpectedEvent),
            (TailerState::Seeking, TailerEvent::Records(data)) => TailerView {
                buffer: data@,
                offset: 0,
                ..self
            }.drain(),
            (TailerState::Seeking, TailerEvent::NeedLargerBuffer(min_size)) => TailerView {
                buffer_size: if min_size > self.buffer_size {
                    min_size
                } else {
                    self.buffer_size
                },
                ..self
            }.seek(),
            (TailerState::Seeking, TailerEvent::NoMoreRecords) => (
                TailerView { state: TailerState::Polling, ..self },
                TailerAction::Sleep { seconds: BACKOFF_SECONDS },
            ),
            (TailerState::Seeking, TailerEvent::ReadFailed) => self.fail(SessionError::SourceRead),
            (TailerState::Draining, TailerEvent::Delivered) => match record_at(
                self.buffer,
                self.offset as int,
            ) {
                Ok(record) => TailerView {
                    cursor: self.cursor.delivered(record.record_number),
                    offset: (self.offset + record.length) as nat,
                    ..self
                }.drain(),
                Err(e) => self.fail(SessionError::MalformedRecord(e)),
            },
            (TailerState::Draining, TailerEvent::DeliveryFailed) => self.fail(
                SessionError::Transport,
            ),
            (TailerState::Polling, TailerEvent::BackoffElapsed) => self.seek(),
            (TailerState::Failed(_), _) => (self, TailerAction::Halt),
            _ => self.fail(SessionError::UnexpectedEvent),
        }
    }
}

impl View for Tailer {
    type V = TailerView;

    closed spec fn view(&self) -> TailerView {
        TailerView {
            state: self.state,
            cursor: self.cursor,
            buffer_size: self.buffer_size,
            buffer: self.buffer@,
            offset: self.offset as nat,
        }
    }
}

impl Tailer {
    /// A session that has not opened its source yet.
    pub fn new() -> (tailer: Tailer)
        ensures
            tailer@ == TailerView::initial(),
    {
        Tailer {
            state: TailerState::Init,
            cursor: Cursor { oldest_available: 0, total_available: 0, last_delivered: 0 },
            buffer_size: DEFAULT_BUFFER_SIZE,
            buffer: Vec::new(),
            offset: 0,
        }
    }

    /// Where the session stands.
    pub fn state(&self) -> (state: TailerState)
        ensures
            state == self@.state,
    {
        self.state
    }

    /// The session's cursor.
    pub fn cursor(&self) -> (cursor: Cursor)
        ensures
            cursor == self@.cursor,
    {
        self.cursor
    }

    /// Size of the read buffer that the next read is to use.
    pub fn buffer_size(&self) -> (size: usize)
        ensures
            size == self@.buffer_size,
    {
        self.buffer_size
    }

    fn failed(self, error: SessionError) -> (ended: Tailer)
        ensures
            ended@ == self@.failed(error),
    {
        Tailer { state: TailerState::Failed(error), buffer: Vec::new(), offset: 0, ..self }
    }

    fn fail(self, error: SessionError) -> (out: (Tailer, TailerAction))
        ensures
            (out.0@, out.1) == self@.fail(error),
    {
        (self.failed(error), TailerAction::Close(error))
    }

    fn abort(self, error: SessionError) -> (out: (Tailer, TailerAction))
        ensures
            (out.0@, out.1) == self@.abort(error),
    {
        (self.failed(error), TailerAction::Halt)
    }

    fn seek(self) -> (out: (Tailer, TailerAction))
        ensures
            (out.0@, out.1) == self@.seek(),
    {
        let action = TailerAction::Read {
            position: self.cursor.next_position(),
            buffer_size: self.buffer_size,
        };
        (Tailer { state: TailerState::Seeking, buffer: Vec::new(), offset: 0, ..self }, action)
    }

    fn drain(self) -> (out: (Tailer, TailerAction))
        ensures
            (out.0@, out.1) == self@.drain(),
    {
        if self.offset >= self.buffer.len() {
            return self.seek();
        }
        match parse_record(self.buffer.as_slice(), self.offset) {
            Ok(record) => (
                Tailer { state: TailerState::Draining, ..self },
                TailerAction::Yield(record),
            ),
            Err(e) => self.fail(SessionError::MalformedRecord(e)),
        }
    }

    /// Takes what the driver reports and gives the session that follows and
    /// what the driver is to do next.
    pub fn step(self, event: TailerEvent) -> (out: (Tailer, TailerAction))
        ensures
            (out.0@, out.1) == self@.step(event),
    {
        match (self.state, event) {
            (
                TailerState::Init,
                TailerEvent::SourceOpened { oldest_available, total_available },
            ) => {
                match Cursor::new(oldest_available, total_available) {
                    Some(cursor) => Tailer { cursor, ..self }.seek(),
                    None => self.fail(SessionError::CursorOutOfRange),
                }
            },
            (TailerState::Init, TailerEvent::SourceOpenFailed) => self.abort(
                SessionError::SourceOpen,
            ),
            (TailerState::Init, _) => self.abort(SessionError::UnexpectedEvent),
            (TailerState::Seeking, TailerEvent::Records(data)) => Tailer {
                buffer: data,
                offset: 0,
                ..self
            }.drain(),
            (TailerState::Seeking, TailerEvent::NeedLargerBuffer(min_size)) => Tailer {
                buffer_size: if min_size > self.buffer_size {
                    min_size
                } else {
                    self.buffer_size
                },
                ..self
            }.seek(),
            (TailerState::Seeking, TailerEvent::NoMoreRecords) => (
                Tailer { state: TailerState::Polling, ..self },
                TailerAction::Sleep { seconds: BACKOFF_SECONDS },
            ),
            (TailerState::Seeking, TailerEvent::ReadFailed) => self.fail(SessionError::SourceRead),
            (TailerState::Draining, TailerEvent::Delivered) => {
                match parse_record(self.buffer.as_slice(), self.offset) {
                    Ok(record) => {
                        proof {
                            lemma_record_fits(self.buffer@, self.offset as int);
                            assert(self.buffer@.len() == self.buffer.len());
                        }
                        Tailer {
                            cursor: self.cursor.advance(record.record_number),
                            offset: self.offset + record.length as usize,
                            ..self
                        }.drain()
                    },
                    Err(e) => self.fail(SessionError::MalformedRecord(e)),
                }
            },
            (TailerState::Draining, TailerEvent::DeliveryFailed) => self.fail(
                SessionError::Transport,
            ),
            (TailerState::Polling, TailerEvent::BackoffElapsed) => self.seek(),
            (TailerState::Failed(_), _) => (self, TailerAction::Halt),
            _ => self.fail(SessionError::UnexpectedEvent),
        }
    }
}

/// The session that a run of steps leaves: `events` taken one after the
/// other, from `pre`.
pub open spec fn run(pre: TailerView, events: Seq<TailerEvent>) -> TailerView
    decreases events.len(),
{
    if events.len() == 0 {
        pre
    } else {
        run(pre.step(events[0]).0, events.drop_first())
    }
}

/// How many reads the tailer asks for in a run of steps.
pub open spec fn reads_issued(pre: TailerView, events: Seq<TailerEvent>) -> nat
    decreases events.len(),
{
    if events.len() == 0 {
        0
    } else {
        let (next, action) = pre.step(events[0]);
        (if action is Read {
            1nat
        } else {
            0nat
        }) + reads_issued(next, events.drop_first())
    }
}

/// How many backoffs the driver reports as over in `events`.
pub open spec fn backoffs_elapsed(events: Seq<TailerEvent>) -> nat
    decreases events.len(),
{
    if events.len() == 0 {
        0
    } else {
        (if events[0] is BackoffElapsed {
            1nat
        } else {
            0nat
        }) + backoffs_elapsed(events.drop_first())
    }
}

/// What the tailer asks for at the end of a run of steps: its answer to
/// the last of `events`.
pub open spec fn last_action(pre: TailerView, events: Seq<TailerEvent>) -> TailerAction
    recommends
        events.len() > 0,
    decreases events.len(),
{
    if events.len() <= 1 {
        pre.step(events[0]).1
    } else {
        last_action(pre.step(events[0]).0, events.drop_first())
    }
}

/// `count` reports of delivery, one after the other.
pub open spec fn deliveries(count: nat) -> Seq<TailerEvent> {
    Seq::new(count, |i: int| TailerEvent::Delivered)
}

/// The cursor after delivery of `records`, one after the other: it stands
/// on the last of them.
pub open spec fn delivered_all(cursor: Cursor, records: Seq<NativeEventRecord>) -> Cursor {
    if records.len() == 0 {
        cursor
    } else {
        cursor.delivered(records.last().record_number)
    }
}

/// Whether the source keeps to what it was asked in a run of steps: what
/// each read brings is numbered in ascending order from the position that
/// the read asked for.
pub open spec fn source_in_order(pre: TailerView, events: Seq<TailerEvent>) -> bool
    decreases events.len(),
{
    if events.len() == 0 {
        true
    } else {
        &&& pre.state is Seeking ==> (events[0] matches TailerEvent::Records(data)
            ==> numbered_from(data@, 0, pre.cursor.last_delivered + 1))
        &&& source_in_order(pre.step(events[0]).0, events.drop_first())
    }
}

/// A session that is over stays over: it keeps its error and everything
/// else as it was, and asks for no further read.
pub proof fn lemma_failed_is_terminal(pre: TailerView, events: Seq<TailerEvent>)
    requires
        pre.state is Failed,
    ensures
        run(pre, events) == pre,
        reads_issued(pre, events) == 0,
        events.len() > 0 ==> last_action(pre, events) == TailerAction::Halt,
    decreases events.len(),
{
    if events.len() > 0 {
        lemma_failed_is_terminal(pre, events.drop_first());
    }
}

/// The read buffer never shrinks: whatever the driver reports, and however
/// often, the buffer size after is at least the buffer size before.
pub proof fn lemma_buffer_never_shrinks(pre: TailerView, events: Seq<TailerEvent>)
    ensures
        run(pre, events).buffer_size >= pre.buffer_size,
    decreases events.len(),
{
    if events.len() > 0 {
        lemma_buffer_never_shrinks(pre.step(events[0]).0, events.drop_first());
    }
}

/// When a read reports that it needs `min_size` bytes, the tailer asks for
/// the same position again with a buffer of at least that size, its cursor
/// unmoved, and the buffer stays at least that large for the rest of the
/// session.
pub proof fn lemma_buffer_grows_to_reported_minimum(
    pre: TailerView,
    min_size: usize,
    events: Seq<TailerEvent>,
)
    requires
        pre.state is Seeking,
    ensures
        ({
            let (next, action) = pre.step(TailerEvent::NeedLargerBuffer(min_size));
            &&& next.state is Seeking
            &&& next.cursor == pre.cursor
            &&& next.buffer_size >= min_size
            &&& next.buffer_size >= pre.buffer_size
            &&& action == (TailerAction::Read {
                position: (pre.cursor.last_delivered + 1) as u64,
                buffer_size: next.buffer_size,
            })
            &&& run(next, events).buffer_size >= min_size
        }),
{
    lemma_buffer_never_shrinks(pre.step(TailerEvent::NeedLargerBuffer(min_size)).0, events);
}

/// Once a session has its cursor, and as long as the source brings its
/// records in ascending order from the position asked for, the cursor never
/// moves back, whatever else the driver reports; the bounds it was
/// computed from stay as they are.
pub proof fn lemma_cursor_never_retreats(pre: TailerView, events: Seq<TailerEvent>)
    requires
        !(pre.state is Init),
        numbered_from(pre.buffer, pre.offset as int, pre.cursor.last_delivered + 1),
        source_in_order(pre, events),
    ensures
        run(pre, events).cursor.last_delivered >= pre.cursor.last_delivered,
        run(pre, events).cursor.oldest_available == pre.cursor.oldest_available,
        run(pre, events).cursor.total_available == pre.cursor.total_available,
    decreases events.len(),
{
    if events.len() > 0 {
        let next = pre.step(events[0]).0;
        assert(numbered_from(Seq::<u8>::empty(), 0, next.cursor.last_delivered + 1));
        lemma_record_fits(pre.buffer, pre.offset as int);
        assert(numbered_from(next.buffer, next.offset as int, next.cursor.last_delivered + 1));
        lemma_cursor_never_retreats(next, events.drop_first());
    }
}

/// The cursor moves in two steps only: when the session computes it from
/// the bounds of the source, and when the driver reports a record as
/// delivered. On delivery it moves to the number of the record that was
/// handed on.
pub proof fn lemma_cursor_moves_only_on_delivery(pre: TailerView, event: TailerEvent)
    ensures
        pre.step(event).0.cursor != pre.cursor ==> (pre.state is Init && event is SourceOpened) || (
        pre.state is Draining && event is Delivered),
        pre.state is Draining && event is Delivered ==> (record_at(
            pre.buffer,
            pre.offset as int,
        ) matches Ok(record) ==> pre.step(event).0.cursor == pre.cursor.delivered(
            record.record_number,
        )),
{
}

/// The tailer never answers "nothing new" with a read, and while it waits
/// out a backoff only the end of that backoff makes it read.
pub proof fn lemma_read_waits_for_backoff(pre: TailerView, event: TailerEvent)
    ensures
        event is NoMoreRecords ==> !(pre.step(event).1 is Read),
        pre.state is Seeking && event is NoMoreRecords ==> pre.step(event) == (
            TailerView { state: TailerState::Polling, ..pre },
            TailerAction::Sleep { seconds: BACKOFF_SECONDS },
        ),
        pre.state is Polling && pre.step(event).1 is Read ==> event is BackoffElapsed
            && pre.step(event).1 == pre.read(),
{
}

/// While the source keeps reporting that it has nothing new, the tailer
/// asks for at most one read per backoff that has run out.
pub proof fn lemma_one_read_per_backoff(pre: TailerView, events: Seq<TailerEvent>)
    requires
        forall|i: int|
            0 <= i < events.len() ==> events[i] is NoMoreRecords || events[i] is BackoffElapsed,
    ensures
        reads_issued(pre, events) <= backoffs_elapsed(events),
    decreases events.len(),
{
    if events.len() > 0 {
        let rest = events.drop_first();
        assert forall|i: int| 0 <= i < rest.len() implies rest[i] is NoMoreRecords
            || rest[i] is BackoffElapsed by {
            assert(rest[i] == events[i + 1]);
        }
        lemma_one_read_per_backoff(pre.step(events[0]).0, rest);
    }
}

/// Where a session stands that looked at its buffer and then saw `count`
/// deliveries confirmed, `records` being what lies in the buffer from its
/// offset on: it has handed on record number `count`, if there is one; at
/// the end of the records it has gone back to reading, or has failed on
/// the bytes that are no record. Its cursor stands on the last record that
/// was delivered.
spec fn drained(
    v: TailerView,
    count: nat,
    after: TailerView,
    action: TailerAction,
) -> bool {
    let records = records_from(v.buffer, v.offset as int);
    &&& after.cursor == delivered_all(v.cursor, records.take(count as int))
    &&& after.buffer_size == v.buffer_size
    &&& count < records.len() ==> after.state is Draining && action == TailerAction::Yield(
        records[count as int],
    )
    &&& count == records.len() ==> match walk_error(v.buffer, v.offset as int) {
        None => after.state is Seeking && action == after.read(),
        Some(e) => after.state == TailerState::Failed(SessionError::MalformedRecord(e))
            && action == TailerAction::Close(SessionError::MalformedRecord(e)),
    }
}

/// A session that looks at its buffer and then sees `count` deliveries
/// confirmed has drained `count` records of it, in their order.
proof fn lemma_drain(v: TailerView, count: nat)
    requires
        count <= records_from(v.buffer, v.offset as int).len(),
    ensures
        count == 0 ==> drained(v, count, v.drain().0, v.drain().1),
        count > 0 ==> drained(
            v,
            count,
            run(v.drain().0, deliveries(count)),
            last_action(v.drain().0, deliveries(count)),
        ),
    decreases count,
{
    let records = records_from(v.buffer, v.offset as int);
    if count == 0 {
        assert(records.take(0) =~= Seq::<NativeEventRecord>::empty());
    } else {
        let first = records[0];
        lemma_record_fits(v.buffer, v.offset as int);
        let held = v.drain().0;
        let moved = TailerView {
            cursor: v.cursor.delivered(first.record_number),
            offset: (v.offset + first.length) as nat,
            ..held
        };
        let later = records_from(moved.buffer, moved.offset as int);
        assert(later == records.drop_first());
        assert(held.step(TailerEvent::Delivered) == moved.drain());
        let events = deliveries(count);
        assert(events.drop_first() =~= deliveries((count - 1) as nat));
        assert(records.take(count as int).drop_first() =~= later.take(count - 1));
        assert(count > 1 ==> records.take(count as int).last() == later.take(count - 1).last());
        lemma_drain(moved, (count - 1) as nat);
        if count == 1 {
            assert(run(held, events) == moved.drain().0) by {
                assert(run(moved.drain().0, events.drop_first()) == moved.drain().0);
            }
        }
    }
}

/// A read buffer is drained record by record, in the order in which the
/// records lie in it: after a read that brought `data` and `count`
/// confirmed deliveries, the tailer has handed on record number `count` of
/// the buffer, if there is one, and past the last record it reads again,
/// one past its cursor, or has ended the session on bytes that are no
/// record. The cursor stands on the last record delivered so far.
pub proof fn lemma_buffer_is_drained_in_order(pre: TailerView, data: Vec<u8>, count: nat)
    requires
        pre.state is Seeking,
        count <= records_from(data@, 0).len(),
    ensures
        ({
            let records = records_from(data@, 0);
            let events = seq![TailerEvent::Records(data)] + deliveries(count);
            let after = run(pre, events);
            let action = last_action(pre, events);
            &&& after.cursor == delivered_all(pre.cursor, records.take(count as int))
            &&& after.buffer_size == pre.buffer_size
            &&& count < records.len() ==> after.state is Draining && action
                == TailerAction::Yield(records[count as int])
            &&& count == records.len() ==> match walk_error(data@, 0) {
                None => after.state is Seeking && action == after.read(),
                Some(e) => after.state == TailerState::Failed(SessionError::MalformedRecord(e))
                    && action == TailerAction::Close(SessionError::MalformedRecord(e)),
            }
        }),
{
    let filled = TailerView { buffer: data@, offset: 0, ..pre };
    let events = seq![TailerEvent::Records(data)] + deliveries(count);
    assert(pre.step(events[0]) == filled.drain());
    assert(events.drop_first() =~= deliveries(count));
    lemma_drain(filled, count);
    if count == 0 {
        assert(run(filled.drain().0, events.drop_first()) == filled.drain().0);
    }
}

} // verus!
