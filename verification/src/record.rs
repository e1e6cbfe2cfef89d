//! Event records: the native record as the log source lays it out in a read
//! buffer, and the flat record that travels on the wire.

use vstd::prelude::*;
use vstd::std_specs::convert::FromSpecImpl;
use crate::octets::{read_u16_le, read_u32_le, u16_le_at, u32_le_at};

verus! {

/// Size in bytes of the fixed header that every native record starts with.
pub const NATIVE_HEADER_LEN: usize = 56;

/// The fixed header of one native event record.
///
/// The record itself is variable-length: `length` is its full extent in the
/// read buffer, header included, and the offsets locate the strings, the
/// user SID and the data inside that extent.
#[derive(Clone, Copy, Debug, PartialEq, Eq, Structural)]
pub struct NativeEventRecord {
    pub length: u32,
    pub reserved: u32,
    pub record_number: u32,
    pub time_generated: u32,
    pub time_written: u32,
    pub event_id: u32,
    pub event_type: u16,
    pub num_strings: u16,
    pub event_category: u16,
    pub reserved_flags: u16,
    pub closing_record_number: u32,
    pub string_offset: u32,
    pub user_sid_length: u32,
    pub user_sid_offset: u32,
    pub data_length: u32,
    pub data_offset: u32,
}

/// The record as it is sent to the collector: the stable numeric fields of a
/// native record, without its strings.
#[derive(Clone, Copy, Debug, PartialEq, Eq, Structural)]
pub struct WrapperEventlogRecord {
    pub length: u32,
    pub reserved: u32,
    pub record_number: u32,
    pub time_generated: u32,
    pub time_written: u32,
    pub event_id: u32,
    pub num_strings: u16,
    pub event_category: u16,
    pub reserved_flags: u16,
    pub closing_record_number: u32,
    pub string_offset: u32,
    pub user_sid_length: u32,
    pub user_sid_offset: u32,
    pub data_length: u32,
    pub data_offset: u32,
}

/// The wire record that stands for a native record: every field of the same
/// name carried over, the event type left behind.
pub open spec fn project(native: NativeEventRecord) -> WrapperEventlogRecord {
    WrapperEventlogRecord {
        length: native.length,
        reserved: native.reserved,
        record_number: native.record_number,
        time_generated: native.time_generated,
        time_written: native.time_written,
        event_id: native.event_id,
        num_strings: native.num_strings,
        event_category: native.event_category,
        reserved_flags: native.reserved_flags,
        closing_record_number: native.closing_record_number,
        string_offset: native.string_offset,
        user_sid_length: native.user_sid_length,
        user_sid_offset: native.user_sid_offset,
        data_length: native.data_length,
        data_offset: native.data_offset,
    }
}

impl From<NativeEventRecord> for WrapperEventlogRecord {
    fn from(orig: NativeEventRecord) -> (wire: Self) {
        WrapperEventlogRecord {
            length: orig.length,
            reserved: orig.reserved,
            record_number: orig.record_number,
            time_generated: orig.time_generated,
            time_written: orig.time_written,
            event_id: orig.event_id,
            num_strings: orig.num_strings,
            event_category: orig.event_category,
            reserved_flags: orig.reserved_flags,
            closing_record_number: orig.closing_record_number,
            string_offset: orig.string_offset,
            user_sid_length: orig.user_sid_length,
            user_sid_offset: orig.user_sid_offset,
            data_length: orig.data_length,
            data_offset: orig.data_offset,
        }
    }
}

impl FromSpecImpl<NativeEventRecord> for WrapperEventlogRecord {
    open spec fn obeys_from_spec() -> bool {
        true
    }

    open spec fn from_spec(orig: NativeEventRecord) -> Self {
        project(orig)
    }
}

/// Why the bytes at some offset of a read buffer are no record.
#[derive(Clone, Copy, Debug, PartialEq, Eq, Structural)]
pub enum RecordError {
    /// Fewer bytes are left than the length field itself takes.
    LengthFieldTruncated,
    /// The record declares a length of zero.
    ZeroLength,
    /// The record declares more bytes than the buffer has left.
    LengthExceedsBuffer,
    /// The record declares fewer bytes than its own fixed header takes.
    HeaderTruncated,
}

/// The header whose bytes stand at `at`, each field little-endian at its
/// fixed place.
pub open spec fn header_at(buf: Seq<u8>, at: int) -> NativeEventRecord {
    NativeEventRecord {
        length: u32_le_at(buf, at),
        reserved: u32_le_at(buf, at + 4),
        record_number: u32_le_at(buf, at + 8),
        time_generated: u32_le_at(buf, at + 12),
        time_written: u32_le_at(buf, at + 16),
        event_id: u32_le_at(buf, at + 20),
        event_type: u16_le_at(buf, at + 24),
        num_strings: u16_le_at(buf, at + 26),
        event_category: u16_le_at(buf, at + 28),
        reserved_flags: u16_le_at(buf, at + 30),
        closing_record_number: u32_le_at(buf, at + 32),
        string_offset: u32_le_at(buf, at + 36),
        user_sid_length: u32_le_at(buf, at + 40),
        user_sid_offset: u32_le_at(buf, at + 44),
        data_length: u32_le_at(buf, at + 48),
        data_offset: u32_le_at(buf, at + 52),
    }
}

/// The record that starts at `at`, or the reason why none does.
///
/// A record is there exactly when its declared length covers at least its
/// own header and at most what is left of the buffer.
pub open spec fn record_at(buf: Seq<u8>, at: int) -> Result<NativeEventRecord, RecordError> {
    let remaining = buf.len() - at;
    if remaining < 4 {
        Err(RecordError::LengthFieldTruncated)
    } else if u32_le_at(buf, at) == 0 {
        Err(RecordError::ZeroLength)
    } else if u32_le_at(buf, at) > remaining {
        Err(RecordError::LengthExceedsBuffer)
    } else if u32_le_at(buf, at) < NATIVE_HEADER_LEN {
        Err(RecordError::HeaderTruncated)
    } else {
        Ok(header_at(buf, at))
    }
}

/// A record that is there lies inside the buffer and covers its header.
pub proof fn lemma_record_fits(buf: Seq<u8>, at: int)
    ensures
        record_at(buf, at) matches Ok(record) ==> NATIVE_HEADER_LEN <= record.length <= buf.len()
            - at,
{
}

/// Reads the record that starts at `offset` of a read buffer.
///
/// The declared length is read first and checked against what is left of the
/// buffer; only then are the other header fields read.
pub fn parse_record(buf: &[u8], offset: usize) -> (parsed: Result<NativeEventRecord, RecordError>)
    ensures
        parsed == record_at(buf@, offset as int),
{
    if offset > buf.len() || buf.len() - offset < 4 {
        return Err(RecordError::LengthFieldTruncated);
    }
    let remaining: usize = buf.len() - offset;
    let length: u32 = read_u32_le(buf, offset);
    if length == 0 {
        return Err(RecordError::ZeroLength);
    }
    if length as u64 > remaining as u64 {
        return Err(RecordError::LengthExceedsBuffer);
    }
    if (length as u64) < NATIVE_HEADER_LEN as u64 {
        return Err(RecordError::HeaderTruncated);
    }
    Ok(
        NativeEventRecord {
            length,
            reserved: read_u32_le(buf, offset + 4),
            record_number: read_u32_le(buf, offset + 8),
            time_generated: read_u32_le(buf, offset + 12),
            time_written: read_u32_le(buf, offset + 16),
            event_id: read_u32_le(buf, offset + 20),
            event_type: read_u16_le(buf, offset + 24),
            num_strings: read_u16_le(buf, offset + 26),
            event_category: read_u16_le(buf, offset + 28),
            reserved_flags: read_u16_le(buf, offset + 30),
            closing_record_number: read_u32_le(buf, offset + 32),
            string_offset: read_u32_le(buf, offset + 36),
            user_sid_length: read_u32_le(buf, offset + 40),
            user_sid_offset: read_u32_le(buf, offset + 44),
            data_length: read_u32_le(buf, offset + 48),
            data_offset: read_u32_le(buf, offset + 52),
        },
    )
}

/// The records that lie one after the other in a read buffer from `at` on,
/// each found by the length of the one before, up to the end of the buffer
/// or to the first bytes that are no record.
pub open spec fn records_from(buf: Seq<u8>, at: int) -> Seq<NativeEventRecord>
    decreases buf.len() - at,
{
    if at >= buf.len() {
        Seq::empty()
    } else {
        match record_at(buf, at) {
            Ok(record) => seq![record] + records_from(buf, at + record.length),
            Err(_) => Seq::empty(),
        }
    }
}

/// How a walk over a read buffer from `at` on ends: with nothing amiss at
/// the end of the buffer, or with the reason why bytes met on the way are
/// no record.
pub open spec fn walk_error(buf: Seq<u8>, at: int) -> Option<RecordError>
    decreases buf.len() - at,
{
    if at >= buf.len() {
        None
    } else {
        match record_at(buf, at) {
            Ok(record) => walk_error(buf, at + record.length),
            Err(e) => Some(e),
        }
    }
}

/// Whether the records that lie in a read buffer from `at` on are numbered
/// in ascending order, the first of them `floor` or later.
pub open spec fn numbered_from(buf: Seq<u8>, at: int, floor: int) -> bool
    decreases buf.len() - at,
{
    if at >= buf.len() {
        true
    } else {
        match record_at(buf, at) {
            Ok(record) => floor <= record.record_number && numbered_from(
                buf,
                at + record.length,
                record.record_number + 1,
            ),
            Err(_) => true,
        }
    }
}

/// What a walk over a read buffer found.
#[derive(Clone, Debug, PartialEq, Eq)]
pub struct Walk {
    /// The records, in the order in which they lie in the buffer.
    pub records: Vec<NativeEventRecord>,
    /// Why the walk stopped before the end of the buffer, if it did.
    pub error: Option<RecordError>,
}

/// Walks a read buffer from its start: every record is found by the
/// declared length of the one before it.
pub fn walk_records(buf: &[u8]) -> (walk: Walk)
    ensures
        walk.records@ == records_from(buf@, 0),
        walk.error == walk_error(buf@, 0),
{
    let mut records: Vec<NativeEventRecord> = Vec::new();
    let mut offset: usize = 0;
    while offset < buf.len()
        invariant
            offset <= buf@.len(),
            records@ + records_from(buf@, offset as int) == records_from(buf@, 0),
            walk_error(buf@, offset as int) == walk_error(buf@, 0),
        decreases buf@.len() - offset,
    {
        match parse_record(buf, offset) {
            Ok(record) => {
                proof {
                    lemma_record_fits(buf@, offset as int);
                    let rest = records_from(buf@, offset + record.length);
                    assert(records@.push(record) + rest =~= records@ + (seq![record] + rest));
                }
                records.push(record);
                offset = offset + record.length as usize;
            },
            Err(e) => {
                proof {
                    assert(records@ + Seq::<NativeEventRecord>::empty() =~= records@);
                }
                return Walk { records, error: Some(e) };
            },
        }
    }
    proof {
        assert(records@ + Seq::<NativeEventRecord>::empty() =~= records@);
    }
    Walk { records, error: None }
}

} // verus!
