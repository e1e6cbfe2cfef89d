//! The frame codec: a wire record as a fixed payload of little-endian
//! integers, carried in a frame behind a big-endian length prefix.

use vstd::prelude::*;
use crate::octets::{
    lemma_u16_le_round_trip, lemma_u16_width, lemma_u32_le_round_trip, lemma_u32_width,
    push_u32_be, u16_le_at, u16_le_bytes, u32_be_bytes, u32_le_at, u32_le_bytes,
};
use crate::record::WrapperEventlogRecord;

verus! {

/// Size in bytes of an encoded wire record.
pub const WIRE_RECORD_LEN: usize = 54;

/// Size in bytes of the length prefix of a frame.
pub const PREFIX_LEN: usize = 4;

/// One unit of the wire protocol: a payload and the count of its bytes.
#[derive(Clone, Debug, PartialEq, Eq)]
pub struct Frame {
    pub length: u32,
    pub payload: Vec<u8>,
}

/// Why a payload is no wire record.
#[derive(Clone, Copy, Debug, PartialEq, Eq, Structural)]
pub enum DecodeError {
    /// The payload ends before the fixed layout does.
    Truncated { needed: usize, found: usize },
}

impl Frame {
    /// The frame says of its payload how long it is.
    pub open spec fn wf(&self) -> bool {
        self.length == self.payload@.len()
    }

    /// The frame on the wire: the length as four big-endian bytes, then the
    /// payload.
    pub open spec fn wire_bytes(&self) -> Seq<u8> {
        u32_be_bytes(self.length) + self.payload@
    }

    /// Frames a payload, if its length fits the prefix.
    pub fn new(payload: Vec<u8>) -> (frame: Option<Frame>)
        ensures
            frame is Some <==> payload@.len() <= u32::MAX,
            frame is Some ==> frame->Some_0.payload == payload && frame->Some_0.wf(),
    {
        if payload.len() > u32::MAX as usize {
            None
        } else {
            Some(Frame { length: payload.len() as u32, payload })
        }
    }

    /// The bytes to put on the wire for this frame.
    pub fn to_bytes(&self) -> (out: Vec<u8>)
        ensures
            out@ == self.wire_bytes(),
    {
        let mut out: Vec<u8> = Vec::new();
        push_u32_be(&mut out, self.length);
        let mut i: usize = 0;
        while i < self.payload.len()
            invariant
                i <= self.payload@.len(),
                out@ == u32_be_bytes(self.length) + self.payload@.subrange(0, i as int),
            decreases self.payload@.len() - i,
        {
            out.push(self.payload[i]);
            i += 1;
        }
        assert(self.payload@.subrange(0, i as int) == self.payload@);
        out
    }
}

/// `bincode::ErrorKind`, the error of the two calls into bincode below.
/// Nothing is said of what it holds: it is carried from the call to where
/// `decode` puts an error of this library in its place.
#[verifier::external_type_specification]
#[verifier::external_body]
pub struct ExBincodeErrorKind(bincode::ErrorKind);

/// The payload of a record: its fields in declaration order, each as
/// little-endian bytes of its own width, nothing between them.
pub open spec fn wire_layout(r: WrapperEventlogRecord) -> Seq<u8> {
    u32_le_bytes(r.length) + u32_le_bytes(r.reserved) + u32_le_bytes(r.record_number)
        + u32_le_bytes(r.time_generated) + u32_le_bytes(r.time_written) + u32_le_bytes(r.event_id)
        + u16_le_bytes(r.num_strings) + u16_le_bytes(r.event_category) + u16_le_bytes(
        r.reserved_flags,
    ) + u32_le_bytes(r.closing_record_number) + u32_le_bytes(r.string_offset) + u32_le_bytes(
        r.user_sid_length,
    ) + u32_le_bytes(r.user_sid_offset) + u32_le_bytes(r.data_length) + u32_le_bytes(
        r.data_offset,
    )
}

/// The record that the first `WIRE_RECORD_LEN` bytes of a payload spell.
pub open spec fn parse_layout(payload: Seq<u8>) -> WrapperEventlogRecord {
    WrapperEventlogRecord {
        length: u32_le_at(payload, 0),
        reserved: u32_le_at(payload, 4),
        record_number: u32_le_at(payload, 8),
        time_generated: u32_le_at(payload, 12),
        time_written: u32_le_at(payload, 16),
        event_id: u32_le_at(payload, 20),
        num_strings: u16_le_at(payload, 24),
        event_category: u16_le_at(payload, 26),
        reserved_flags: u16_le_at(payload, 28),
        closing_record_number: u32_le_at(payload, 30),
        string_offset: u32_le_at(payload, 34),
        user_sid_length: u32_le_at(payload, 38),
        user_sid_offset: u32_le_at(payload, 42),
        data_length: u32_le_at(payload, 46),
        data_offset: u32_le_at(payload, 50),
    }
}

/// The bytes that carry a record over the wire: the length of its payload
/// as four big-endian bytes, then the payload.
pub open spec fn framed(r: WrapperEventlogRecord) -> Seq<u8> {
    u32_be_bytes(WIRE_RECORD_LEN as u32) + wire_layout(r)
}

/// What decoding a payload gives: the record its leading bytes spell, or
/// the error when it is shorter than the layout. Bytes after the layout are
/// not looked at.
pub open spec fn decode_spec(payload: Seq<u8>) -> Result<WrapperEventlogRecord, DecodeError> {
    if payload.len() < WIRE_RECORD_LEN {
        Err(DecodeError::Truncated { needed: WIRE_RECORD_LEN, found: payload.len() as usize })
    } else {
        Ok(parse_layout(payload))
    }
}

/// `bincode::serialize`, applied to the fields of `record` as one tuple in
/// declaration order.
///
/// Trusted: with the configuration that function fixes (fixed-width
/// integers, little-endian, no size limit) a tuple is written as its
/// elements one after the other with nothing added, each integer as the
/// little-endian bytes of its width, and writing integers into a `Vec`
/// cannot fail.
#[verifier::external_body]
fn bincode_serialize(record: &WrapperEventlogRecord) -> (out: Result<
    Vec<u8>,
    Box<bincode::ErrorKind>,
>)
    ensures
        out is Ok,
        out->Ok_0@ == wire_layout(*record),
{
    bincode::serialize(&(
        record.length, record.reserved, record.record_number,
        record.time_generated, record.time_written, record.event_id,
        record.num_strings, record.event_category, record.reserved_flags,
        record.closing_record_number, record.string_offset, record.user_sid_length,
        record.user_sid_offset, record.data_length, record.data_offset,
    ))
}

/// `bincode::deserialize`, asked for the tuple of a record's fields in
/// declaration order.
///
/// Trusted: with the configuration that function fixes it reads each
/// integer from the next bytes of its width, little-endian; it fails when
/// the slice ends before the last field does and on nothing else, since
/// every byte pattern is an integer; bytes after the last field are allowed
/// and ignored.
#[verifier::external_body]
fn bincode_deserialize(payload: &[u8]) -> (out: Result<
    WrapperEventlogRecord,
    Box<bincode::ErrorKind>,
>)
    ensures
        out is Ok <==> payload@.len() >= WIRE_RECORD_LEN,
        out is Ok ==> out->Ok_0 == parse_layout(payload@),
{
    let (length, reserved, record_number, time_generated, time_written, event_id,
        num_strings, event_category, reserved_flags, closing_record_number, string_offset,
        user_sid_length, user_sid_offset, data_length, data_offset) =
        bincode::deserialize(payload)?;
    Ok(WrapperEventlogRecord {
        length, reserved, record_number, time_generated, time_written, event_id,
        num_strings, event_category, reserved_flags, closing_record_number, string_offset,
        user_sid_length, user_sid_offset, data_length, data_offset,
    })
}

/// Each field takes the bytes of its width.
proof fn lemma_field_widths(r: WrapperEventlogRecord)
    ensures
        u32_le_bytes(r.length).len() == 4,
        u32_le_bytes(r.reserved).len() == 4,
        u32_le_bytes(r.record_number).len() == 4,
        u32_le_bytes(r.time_generated).len() == 4,
        u32_le_bytes(r.time_written).len() == 4,
        u32_le_bytes(r.event_id).len() == 4,
        u16_le_bytes(r.num_strings).len() == 2,
        u16_le_bytes(r.event_category).len() == 2,
        u16_le_bytes(r.reserved_flags).len() == 2,
        u32_le_bytes(r.closing_record_number).len() == 4,
        u32_le_bytes(r.string_offset).len() == 4,
        u32_le_bytes(r.user_sid_length).len() == 4,
        u32_le_bytes(r.user_sid_offset).len() == 4,
        u32_le_bytes(r.data_length).len() == 4,
        u32_le_bytes(r.data_offset).len() == 4,
{
    lemma_u32_width(r.length);
    lemma_u32_width(r.reserved);
    lemma_u32_width(r.record_number);
    lemma_u32_width(r.time_generated);
    lemma_u32_width(r.time_written);
    lemma_u32_width(r.event_id);
    lemma_u16_width(r.num_strings);
    lemma_u16_width(r.event_category);
    lemma_u16_width(r.reserved_flags);
    lemma_u32_width(r.closing_record_number);
    lemma_u32_width(r.string_offset);
    lemma_u32_width(r.user_sid_length);
    lemma_u32_width(r.user_sid_offset);
    lemma_u32_width(r.data_length);
    lemma_u32_width(r.data_offset);
}

/// Every payload that `wire_layout` gives has the fixed length.
pub proof fn lemma_wire_layout_len(r: WrapperEventlogRecord)
    ensures
        wire_layout(r).len() == WIRE_RECORD_LEN,
{
    lemma_field_widths(r);
}

/// Decoding inverts encoding: the payload that `encode` gives for a record
/// decodes to that record, for every record.
pub proof fn lemma_decode_inverts_encode(r: WrapperEventlogRecord)
    ensures
        decode_spec(wire_layout(r)) == Ok::<WrapperEventlogRecord, DecodeError>(r),
{
    lemma_field_widths(r);
    let w = wire_layout(r);
    let field0 = u32_le_bytes(r.length);
    let field1 = u32_le_bytes(r.reserved);
    let field2 = u32_le_bytes(r.record_number);
    let field3 = u32_le_bytes(r.time_generated);
    let field4 = u32_le_bytes(r.time_written);
    let field5 = u32_le_bytes(r.event_id);
    let field6 = u16_le_bytes(r.num_strings);
    let field7 = u16_le_bytes(r.event_category);
    let field8 = u16_le_bytes(r.reserved_flags);
    let field9 = u32_le_bytes(r.closing_record_number);
    let field10 = u32_le_bytes(r.string_offset);
    let field11 = u32_le_bytes(r.user_sid_length);
    let field12 = u32_le_bytes(r.user_sid_offset);
    let field13 = u32_le_bytes(r.data_length);
    let field14 = u32_le_bytes(r.data_offset);
    // What stands before each field: the layout is `before14 + field14`.
    let before0 = Seq::<u8>::empty();
    let before1 = field0;
    let before2 = before1 + field1;
    let before3 = before2 + field2;
    let before4 = before3 + field3;
    let before5 = before4 + field4;
    let before6 = before5 + field5;
    let before7 = before6 + field6;
    let before8 = before7 + field7;
    let before9 = before8 + field8;
    let before10 = before9 + field9;
    let before11 = before10 + field10;
    let before12 = before11 + field11;
    let before13 = before12 + field12;
    let before14 = before13 + field13;
    // What follows each field, so that the layout is `(before + field) + after`
    // for every one of them.
    let after14 = Seq::<u8>::empty();
    let after13 = field14 + after14;
    let after12 = field13 + after13;
    let after11 = field12 + after12;
    let after10 = field11 + after11;
    let after9 = field10 + after10;
    let after8 = field9 + after9;
    let after7 = field8 + after8;
    let after6 = field7 + after7;
    let after5 = field6 + after6;
    let after4 = field5 + after5;
    let after3 = field4 + after4;
    let after2 = field3 + after3;
    let after1 = field2 + after2;
    let after0 = field1 + after1;
    assert(w == before14 + field14 + after14) by {
        assert(before14 + field14 + after14 =~= before14 + field14);
    }
    lemma_regroup(before14, field14, after14);
    lemma_regroup(before13, field13, after13);
    lemma_regroup(before12, field12, after12);
    lemma_regroup(before11, field11, after11);
    lemma_regroup(before10, field10, after10);
    lemma_regroup(before9, field9, after9);
    lemma_regroup(before8, field8, after8);
    lemma_regroup(before7, field7, after7);
    lemma_regroup(before6, field6, after6);
    lemma_regroup(before5, field5, after5);
    lemma_regroup(before4, field4, after4);
    lemma_regroup(before3, field3, after3);
    lemma_regroup(before2, field2, after2);
    lemma_regroup(before1, field1, after1);
    assert(w == before0 + field0 + after0) by {
        assert(before0 + field0 =~= field0);
    }
    lemma_u32_le_round_trip(r.length, before0, after0);
    lemma_u32_le_round_trip(r.reserved, before1, after1);
    lemma_u32_le_round_trip(r.record_number, before2, after2);
    lemma_u32_le_round_trip(r.time_generated, before3, after3);
    lemma_u32_le_round_trip(r.time_written, before4, after4);
    lemma_u32_le_round_trip(r.event_id, before5, after5);
    lemma_u16_le_round_trip(r.num_strings, before6, after6);
    lemma_u16_le_round_trip(r.event_category, before7, after7);
    lemma_u16_le_round_trip(r.reserved_flags, before8, after8);
    lemma_u32_le_round_trip(r.closing_record_number, before9, after9);
    lemma_u32_le_round_trip(r.string_offset, before10, after10);
    lemma_u32_le_round_trip(r.user_sid_length, before11, after11);
    lemma_u32_le_round_trip(r.user_sid_offset, before12, after12);
    lemma_u32_le_round_trip(r.data_length, before13, after13);
    lemma_u32_le_round_trip(r.data_offset, before14, after14);
}

/// Moves one field from the end of what stands before to the start of what
/// follows: `(a + b) + c` is `a + (b + c)`.
proof fn lemma_regroup(a: Seq<u8>, b: Seq<u8>, c: Seq<u8>)
    ensures
        a + b + c == a + (b + c),
{
    assert(a + b + c =~= a + (b + c));
}

/// Encodes a record into its frame.
pub fn encode(record: &WrapperEventlogRecord) -> (frame: Frame)
    ensures
        frame.payload@ == wire_layout(*record),
        frame.length == WIRE_RECORD_LEN,
        frame.wf(),
        frame.wire_bytes() == framed(*record),
{
    let payload = match bincode_serialize(record) {
        Ok(bytes) => bytes,
        Err(_) => vstd::pervasive::unreached(),
    };
    proof {
        lemma_wire_layout_len(*record);
    }
    Frame { length: payload.len() as u32, payload }
}

/// Decodes the payload of a frame.
pub fn decode(payload: &[u8]) -> (decoded: Result<WrapperEventlogRecord, DecodeError>)
    ensures
        decoded == decode_spec(payload@),
{
    match bincode_deserialize(payload) {
        Ok(record) => Ok(record),
        Err(_) => Err(DecodeError::Truncated { needed: WIRE_RECORD_LEN, found: payload.len() }),
    }
}

} // verus!
