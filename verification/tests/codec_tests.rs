use siem_pipeline::codec::{decode, encode, DecodeError, Frame, WIRE_RECORD_LEN};
use serde::ser::SerializeStruct;
use siem_pipeline::record::WrapperEventlogRecord;

fn sample() -> WrapperEventlogRecord {
    WrapperEventlogRecord {
        length: 0x0102_0304,
        reserved: 0x654c_664c,
        record_number: 42,
        time_generated: 1_700_000_000,
        time_written: 1_700_000_001,
        event_id: 7,
        num_strings: 0x0a0b,
        event_category: 3,
        reserved_flags: 0xffff,
        closing_record_number: 0,
        string_offset: 96,
        user_sid_length: 12,
        user_sid_offset: 84,
        data_length: 0xdead_beef,
        data_offset: u32::MAX,
    }
}

#[test]
fn encode_gives_the_fixed_layout() {
    let frame = encode(&sample());
    assert_eq!(frame.length, 54);
    assert_eq!(frame.payload.len(), WIRE_RECORD_LEN);
    let expected: Vec<u8> = vec![
        0x04, 0x03, 0x02, 0x01, // length
        0x4c, 0x66, 0x4c, 0x65, // reserved
        42, 0, 0, 0, // record_number
        0x00, 0xf1, 0x53, 0x65, // time_generated
        0x01, 0xf1, 0x53, 0x65, // time_written
        7, 0, 0, 0, // event_id
        0x0b, 0x0a, // num_strings
        3, 0, // event_category
        0xff, 0xff, // reserved_flags
        0, 0, 0, 0, // closing_record_number
        96, 0, 0, 0, // string_offset
        12, 0, 0, 0, // user_sid_length
        84, 0, 0, 0, // user_sid_offset
        0xef, 0xbe, 0xad, 0xde, // data_length
        0xff, 0xff, 0xff, 0xff, // data_offset
    ];
    assert_eq!(frame.payload, expected);
}

#[test]
fn decode_reads_the_fixed_layout() {
    let mut payload: Vec<u8> = Vec::new();
    for i in 0..54u8 {
        payload.push(i + 1);
    }
    let record = decode(&payload).unwrap();
    assert_eq!(record.length, 0x0403_0201);
    assert_eq!(record.reserved, 0x0807_0605);
    assert_eq!(record.record_number, 0x0c0b_0a09);
    assert_eq!(record.time_generated, 0x100f_0e0d);
    assert_eq!(record.time_written, 0x1413_1211);
    assert_eq!(record.event_id, 0x1817_1615);
    assert_eq!(record.num_strings, 0x1a19);
    assert_eq!(record.event_category, 0x1c1b);
    assert_eq!(record.reserved_flags, 0x1e1d);
    assert_eq!(record.closing_record_number, 0x2221_201f);
    assert_eq!(record.string_offset, 0x2625_2423);
    assert_eq!(record.user_sid_length, 0x2a29_2827);
    assert_eq!(record.user_sid_offset, 0x2e2d_2c2b);
    assert_eq!(record.data_length, 0x3231_302f);
    assert_eq!(record.data_offset, 0x3635_3433);
}

#[test]
fn decode_inverts_encode() {
    let record = sample();
    assert_eq!(decode(&encode(&record).payload), Ok(record));
}

#[test]
fn decode_rejects_a_short_payload() {
    let payload = encode(&sample()).payload;
    assert_eq!(
        decode(&payload[..53]),
        Err(DecodeError::Truncated { needed: 54, found: 53 })
    );
    assert_eq!(decode(&[]), Err(DecodeError::Truncated { needed: 54, found: 0 }));
}

#[test]
fn decode_ignores_bytes_after_the_layout() {
    let record = sample();
    let mut payload = encode(&record).payload;
    payload.extend_from_slice(&[9, 9, 9]);
    assert_eq!(decode(&payload), Ok(record));
}

#[test]
fn frame_bytes_start_with_big_endian_length() {
    let frame = encode(&sample());
    let bytes = frame.to_bytes();
    assert_eq!(bytes.len(), 58);
    assert_eq!(&bytes[..4], &[0, 0, 0, 54]);
    assert_eq!(&bytes[4..], &frame.payload[..]);
    let odd = Frame::new(vec![0xaa; 0x0102]).unwrap();
    assert_eq!(odd.length, 0x0102);
    assert_eq!(&odd.to_bytes()[..4], &[0, 0, 1, 2]);
}

#[test]
fn record_number_and_event_id_survive_the_wire() {
    let record = WrapperEventlogRecord {
        length: 0,
        reserved: 0,
        record_number: 42,
        time_generated: 0,
        time_written: 0,
        event_id: 7,
        num_strings: 0,
        event_category: 0,
        reserved_flags: 0,
        closing_record_number: 0,
        string_offset: 0,
        user_sid_length: 0,
        user_sid_offset: 0,
        data_length: 0,
        data_offset: 0,
    };
    let decoded = decode(&encode(&record).payload).unwrap();
    assert_eq!(decoded.record_number, 42);
    assert_eq!(decoded.event_id, 7);
    assert_eq!(decoded, record);
}

#[test]
fn frame_new_counts_its_payload() {
    let frame = Frame::new(vec![1, 2, 3]).unwrap();
    assert_eq!(frame.length, 3);
    assert_eq!(frame.payload, vec![1, 2, 3]);
    assert_eq!(frame.to_bytes(), vec![0, 0, 0, 3, 1, 2, 3]);
    let empty = Frame::new(Vec::new()).unwrap();
    assert_eq!(empty.to_bytes(), vec![0, 0, 0, 0]);
}

/// The record written field by field as a struct, as a derived serializer
/// writes it.
struct AsStruct(WrapperEventlogRecord);

impl serde::Serialize for AsStruct {
    fn serialize<S: serde::Serializer>(&self, serializer: S) -> Result<S::Ok, S::Error> {
        let r = &self.0;
        let mut s = serializer.serialize_struct("WrapperEventlogRecord", 15)?;
        s.serialize_field("length", &r.length)?;
        s.serialize_field("reserved", &r.reserved)?;
        s.serialize_field("record_number", &r.record_number)?;
        s.serialize_field("time_generated", &r.time_generated)?;
        s.serialize_field("time_written", &r.time_written)?;
        s.serialize_field("event_id", &r.event_id)?;
        s.serialize_field("num_strings", &r.num_strings)?;
        s.serialize_field("event_category", &r.event_category)?;
        s.serialize_field("reserved_flags", &r.reserved_flags)?;
        s.serialize_field("closing_record_number", &r.closing_record_number)?;
        s.serialize_field("string_offset", &r.string_offset)?;
        s.serialize_field("user_sid_length", &r.user_sid_length)?;
        s.serialize_field("user_sid_offset", &r.user_sid_offset)?;
        s.serialize_field("data_length", &r.data_length)?;
        s.serialize_field("data_offset", &r.data_offset)?;
        s.end()
    }
}

#[test]
fn payload_is_what_a_struct_serializer_writes() {
    let record = sample();
    let as_struct = bincode::serialize(&AsStruct(record)).unwrap();
    assert_eq!(encode(&record).payload, as_struct);
}

#[test]
fn decode_agrees_with_reading_the_fields_as_a_tuple() {
    let mut payload: Vec<u8> = Vec::new();
    for i in 0..60u32 {
        payload.push((i * 37 + 11) as u8);
    }
    let fields: (u32, u32, u32, u32, u32, u32, u16, u16, u16, u32, u32, u32, u32, u32, u32) =
        bincode::deserialize(&payload).unwrap();
    let record = decode(&payload).unwrap();
    assert_eq!(
        record,
        WrapperEventlogRecord {
            length: fields.0,
            reserved: fields.1,
            record_number: fields.2,
            time_generated: fields.3,
            time_written: fields.4,
            event_id: fields.5,
            num_strings: fields.6,
            event_category: fields.7,
            reserved_flags: fields.8,
            closing_record_number: fields.9,
            string_offset: fields.10,
            user_sid_length: fields.11,
            user_sid_offset: fields.12,
            data_length: fields.13,
            data_offset: fields.14,
        }
    );
    assert_eq!(encode(&record).payload, &payload[..54]);
}
