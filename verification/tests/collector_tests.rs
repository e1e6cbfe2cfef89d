use siem_pipeline::codec::{encode, DecodeError};
use siem_pipeline::collector::{
    drain_stream, CloseReason, ConnectionHandler, HandlerAction, HandlerEvent,
};
use siem_pipeline::record::WrapperEventlogRecord;

fn record(record_number: u32, event_id: u32) -> WrapperEventlogRecord {
    WrapperEventlogRecord {
        length: 120,
        reserved: 0x654c_664c,
        record_number,
        time_generated: 1_700_000_000,
        time_written: 1_700_000_001,
        event_id,
        num_strings: 1,
        event_category: 2,
        reserved_flags: 3,
        closing_record_number: 4,
        string_offset: 5,
        user_sid_length: 6,
        user_sid_offset: 7,
        data_length: 8,
        data_offset: 9,
    }
}

fn frame_bytes(r: &WrapperEventlogRecord) -> Vec<u8> {
    encode(r).to_bytes()
}

#[test]
fn handler_starts_by_asking_for_a_prefix() {
    let (handler, action) = ConnectionHandler::new();
    assert_eq!(handler, ConnectionHandler::AwaitingPrefix);
    assert_eq!(action, HandlerAction::Read(4));
}

#[test]
fn handler_reads_the_length_big_endian_and_asks_for_that_many_bytes() {
    let (handler, _) = ConnectionHandler::new();
    let (handler, outcome, action) = handler.step(HandlerEvent::Bytes(vec![0, 0, 1, 2]));
    assert_eq!(handler, ConnectionHandler::AwaitingPayload(258));
    assert_eq!(outcome, None);
    assert_eq!(action, HandlerAction::Read(258));

    let (handler, _) = ConnectionHandler::new();
    let (handler, _, action) = handler.step(HandlerEvent::Bytes(vec![0x12, 0x34, 0x56, 0x78]));
    assert_eq!(handler, ConnectionHandler::AwaitingPayload(0x1234_5678));
    assert_eq!(action, HandlerAction::Read(0x1234_5678));
}

#[test]
fn handler_hands_on_a_decoded_record_and_awaits_the_next_prefix() {
    let r = record(42, 7);
    let frame = encode(&r);
    let (handler, _) = ConnectionHandler::new();
    let (handler, _, action) = handler.step(HandlerEvent::Bytes(vec![0, 0, 0, 54]));
    assert_eq!(action, HandlerAction::Read(54));
    let (handler, outcome, action) = handler.step(HandlerEvent::Bytes(frame.payload));
    assert_eq!(outcome, Some(Ok(r)));
    assert_eq!(handler, ConnectionHandler::AwaitingPrefix);
    assert_eq!(action, HandlerAction::Read(4));
}

#[test]
fn handler_survives_a_payload_that_is_no_record() {
    let (handler, _) = ConnectionHandler::new();
    let (handler, _, action) = handler.step(HandlerEvent::Bytes(vec![0, 0, 0, 10]));
    assert_eq!(action, HandlerAction::Read(10));
    let (handler, outcome, action) = handler.step(HandlerEvent::Bytes(vec![0xff; 10]));
    assert_eq!(outcome, Some(Err(DecodeError::Truncated { needed: 54, found: 10 })));
    assert_eq!(handler, ConnectionHandler::AwaitingPrefix);
    assert_eq!(action, HandlerAction::Read(4));
}

#[test]
fn handler_closes_cleanly_when_the_stream_ends_at_a_prefix() {
    let (handler, _) = ConnectionHandler::new();
    let (handler, outcome, action) = handler.step(HandlerEvent::ShortRead);
    assert_eq!(handler, ConnectionHandler::Closed(CloseReason::EndOfStream));
    assert_eq!(outcome, None);
    assert_eq!(action, HandlerAction::Close(CloseReason::EndOfStream));
}

#[test]
fn handler_closes_on_a_truncated_payload() {
    let (handler, _) = ConnectionHandler::new();
    let (handler, _, _) = handler.step(HandlerEvent::Bytes(vec![0, 0, 0, 54]));
    let (handler, outcome, action) = handler.step(HandlerEvent::ShortRead);
    assert_eq!(handler, ConnectionHandler::Closed(CloseReason::TruncatedFrame));
    assert_eq!(outcome, None);
    assert_eq!(action, HandlerAction::Close(CloseReason::TruncatedFrame));
}

#[test]
fn handler_counts_a_read_of_another_size_as_short() {
    let (handler, _) = ConnectionHandler::new();
    let (closed, _, action) = handler.step(HandlerEvent::Bytes(vec![0, 0, 54]));
    assert_eq!(closed, ConnectionHandler::Closed(CloseReason::EndOfStream));
    assert_eq!(action, HandlerAction::Close(CloseReason::EndOfStream));

    let (handler, _, _) = handler.step(HandlerEvent::Bytes(vec![0, 0, 0, 54]));
    let (closed, outcome, action) = handler.step(HandlerEvent::Bytes(vec![0; 55]));
    assert_eq!(closed, ConnectionHandler::Closed(CloseReason::TruncatedFrame));
    assert_eq!(outcome, None);
    assert_eq!(action, HandlerAction::Close(CloseReason::TruncatedFrame));
}

#[test]
fn a_closed_handler_stays_closed() {
    let closed = ConnectionHandler::Closed(CloseReason::TruncatedFrame);
    let (after, outcome, action) = closed.step(HandlerEvent::Bytes(vec![0, 0, 0, 54]));
    assert_eq!(after, closed);
    assert_eq!(outcome, None);
    assert_eq!(action, HandlerAction::Halt);
    let (after, _, action) = closed.step(HandlerEvent::ShortRead);
    assert_eq!(after, closed);
    assert_eq!(action, HandlerAction::Halt);
}

#[test]
fn stream_of_frames_gives_the_records_in_order() {
    let a = record(1, 10);
    let b = record(2, 20);
    let c = record(3, 30);
    let mut stream = frame_bytes(&a);
    stream.extend_from_slice(&frame_bytes(&b));
    stream.extend_from_slice(&frame_bytes(&c));
    let report = drain_stream(&stream);
    assert_eq!(report.outcomes, vec![Ok(a), Ok(b), Ok(c)]);
    assert_eq!(report.consumed, 3 * 58);
    assert_eq!(report.close, CloseReason::EndOfStream);
}

#[test]
fn empty_stream_ends_cleanly() {
    let report = drain_stream(&[]);
    assert_eq!(report.outcomes, vec![]);
    assert_eq!(report.consumed, 0);
    assert_eq!(report.close, CloseReason::EndOfStream);
}

#[test]
fn flipped_byte_in_the_second_payload_keeps_the_boundaries() {
    let a = record(1, 10);
    let b = record(2, 20);
    let c = record(3, 30);
    let mut stream = frame_bytes(&a);
    stream.extend_from_slice(&frame_bytes(&b));
    stream.extend_from_slice(&frame_bytes(&c));
    let clean = drain_stream(&stream);

    // Flip one byte inside the second payload: the byte that starts its
    // record number, at 58 + 4 + 8.
    stream[58 + 4 + 8] ^= 0xff;
    let report = drain_stream(&stream);
    assert_eq!(report.outcomes.len(), 3);
    assert_eq!(report.outcomes[0], Ok(a));
    assert_eq!(report.outcomes[2], Ok(c));
    assert_eq!(report.consumed, clean.consumed);
    assert_eq!(report.close, clean.close);
    // Every 54 bytes spell some record, so the flipped byte shows as a
    // changed field of the second record.
    let mut changed = b;
    changed.record_number = 2 ^ 0xff;
    assert_eq!(report.outcomes[1], Ok(changed));
}

#[test]
fn undecodable_second_frame_is_skipped_and_the_third_is_read() {
    let a = record(1, 10);
    let c = record(3, 30);
    let mut stream = frame_bytes(&a);
    // A frame whose payload is no record: its length is right, its content
    // ends before the layout does.
    stream.extend_from_slice(&[0, 0, 0, 20]);
    stream.extend_from_slice(&[0xab; 20]);
    stream.extend_from_slice(&frame_bytes(&c));
    let report = drain_stream(&stream);
    assert_eq!(
        report.outcomes,
        vec![Ok(a), Err(DecodeError::Truncated { needed: 54, found: 20 }), Ok(c)]
    );
    assert_eq!(report.consumed, 58 + 24 + 58);
    assert_eq!(report.close, CloseReason::EndOfStream);
}

#[test]
fn frame_with_an_empty_payload_is_one_frame() {
    let a = record(1, 10);
    let mut stream: Vec<u8> = vec![0, 0, 0, 0];
    stream.extend_from_slice(&frame_bytes(&a));
    let report = drain_stream(&stream);
    assert_eq!(
        report.outcomes,
        vec![Err(DecodeError::Truncated { needed: 54, found: 0 }), Ok(a)]
    );
    assert_eq!(report.consumed, 4 + 58);
}

#[test]
fn frame_with_a_long_payload_is_taken_whole() {
    let a = record(1, 10);
    let b = record(2, 20);
    let mut stream: Vec<u8> = vec![0, 0, 0, 60];
    stream.extend_from_slice(&encode(&a).payload);
    stream.extend_from_slice(&[1, 2, 3, 4, 5, 6]);
    stream.extend_from_slice(&frame_bytes(&b));
    let report = drain_stream(&stream);
    assert_eq!(report.outcomes, vec![Ok(a), Ok(b)]);
    assert_eq!(report.consumed, 64 + 58);
}

#[test]
fn stream_that_ends_inside_a_prefix_ends_cleanly() {
    let a = record(1, 10);
    let mut stream = frame_bytes(&a);
    stream.extend_from_slice(&[0, 0]);
    let report = drain_stream(&stream);
    assert_eq!(report.outcomes, vec![Ok(a)]);
    assert_eq!(report.consumed, 58);
    assert_eq!(report.close, CloseReason::EndOfStream);
}

#[test]
fn stream_that_ends_inside_a_payload_is_truncated() {
    let a = record(1, 10);
    let b = record(2, 20);
    let mut stream = frame_bytes(&a);
    stream.extend_from_slice(&frame_bytes(&b)[..30]);
    let report = drain_stream(&stream);
    assert_eq!(report.outcomes, vec![Ok(a)]);
    assert_eq!(report.consumed, 58);
    assert_eq!(report.close, CloseReason::TruncatedFrame);

    let only_prefix = drain_stream(&[0, 0, 0, 54]);
    assert_eq!(only_prefix.outcomes, vec![]);
    assert_eq!(only_prefix.consumed, 0);
    assert_eq!(only_prefix.close, CloseReason::TruncatedFrame);
}

#[test]
fn connections_do_not_share_state() {
    let a = record(1, 10);
    let (first, _) = ConnectionHandler::new();
    let (second, _) = ConnectionHandler::new();
    // The first connection gets a payload that is no record, then ends
    // inside a frame.
    let (first, _, _) = first.step(HandlerEvent::Bytes(vec![0, 0, 0, 3]));
    let (first, outcome, _) = first.step(HandlerEvent::Bytes(vec![1, 2, 3]));
    assert_eq!(outcome, Some(Err(DecodeError::Truncated { needed: 54, found: 3 })));
    let (first, _, _) = first.step(HandlerEvent::Bytes(vec![0, 0, 0, 54]));
    let (first, _, _) = first.step(HandlerEvent::ShortRead);
    assert_eq!(first, ConnectionHandler::Closed(CloseReason::TruncatedFrame));
    // The second connection reads its frame as if the first were not there.
    let (second, _, _) = second.step(HandlerEvent::Bytes(vec![0, 0, 0, 54]));
    let (second, outcome, action) = second.step(HandlerEvent::Bytes(encode(&a).payload));
    assert_eq!(outcome, Some(Ok(a)));
    assert_eq!(second, ConnectionHandler::AwaitingPrefix);
    assert_eq!(action, HandlerAction::Read(4));
}
