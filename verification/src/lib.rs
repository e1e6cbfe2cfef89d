//! Forwarding of host event-log records to a central collector.
//!
//! The forwarder side tails an append-only log of variable-length records
//! and ships each record as one length-prefixed frame; the collector side
//! cuts the byte stream back into frames and decodes them, never losing a
//! frame boundary to a payload that is no record.
//!
//! Nothing in this crate reads a log, sleeps or touches a socket. The
//! sessions on both sides are state machines: they are told what happened
//! and say what to do next, and a driver around them does it.
//!
//! - [`record`]: the native record in a read buffer, and the wire record.
//! - [`names`]: the source and host names that a native record carries.
//! - [`codec`]: the payload layout of a wire record, and frames.
//! - [`tailer`]: the session that follows a log source.
//! - [`forwarder`]: the tailer with its records framed for the wire.
//! - [`collector`]: the handler of one connection to the collector.
//! - [`octets`]: integers as bytes, in both byte orders.

pub mod codec;
pub mod collector;
pub mod forwarder;
pub mod names;
pub mod octets;
pub mod record;
pub mod tailer;
