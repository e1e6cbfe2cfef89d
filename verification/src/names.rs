//! The two names that a native record carries: the source that logged it
//! and the host it was logged on, each a string of 16-bit units that ends
//! with a zero unit.
//!
//! A name is looked for inside the record that holds it and nowhere else:
//! the scan for the terminator ends where the record ends.

use vstd::prelude::*;
use crate::octets::{read_u16_le, u16_le_at};
use crate::record::{lemma_record_fits, parse_record, record_at, RecordError};

verus! {

/// Why a record gives no names.
#[derive(Clone, Copy, Debug, PartialEq, Eq, Structural)]
pub enum NameError {
    /// The bytes at the offset are no record.
    NoRecord(RecordError),
    /// The source name has no terminator inside the record.
    SourceNameUnterminated,
    /// The host name has no terminator inside the record.
    HostNameUnterminated,
}

/// The names of one record, as the 16-bit units that spell them, without
/// their terminators.
#[derive(Clone, Debug, PartialEq, Eq)]
pub struct RecordNames {
    pub source_name: Vec<u16>,
    pub host_name: Vec<u16>,
}

/// The 16-bit unit number `index` of the string that starts at `start`.
pub open spec fn unit_at(bytes: Seq<u8>, start: int, index: int) -> u16 {
    u16_le_at(bytes, start + 2 * index)
}

/// The string that starts at `at` and ends before the first zero unit, if
/// a zero unit is met before `bytes` ends.
pub open spec fn wide_string_at(bytes: Seq<u8>, at: int) -> Option<Seq<u16>>
    decreases bytes.len() - at,
{
    if at < 0 || at + 2 > bytes.len() {
        None
    } else if u16_le_at(bytes, at) == 0 {
        Some(Seq::empty())
    } else {
        match wide_string_at(bytes, at + 2) {
            Some(rest) => Some(seq![u16_le_at(bytes, at)] + rest),
            None => None,
        }
    }
}

/// What `wide_string_at` gives is the units from `at` up to the first zero
/// unit: none of them is zero, the unit after them is, and that unit lies
/// inside `bytes`. It gives nothing exactly when no unit from `at` on is
/// zero.
pub proof fn lemma_wide_string_ends_at_first_terminator(bytes: Seq<u8>, at: int)
    requires
        0 <= at,
    ensures
        wide_string_at(bytes, at) matches Some(units) ==> {
            &&& at + 2 * units.len() + 2 <= bytes.len()
            &&& unit_at(bytes, at, units.len() as int) == 0
            &&& forall|i: int|
                0 <= i < units.len() ==> #[trigger] units[i] != 0 && units[i] == unit_at(
                    bytes,
                    at,
                    i,
                )
        },
        wide_string_at(bytes, at) is None ==> forall|i: int|
            0 <= i && at + 2 * i + 2 <= bytes.len() ==> #[trigger] unit_at(bytes, at, i) != 0,
    decreases bytes.len() - at,
{
    if at + 2 <= bytes.len() && u16_le_at(bytes, at) != 0 {
        lemma_wide_string_ends_at_first_terminator(bytes, at + 2);
        match wide_string_at(bytes, at + 2) {
            Some(rest) => {
                let units = seq![u16_le_at(bytes, at)] + rest;
                assert forall|i: int| 0 <= i < units.len() implies #[trigger] units[i] != 0
                    && units[i] == unit_at(bytes, at, i) by {
                    if i > 0 {
                        assert(units[i] == rest[i - 1]);
                        assert(unit_at(bytes, at, i) == unit_at(bytes, at + 2, i - 1));
                    }
                }
                assert(unit_at(bytes, at, units.len() as int) == unit_at(
                    bytes,
                    at + 2,
                    rest.len() as int,
                ));
            },
            None => {
                assert forall|i: int|
                    0 <= i && at + 2 * i + 2 <= bytes.len() implies #[trigger] unit_at(
                    bytes,
                    at,
                    i,
                ) != 0 by {
                    if i > 0 {
                        assert(unit_at(bytes, at, i) == unit_at(bytes, at + 2, i - 1));
                    }
                }
            },
        }
    }
}

/// The names of the record that starts at `at`: its source name at the
/// record's string offset, its host name behind the terminator of the
/// source name, both inside the record.
pub open spec fn names_at(buf: Seq<u8>, at: int) -> Result<(Seq<u16>, Seq<u16>), NameError> {
    match record_at(buf, at) {
        Err(e) => Err(NameError::NoRecord(e)),
        Ok(record) => {
            let extent = buf.subrange(at, at + record.length);
            match wide_string_at(extent, record.string_offset as int) {
                None => Err(NameError::SourceNameUnterminated),
                Some(source_name) => match wide_string_at(
                    extent,
                    record.string_offset + 2 * source_name.len() + 2,
                ) {
                    None => Err(NameError::HostNameUnterminated),
                    Some(host_name) => Ok((source_name, host_name)),
                },
            }
        },
    }
}

/// Reads the string that starts at `start` of `bytes`: a scan for the zero
/// unit that never leaves `bytes`.
pub fn read_wide_string(bytes: &[u8], start: usize) -> (units: Option<Vec<u16>>)
    ensures
        wide_string_at(bytes@, start as int) == match units {
            Some(found) => Some(found@),
            None => None,
        },
{
    let mut units: Vec<u16> = Vec::new();
    let mut at: usize = start;
    loop
        invariant
            start <= at,
            at == start + 2 * units@.len(),
            wide_string_at(bytes@, start as int) == match wide_string_at(bytes@, at as int) {
                Some(rest) => Some(units@ + rest),
                None => None,
            },
        decreases bytes@.len() - at,
    {
        if at > bytes.len() || bytes.len() - at < 2 {
            return None;
        }
        let unit: u16 = read_u16_le(bytes, at);
        if unit == 0 {
            proof {
                assert(units@ + Seq::<u16>::empty() =~= units@);
            }
            return Some(units);
        }
        proof {
            match wide_string_at(bytes@, at + 2) {
                Some(rest) => {
                    assert(units@.push(unit) + rest =~= units@ + (seq![unit] + rest));
                },
                None => {},
            }
        }
        units.push(unit);
        at = at + 2;
    }
}

/// Reads the source name and the host name of the record that starts at
/// `offset` of a read buffer.
pub fn record_names(buf: &[u8], offset: usize) -> (names: Result<RecordNames, NameError>)
    ensures
        names_at(buf@, offset as int) == match names {
            Ok(found) => Ok((found.source_name@, found.host_name@)),
            Err(e) => Err(e),
        },
{
    let record = match parse_record(buf, offset) {
        Ok(record) => record,
        Err(e) => {
            return Err(NameError::NoRecord(e));
        },
    };
    proof {
        lemma_record_fits(buf@, offset as int);
        assert(buf@.len() == buf.len());
    }
    let extent = vstd::slice::slice_subrange(buf, offset, offset + record.length as usize);
    let source_name = match read_wide_string(extent, record.string_offset as usize) {
        Some(units) => units,
        None => {
            return Err(NameError::SourceNameUnterminated);
        },
    };
    proof {
        lemma_wide_string_ends_at_first_terminator(extent@, record.string_offset as int);
    }
    let host_start: usize = record.string_offset as usize + 2 * source_name.len() + 2;
    match read_wide_string(extent, host_start) {
        Some(host_name) => Ok(RecordNames { source_name, host_name }),
        None => Err(NameError::HostNameUnterminated),
    }
}

} // verus!
