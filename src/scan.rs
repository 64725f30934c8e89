//! Decisions of the scan loop: what to do with each catalog line, and how the
//! caller's search text becomes the byte pattern.

use vstd::prelude::*;
use vstd::string::StringSliceAdditionalSpecFns;
use crate::grep::{read_size, region_read_size, GrepError};
use crate::hexnum::{all_hex_digits, digit_value};
use crate::maps::{is_read_write, line_error, record_of_line, MapsError, MapsRecord};

verus! {

#[verifier::external_type_specification]
#[verifier::external_body]
pub struct ExFromHexError(hex::FromHexError);

/// The bytes that a string of hexadecimal digit pairs stands for, high digit
/// first.
pub open spec fn hex_pairs(s: Seq<char>) -> Seq<u8> {
    Seq::new(s.len() / 2, |i: int| (digit_value(s[2 * i]) * 16 + digit_value(s[2 * i + 1])) as u8)
}

/// Relies on `hex::decode`: an even number of hexadecimal digits (either
/// case) decodes to one byte per pair; anything else is an error.
#[verifier::external_body]
fn hex_decode(s: &str) -> (r: Result<Vec<u8>, hex::FromHexError>)
    ensures
        r is Ok <==> (s@.len() % 2 == 0 && all_hex_digits(s@)),
        r matches Ok(v) ==> v@ == hex_pairs(s@),
{
    hex::decode(s)
}

/// Why the caller's search text gives no pattern.
#[derive(Debug, Clone, Copy, PartialEq, Eq)]
pub enum PatternError {
    /// The text was to be read as hexadecimal and is not an even number of
    /// hexadecimal digits.
    InvalidHex,
    /// The pattern has no bytes.
    Empty,
}

/// The byte pattern to search for: the text's UTF-8 bytes, or, with
/// `is_hex`, the bytes that its hexadecimal digit pairs stand for.
pub fn resolve_pattern(text: &str, is_hex: bool) -> (r: Result<Vec<u8>, PatternError>)
    ensures
        !is_hex ==> match r {
            Ok(v) => v@ == text.spec_bytes() && v@.len() > 0,
            Err(e) => e == PatternError::Empty && text.spec_bytes().len() == 0,
        },
        is_hex ==> match r {
            Ok(v) => text@.len() % 2 == 0 && all_hex_digits(text@) && v@ == hex_pairs(text@)
                && v@.len() > 0,
            Err(PatternError::InvalidHex) => !(text@.len() % 2 == 0 && all_hex_digits(text@)),
            Err(PatternError::Empty) => text@.len() % 2 == 0 && all_hex_digits(text@)
                && hex_pairs(text@).len() == 0,
        },
{
    let bytes = if is_hex {
        match hex_decode(text) {
            Ok(v) => v,
            Err(_) => {
                return Err(PatternError::InvalidHex);
            },
        }
    } else {
        text.as_bytes_vec()
    };
    if bytes.len() == 0 {
        return Err(PatternError::Empty);
    }
    Ok(bytes)
}

/// Keeps the value of a result and drops its error.
pub fn ok_but_complain<T, E>(result: Result<T, E>) -> (r: Option<T>)
    ensures
        match result {
            Ok(v) => r == Some(v),
            Err(_) => r is None,
        },
{
    match result {
        Ok(val) => Some(val),
        Err(_) => None,
    }
}

/// Whether a parsed region is a scan candidate.
pub open spec fn admitted(r: MapsRecord) -> bool {
    r.inode == 0 && is_read_write(r.perms@)
}

/// What the scan does with one catalog line.
#[derive(Debug)]
pub enum LineStep {
    /// The line is not a record; the scan goes on with the next one.
    Malformed(MapsError),
    /// A record that admission leaves out.
    NotAdmitted(MapsRecord),
    /// An admitted record whose region is not read.
    Rejected(MapsRecord, GrepError),
    /// An admitted region to read: `size` bytes from `record.address_lower`.
    Read { record: MapsRecord, size: usize },
}

/// Parses one catalog line and decides what the scan does with it: a line
/// that does not parse is reported, a region that admission leaves out is
/// skipped, a malformed or oversized region is refused before any read, and
/// any other region is read.
pub fn plan_line(line: &str, max_region_size: usize) -> (r: LineStep)
    ensures
        match r {
            LineStep::Malformed(e) => line_error(line@) == Some(e@),
            LineStep::NotAdmitted(rec) => line_error(line@) is None && record_of_line(rec, line@)
                && !admitted(rec),
            LineStep::Rejected(rec, e) => line_error(line@) is None && record_of_line(rec, line@)
                && admitted(rec) && if rec.address_upper <= rec.address_lower {
                    e is BadAddressSpaceRecord
                } else {
                    read_size(rec) > max_region_size
                        && (e matches GrepError::MaxRegionSizeExceeded(s) && s == read_size(rec))
                },
            LineStep::Read { record, size } => line_error(line@) is None && record_of_line(record, line@)
                && admitted(record) && record.address_upper > record.address_lower
                && size == read_size(record) && size <= max_region_size,
        },
{
    let record = match MapsRecord::try_from_line(line) {
        Ok(rec) => rec,
        Err(e) => {
            return LineStep::Malformed(e);
        },
    };
    if !record.is_admitted() {
        return LineStep::NotAdmitted(record);
    }
    match region_read_size(&record, max_region_size) {
        Ok(size) => LineStep::Read { record, size },
        Err(e) => LineStep::Rejected(record, e),
    }
}

} // verus!
