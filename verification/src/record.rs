//! The `$I` record: fixed little-endian fields and the trailing name region.
//!
//! The cursor runs strictly left to right: an 8-byte marker, the 8-byte
//! original file size, the deletion time as two 32-bit little-endian halves
//! (low, then high), the 4-byte stored name length, and then every remaining
//! byte as UTF-16LE name data.  A buffer shorter than the 28 bytes of fixed
//! fields is the one structured failure.

use vstd::prelude::*;
use crate::le::{le_value, pow256, read_le, lemma_le_value_bound};
use crate::utf16::{units_of, utf16_lossy, name_units, decode_units_lossy};
use crate::filetime::{CalendarTime, calendar_matches, spec_calendar_of, calendar_of};

verus! {

/// The only structured decode failure: the buffer holds fewer bytes than the
/// fixed-size fields require.
#[derive(Clone, Copy, Debug, PartialEq, Eq, Structural)]
pub enum DecodeError {
    InsufficientData,
}

/// One decoded deleted-file metadata entry.
#[derive(Debug, Clone)]
pub struct Record {
    /// 8-byte marker/version field, consumed but not validated.
    pub header: u64,
    /// Original size in bytes of the deleted file.
    pub file_size: u64,
    /// Deletion time as 100-nanosecond ticks since 1601-01-01T00:00:00 UTC.
    pub deletion_time: u64,
    /// Stored byte count of the encoded name, null terminator included;
    /// reproduced as stored, not recomputed from the name region.
    pub name_length: u32,
    /// The file's original path, decoded lossily from UTF-16LE.
    pub file_name: String,
}

/// The marker field: bytes 0..8, little-endian.
pub open spec fn spec_header(b: Seq<u8>) -> int {
    le_value(b.subrange(0, 8))
}

/// The file size field: bytes 8..16, little-endian.
pub open spec fn spec_file_size(b: Seq<u8>) -> int {
    le_value(b.subrange(8, 16))
}

/// The deletion time: low 32 bits at 16..20, high 32 bits at 20..24,
/// combined as `(high << 32) | low`.
pub open spec fn spec_deletion_time(b: Seq<u8>) -> int {
    le_value(b.subrange(16, 20)) + 0x1_0000_0000 * le_value(b.subrange(20, 24))
}

/// The stored name length: bytes 24..28, little-endian.
pub open spec fn spec_name_length(b: Seq<u8>) -> int {
    le_value(b.subrange(24, 28))
}

/// The decoded name: every byte after the fixed fields, paired into UTF-16LE
/// code units and decoded with lossy substitution.
pub open spec fn spec_file_name(b: Seq<u8>) -> Seq<char> {
    utf16_lossy(units_of(b.skip(28)))
}

/// The record that a buffer of at least 28 bytes decodes to.
pub open spec fn record_matches(r: Record, b: Seq<u8>) -> bool {
    &&& r.header == spec_header(b)
    &&& r.file_size == spec_file_size(b)
    &&& r.deletion_time == spec_deletion_time(b)
    &&& r.name_length == spec_name_length(b)
    &&& r.file_name@ == spec_file_name(b)
}

/// Combining the two little-endian halves low-first is the same as reading
/// all eight timestamp bytes as one little-endian integer.
pub proof fn lemma_deletion_time_is_le64(b: Seq<u8>)
    requires
        b.len() >= 24,
    ensures
        spec_deletion_time(b) == le_value(b.subrange(16, 24)),
{
    let low = b.subrange(16, 20);
    let high = b.subrange(20, 24);
    assert(b.subrange(16, 24) =~= low + high);
    crate::le::lemma_le_value_concat(low, high);
    assert(pow256(0nat) == 1);
    assert(pow256(1nat) == 256);
    assert(pow256(2nat) == 65536);
    assert(pow256(3nat) == 16777216);
    assert(pow256(4nat) == 4294967296);
}

/// A name region with a final unpaired byte yields the same decoded name as
/// the same buffer without that byte.
pub proof fn lemma_name_truncation(b: Seq<u8>)
    requires
        b.len() > 28,
        (b.len() - 28) % 2 == 1,
    ensures
        spec_file_name(b) == spec_file_name(b.drop_last()),
{
    assert(b.skip(28).len() % 2 == 1);
    crate::utf16::lemma_odd_byte_ignored(b.skip(28));
    assert(b.skip(28).drop_last() =~= b.drop_last().skip(28));
}

impl Record {
    /// Decodes one record from a raw buffer.  Succeeds exactly when the
    /// buffer holds the 28 bytes of fixed fields; malformed name bytes never
    /// fail, they only degrade into replacement characters.
    pub fn from_bytes(b: &[u8]) -> (r: Result<Record, DecodeError>)
        ensures
            b@.len() >= 28 ==> (r matches Ok(rec) && record_matches(rec, b@)),
            b@.len() < 28 ==> r == Err::<Record, DecodeError>(DecodeError::InsufficientData),
    {
        let len = b.len();
        if len < 28 {
            return Err(DecodeError::InsufficientData);
        }
        let header = read_le(b, 0, 8);
        let file_size = read_le(b, 8, 8);
        let low = read_le(b, 16, 4);
        let high = read_le(b, 20, 4);
        proof {
            lemma_le_value_bound(b@.subrange(16, 20));
            lemma_le_value_bound(b@.subrange(20, 24));
            lemma_le_value_bound(b@.subrange(24, 28));
            assert(pow256(0nat) == 1);
            assert(pow256(1nat) == 256);
            assert(pow256(2nat) == 65536);
            assert(pow256(3nat) == 16777216);
            assert(pow256(4nat) == 4294967296);
        }
        let deletion_time = low + 0x1_0000_0000 * high;
        let name_length = read_le(b, 24, 4) as u32;
        let units = name_units(b, 28);
        let file_name = decode_units_lossy(&units);
        Ok(Record { header, file_size, deletion_time, name_length, file_name })
    }

    /// The deletion time broken down into UTC calendar fields; derived from
    /// `deletion_time` on demand, never stored.
    pub fn calendar_time(&self) -> (c: CalendarTime)
        ensures
            calendar_matches(c, self.deletion_time),
            c == spec_calendar_of(self.deletion_time),
    {
        calendar_of(self.deletion_time)
    }
}

} // verus!
