//! Per-region decisions: which bytes to read, what a read must return, and
//! what to report or overwrite once the region's bytes are at hand.

use vstd::prelude::*;
use crate::maps::MapsRecord;
use crate::search::{find_first, is_first_match, match_offsets, match_positions, matches_at};

verus! {

#[verifier::external_type_specification]
#[verifier::external_body]
pub struct ExIoError(std::io::Error);

/// Why one region could not be scanned.
#[derive(Debug)]
pub enum GrepError {
    /// Zero size, or lower bound above the upper bound.
    BadAddressSpaceRecord,
    /// The region is larger than the configured maximum; holds its size.
    MaxRegionSizeExceeded(u64),
    /// Opening, reading or writing the memory image failed.
    IOError(std::io::Error),
    /// The read returned fewer bytes than the region's size.
    MemoryReadBytesMismatch { size: usize, bytes_read: usize },
}

/// Number of bytes read from a region: its nominal size less its last byte.
pub open spec fn read_size(r: MapsRecord) -> int {
    r.address_upper - r.address_lower - 1
}

/// A match: its offset in the region's read window and its absolute address.
#[derive(Debug, Clone, Copy, PartialEq, Eq)]
pub struct MatchResult {
    pub offset: usize,
    pub address: u64,
}

/// One overwrite of the memory image: `bytes` at absolute `address`.
#[derive(Debug, Clone)]
pub struct EraseWrite {
    pub address: u64,
    pub bytes: Vec<u8>,
}

/// What to do with a region whose bytes were read: the match to report, and
/// the writes that erase mode makes.
#[derive(Debug, Clone)]
pub struct RegionPlan {
    pub first: Option<MatchResult>,
    pub writes: Vec<EraseWrite>,
}

/// Number of bytes to read from a region, or why it is not read: a record
/// whose upper bound is not above its lower bound is malformed, and a region
/// whose read size exceeds `max_region_size` is refused before any read.
pub fn region_read_size(record: &MapsRecord, max_region_size: usize) -> (r: Result<usize, GrepError>)
    ensures
        record.address_upper <= record.address_lower ==> r matches Err(GrepError::BadAddressSpaceRecord),
        record.address_upper > record.address_lower && read_size(*record) > max_region_size ==>
            (r matches Err(GrepError::MaxRegionSizeExceeded(s)) && s == read_size(*record)),
        record.address_upper > record.address_lower && read_size(*record) <= max_region_size ==>
            (r matches Ok(s) && s == read_size(*record)),
{
    if record.address_upper <= record.address_lower {
        return Err(GrepError::BadAddressSpaceRecord);
    }
    let size: u64 = record.address_upper - record.address_lower - 1;
    if size > max_region_size as u64 {
        return Err(GrepError::MaxRegionSizeExceeded(size));
    }
    Ok(size as usize)
}

/// A read of a region must return all of its `size` bytes.
pub fn check_read_len(size: usize, bytes_read: usize) -> (r: Result<(), GrepError>)
    ensures
        bytes_read == size ==> r is Ok,
        bytes_read != size ==> (r matches Err(GrepError::MemoryReadBytesMismatch { size: s, bytes_read: n })
            && s == size && n == bytes_read),
{
    if bytes_read != size {
        return Err(GrepError::MemoryReadBytesMismatch { size, bytes_read });
    }
    Ok(())
}

/// `n` copies of `b`.
pub fn fill_bytes(b: u8, n: usize) -> (r: Vec<u8>)
    ensures
        r@ == Seq::new(n as nat, |i: int| b),
{
    let mut out: Vec<u8> = Vec::new();
    let mut i: usize = 0;
    while i < n
        invariant
            i <= n,
            out@ == Seq::new(i as nat, |j: int| b),
        decreases n - i,
    {
        out.push(b);
        i = i + 1;
        assert(out@ =~= Seq::new(i as nat, |j: int| b));
    }
    out
}

/// Decides, for the bytes `buf` read from `record`, what to report and what
/// to write. Without `erase`, the first occurrence of `text` is reported with
/// its absolute address, and nothing is written. With `erase = Some(f)`, every
/// non-overlapping occurrence, in increasing order, gets one write of
/// `text.len()` copies of `f` at its absolute address, and nothing is reported.
pub fn plan_region(record: &MapsRecord, buf: &[u8], text: &[u8], erase: Option<u8>) -> (r: RegionPlan)
    requires
        text@.len() > 0,
        record.address_upper > record.address_lower,
        buf@.len() == read_size(*record),
    ensures
        erase is None ==> r.writes@.len() == 0 && match r.first {
            Some(m) => is_first_match(buf@, text@, m.offset as int)
                && m.address == record.address_lower + m.offset,
            None => forall|j: int| !matches_at(buf@, text@, j),
        },
        erase matches Some(f) ==> r.first is None
            && r.writes@.len() == match_offsets(buf@, text@).len()
            && forall|t: int| 0 <= t < r.writes@.len() ==>
                (#[trigger] r.writes@[t]).address == record.address_lower + match_offsets(buf@, text@)[t]
                && r.writes@[t].bytes@ == Seq::new(text@.len(), |i: int| f),
{
    match erase {
        None => {
            let first = match find_first(buf, text) {
                Some(pos) => Some(MatchResult { offset: pos, address: record.address_lower + pos as u64 }),
                None => None,
            };
            RegionPlan { first, writes: Vec::new() }
        },
        Some(f) => {
            let positions = match_positions(buf, text);
            let ghost offs = match_offsets(buf@, text@);
            proof {
                crate::search::lemma_offsets_in_range(buf@, text@);
            }
            let mut writes: Vec<EraseWrite> = Vec::new();
            let mut t: usize = 0;
            while t < positions.len()
                invariant
                    t <= positions@.len(),
                    positions@.map_values(|k: usize| k as int) == offs,
                    forall|u: int| 0 <= u < offs.len() ==> 0 <= #[trigger] offs[u] < buf@.len(),
                    buf@.len() == read_size(*record),
                    record.address_upper > record.address_lower,
                    writes@.len() == t,
                    forall|u: int| 0 <= u < t ==>
                        (#[trigger] writes@[u]).address == record.address_lower + offs[u]
                        && writes@[u].bytes@ == Seq::new(text@.len(), |i: int| f),
                decreases positions@.len() - t,
            {
                let k = positions[t];
                assert(offs[t as int] == k as int);
                let bytes = fill_bytes(f, text.len());
                writes.push(EraseWrite { address: record.address_lower + k as u64, bytes });
                t = t + 1;
            }
            RegionPlan { first: None, writes }
        },
    }
}

} // verus!
