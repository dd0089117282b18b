//! The decision a content watcher rests on: checksum the content seen
//! now and compare it against the last checksum recorded. The watcher
//! itself (reading the file, sleeping between polls) is the caller's
//! affair; on a change it rebuilds and records the new checksum.

use vstd::prelude::*;

verus! {

/// The CRC-32 checksum of a byte sequence.
pub uninterp spec fn crc32_of(data: Seq<u8>) -> u32;

/// Relies on crc32fast::hash: the CRC-32 checksum of the bytes, a
/// function of the bytes alone.
#[verifier::external_body]
fn crc32(data: &[u8]) -> (r: u32)
    ensures
        r == crc32_of(data@),
{
    crc32fast::hash(data)
}

/// Whether watched content differs from the state last recorded:
/// yields the content's checksum and its comparison against the old
/// one.
pub fn content_changed(old_checksum: u32, data: &[u8]) -> (r: (bool, u32))
    ensures
        r.1 == crc32_of(data@),
        r.0 == (r.1 != old_checksum),
{
    let new_checksum = crc32(data);
    (new_checksum != old_checksum, new_checksum)
}

} // verus!
