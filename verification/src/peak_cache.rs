//! The waveform's peaks, kept on the file itself in its `user.hark.peaks` extended
//! attribute.
//!
//! Drawing the seek bar means decoding the entire file, on every single play of
//! it. The answer is a fixed run of bytes, so it is kept: the version, the stamp
//! of the file, and one byte for each peak, from silence to full scale.
//!
//! Nothing here reports failure: no attribute, a record from another version and a
//! record whose file has changed since all mean that the file is to be decoded.

use crate::meta_cache::Stamp;
use crate::waveform::PEAKS;
use vstd::bytes::*;
use vstd::prelude::*;

verus! {

/// The extended attribute.
pub const XATTR_NAME: &'static str = "user.hark.peaks";

/// Moved when the record's shape changes, and when the measurement behind it does:
/// a changed measurement makes every stored record wrong about a file that has not
/// moved, and the stamp cannot catch that.
pub const VERSION: u8 = 1;

/// The version, then the stamp.
pub const HEADER: usize = 17;

/// The whole record, which is fixed: a record of any other length was written for
/// another number of peaks.
pub const RECORD: usize = 237;

/// The record of a file's peaks.
pub open spec fn record(stamp: Stamp, levels: Seq<u8>) -> Seq<u8> {
    seq![VERSION] + spec_u64_to_le_bytes(stamp.mtime_ns as u64) + spec_u64_to_le_bytes(stamp.size)
        + levels
}

/// The peaks a record holds, when it is one of this version of exactly this file.
pub open spec fn reading(bytes: Seq<u8>, stamp: Stamp) -> Option<Seq<u8>> {
    if bytes.len() == RECORD && bytes[0] == VERSION && bytes.subrange(1, 9)
        == spec_u64_to_le_bytes(stamp.mtime_ns as u64) && bytes.subrange(9, 17)
        == spec_u64_to_le_bytes(stamp.size) {
        Some(bytes.skip(17))
    } else {
        None
    }
}

/// Appends bytes to bytes.
fn append(to: &mut Vec<u8>, more: &[u8])
    ensures
        final(to)@ == old(to)@ + more@,
{
    let ghost start = to@;
    let mut i: usize = 0;
    assert(start + more@.take(0) =~= start);
    while i < more.len()
        invariant
            i <= more@.len(),
            to@ == start + more@.take(i as int),
        decreases more@.len() - i,
    {
        assert((start + more@.take(i as int)).push(more@[i as int]) =~= start + more@.take(i + 1));
        to.push(more[i]);
        i = i + 1;
    }
    assert(more@.take(more@.len() as int) =~= more@);
}

/// Builds the record of a file's peaks, one byte for each, or refuses to when they
/// are not a full set.
///
/// The refusal carries the rule that a failure is never remembered. A decoder that
/// produced nothing leaves no peaks, and that is more likely a half-copied file
/// than an answer. Silence is an answer: a full set of noughts.
pub fn encode(stamp: Stamp, levels: &[u8]) -> (r: Option<Vec<u8>>)
    ensures
        r is Some <==> levels@.len() == PEAKS,
        r matches Some(bytes) ==> bytes@ == record(stamp, levels@) && bytes@.len() == RECORD,
{
    if levels.len() != PEAKS {
        return None;
    }
    let mut bytes: Vec<u8> = Vec::new();
    bytes.push(VERSION);
    #[verifier::truncate]
    let mtime: u64 = stamp.mtime_ns as u64;
    let time = u64_to_le_bytes(mtime);
    let size = u64_to_le_bytes(stamp.size);
    append(&mut bytes, time.as_slice());
    append(&mut bytes, size.as_slice());
    append(&mut bytes, levels);
    assert(bytes@ =~= record(stamp, levels@));
    Some(bytes)
}

/// Reads a record back, refusing anything that does not describe exactly this
/// version of exactly this file. A truncated, padded or foreign attribute is no
/// record.
pub fn decode(bytes: &[u8], stamp: Stamp) -> (r: Option<Vec<u8>>)
    ensures
        r is Some <==> reading(bytes@, stamp) is Some,
        r matches Some(levels) ==> reading(bytes@, stamp) == Some(levels@) && levels@.len()
            == PEAKS,
{
    if bytes.len() != RECORD || bytes[0] != VERSION {
        return None;
    }
    #[verifier::truncate]
    let mtime: u64 = stamp.mtime_ns as u64;
    let time = vstd::slice::slice_subrange(bytes, 1, 9);
    let size = vstd::slice::slice_subrange(bytes, 9, 17);
    proof {
        lemma_auto_spec_u64_to_from_le_bytes();
    }
    if u64_from_le_bytes(time) != mtime || u64_from_le_bytes(size) != stamp.size {
        return None;
    }
    let levels = vstd::slice::slice_subrange(bytes, 17, bytes.len());
    assert(levels@ =~= bytes@.skip(17));
    Some(vstd::slice::slice_to_vec(levels))
}

/// What is remembered of a file's peaks, given the attribute found on it.
pub fn read(attribute: Option<&[u8]>, stamp: Stamp) -> (r: Option<Vec<u8>>)
    ensures
        r is Some <==> attribute is Some && reading(attribute->0@, stamp) is Some,
        r matches Some(levels) ==> reading(attribute->0@, stamp) == Some(levels@) && levels@.len()
            == PEAKS,
{
    match attribute {
        Some(bytes) => decode(bytes, stamp),
        None => None,
    }
}

/// The attribute to write on a file that was measured, if there is one to write.
pub fn write(stamp: Stamp, levels: &[u8]) -> (attribute: Option<Vec<u8>>)
    ensures
        attribute is Some <==> levels@.len() == PEAKS,
        attribute matches Some(bytes) ==> bytes@ == record(stamp, levels@),
{
    encode(stamp, levels)
}

/// A record that is read back for the same file holds the peaks that were put into
/// it.
pub proof fn a_record_reads_back(stamp: Stamp, levels: Seq<u8>)
    requires
        levels.len() == PEAKS,
    ensures
        reading(record(stamp, levels), stamp) == Some(levels),
        record(stamp, levels).len() == RECORD,
{
    lemma_auto_spec_u64_to_from_le_bytes();
    let bytes = record(stamp, levels);
    assert(bytes.subrange(1, 9) =~= spec_u64_to_le_bytes(stamp.mtime_ns as u64));
    assert(bytes.subrange(9, 17) =~= spec_u64_to_le_bytes(stamp.size));
    assert(bytes.skip(17) =~= levels);
}

/// The record made of what was read from a record is that record, byte for byte, so
/// that one that is read and written again and again never drifts.
pub proof fn what_was_read_makes_the_record(bytes: Seq<u8>, stamp: Stamp)
    ensures
        reading(bytes, stamp) matches Some(levels) ==> levels.len() == PEAKS && record(
            stamp,
            levels,
        ) == bytes,
{
    if let Some(levels) = reading(bytes, stamp) {
        lemma_auto_spec_u64_to_from_le_bytes();
        let time = spec_u64_to_le_bytes(stamp.mtime_ns as u64);
        let size = spec_u64_to_le_bytes(stamp.size);
        let made = record(stamp, levels);
        assert(made.len() == bytes.len());
        assert forall|i: int| 0 <= i < bytes.len() implies made[i] == bytes[i] by {
            if 1 <= i < 9 {
                assert(made[i] == time[i - 1]);
                assert(bytes.subrange(1, 9)[i - 1] == bytes[i]);
            } else if 9 <= i < 17 {
                assert(made[i] == size[i - 9]);
                assert(bytes.subrange(9, 17)[i - 9] == bytes[i]);
            }
        }
        assert(made =~= bytes);
    }
}

/// A record says nothing about a file with any other stamp.
pub proof fn a_changed_file_has_no_record(stamp: Stamp, levels: Seq<u8>, now: Stamp)
    requires
        levels.len() == PEAKS,
        now != stamp,
    ensures
        reading(record(stamp, levels), now) is None,
{
    lemma_auto_spec_u64_to_from_le_bytes();
    let bytes = record(stamp, levels);
    let (a, b) = (stamp.mtime_ns, now.mtime_ns);
    assert(a as u64 == b as u64 ==> a == b) by (bit_vector);
    assert(bytes.subrange(1, 9) =~= spec_u64_to_le_bytes(stamp.mtime_ns as u64));
    assert(bytes.subrange(9, 17) =~= spec_u64_to_le_bytes(stamp.size));
    if a != b {
        assert(spec_u64_from_le_bytes(spec_u64_to_le_bytes(a as u64)) == a as u64);
        assert(spec_u64_from_le_bytes(spec_u64_to_le_bytes(b as u64)) == b as u64);
    } else {
        assert(spec_u64_from_le_bytes(spec_u64_to_le_bytes(stamp.size)) == stamp.size);
        assert(spec_u64_from_le_bytes(spec_u64_to_le_bytes(now.size)) == now.size);
    }
}

/// A record of any other length or version says nothing.
pub proof fn a_foreign_record_says_nothing(bytes: Seq<u8>, stamp: Stamp)
    requires
        bytes.len() != RECORD || bytes[0] != VERSION,
    ensures
        reading(bytes, stamp) is None,
{
}

/// A record is one byte of version, eight of time, eight of size, and one for each of the
/// two hundred and twenty peaks; it is believed exactly when all of that is right.
pub proof fn a_record_has_this_shape(bytes: Seq<u8>, stamp: Stamp)
    ensures
        reading(bytes, stamp) is Some <==> bytes.len() == 237 && bytes[0] == 1 && bytes.subrange(
            1,
            9,
        ) == spec_u64_to_le_bytes(stamp.mtime_ns as u64) && bytes.subrange(9, 17)
            == spec_u64_to_le_bytes(stamp.size),
        reading(bytes, stamp) matches Some(levels) ==> levels == bytes.subrange(17, 237),
        PEAKS == 220,
{
    if reading(bytes, stamp) is Some {
        assert(bytes.skip(17) =~= bytes.subrange(17, 237));
    }
}

} // verus!
