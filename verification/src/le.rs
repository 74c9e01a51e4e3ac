//! Little-endian 32-bit fields inside a byte buffer.
//!
//! Every numeric field of the file format is a 32-bit little-endian value at
//! a fixed byte offset. These two helpers read and write one such field of a
//! `Vec<u8>` and relate it to vstd's little-endian byte specs.

use vstd::bytes::*;
use vstd::prelude::*;
use vstd::slice::slice_subrange;

verus! {

/// Reads the little-endian 32-bit value whose four bytes start at `at`.
pub fn read_u32_at(buf: &Vec<u8>, at: usize) -> (r: u32)
    requires
        at + 4 <= buf.len(),
    ensures
        r == spec_u32_from_le_bytes(buf@.subrange(at as int, at as int + 4)),
{
    let s = slice_subrange(buf.as_slice(), at, at + 4);
    u32_from_le_bytes(s)
}

/// Overwrites the four bytes starting at `at` with `v` in little-endian order.
pub fn write_u32_at(buf: &mut Vec<u8>, at: usize, v: u32)
    requires
        at + 4 <= old(buf).len(),
    ensures
        final(buf)@ == old(buf)@.take(at as int) + spec_u32_to_le_bytes(v) + old(buf)@.skip(
            at as int + 4,
        ),
        final(buf)@.len() == old(buf)@.len(),
{
    proof {
        lemma_auto_spec_u32_to_from_le_bytes();
    }
    let bytes = u32_to_le_bytes(v);
    buf[at] = bytes[0];
    buf[at + 1] = bytes[1];
    buf[at + 2] = bytes[2];
    buf[at + 3] = bytes[3];
    proof {
        assert(buf@ =~= old(buf)@.take(at as int) + spec_u32_to_le_bytes(v) + old(buf)@.skip(
            at as int + 4,
        ));
    }
}

/// Appends a byte slice to a byte vector; states the append over views.
pub fn extend_bytes(dst: &mut Vec<u8>, src: &[u8])
    ensures
        final(dst)@ == old(dst)@ + src@,
{
    dst.extend_from_slice(src);
    proof {
        assert(dst@ =~= old(dst)@ + src@);
    }
}

} // verus!
