//! Moving runs of bytes between buffers.

use vstd::prelude::*;
use vstd::slice::{slice_subrange, slice_to_vec};

verus! {

/// Appends `bytes` to `out`.
pub fn append_bytes(out: &mut Vec<u8>, bytes: &[u8])
    ensures
        final(out)@ == old(out)@ + bytes@,
{
    out.extend_from_slice(bytes);
    assert(out@ =~= old(out)@ + bytes@);
}

/// A copy of the bytes of `data` from `start` up to, not including, `end`.
pub fn copy_range(data: &Vec<u8>, start: usize, end: usize) -> (part: Vec<u8>)
    requires
        start <= end <= data.len(),
    ensures
        part@ == data@.subrange(start as int, end as int),
{
    slice_to_vec(slice_subrange(data.as_slice(), start, end))
}

/// The sixteen bytes of `data` that start at `start`.
pub fn take_16(data: &Vec<u8>, start: usize) -> (block: [u8; 16])
    requires
        start + 16 <= data.len(),
    ensures
        block@ == data@.subrange(start as int, start + 16),
{
    let block = [
        data[start],
        data[start + 1],
        data[start + 2],
        data[start + 3],
        data[start + 4],
        data[start + 5],
        data[start + 6],
        data[start + 7],
        data[start + 8],
        data[start + 9],
        data[start + 10],
        data[start + 11],
        data[start + 12],
        data[start + 13],
        data[start + 14],
        data[start + 15],
    ];
    assert(block@ =~= data@.subrange(start as int, start + 16));
    block
}

} // verus!
