//! How the heap grows.

use vstd::prelude::*;

verus! {

/// What is set aside for the allocator's own records: twice the kilobyte or so that it needs.
pub const HEAP_RECORDS: usize = 2048;

/// The heap grows by multiples of this.
pub const HEAP_CHUNK: usize = 8192;

/// By how much the heap grows for an allocation of `size` bytes: the next whole number of chunks
/// that holds it and the records of the allocator.
pub fn heap_growth(size: usize) -> (len: usize)
    requires
        size <= isize::MAX,
    ensures
        len % HEAP_CHUNK == 0,
        size + HEAP_RECORDS <= len < size + HEAP_RECORDS + HEAP_CHUNK,
{
    let needed: usize = size + HEAP_RECORDS;
    let over: usize = needed % HEAP_CHUNK;
    if over == 0 {
        needed
    } else {
        needed + (HEAP_CHUNK - over)
    }
}

/// An allocation that leaves room for the records in a number of chunks grows the heap by just that
/// number of chunks.
pub proof fn heap_grows_by_whole_chunks(size: int, len: int, chunks: int)
    requires
        len % HEAP_CHUNK as int == 0,
        size + HEAP_RECORDS <= len < size + HEAP_RECORDS + HEAP_CHUNK,
        (chunks - 1) * 8192 < size + 2048 <= chunks * 8192,
    ensures
        len == chunks * 8192,
{
}

} // verus!
