//! The partition of a mesh's primitives into chunks, one for each worker of a
//! parallel draw.

use vstd::prelude::*;
use vstd::arithmetic::div_mod::lemma_fundamental_div_mod_converse;

verus! {

/// The number of primitives that one worker rasterizes.
pub const CHUNK_SIZE: usize = 200;

/// The number of chunks of at most `size` items that `len` items fall into.
pub open spec fn chunk_count(len: int, size: int) -> int {
    (len + size - 1) / size
}

/// The bounds of chunk `k`: where it starts, and where it ends, which is not
/// part of it. Every chunk but the last holds `size` items.
pub open spec fn chunk_bounds(len: int, size: int, k: int) -> (int, int) {
    (k * size, if k * size + size < len { k * size + size } else { len })
}

/// The number of chunks, from the place where the last one ends.
proof fn lemma_chunk_count(len: int, size: int, count: int)
    requires
        size > 0,
        len >= 0,
        count >= 0,
        count * size >= len,
        count > 0 ==> (count - 1) * size < len,
    ensures
        chunk_count(len, size) == count,
{
    if count == 0 {
        assert(len == 0);
        lemma_fundamental_div_mod_converse(size - 1, size, 0, size - 1);
    } else {
        assert((count - 1) * size == count * size - size) by (nonlinear_arith);
        let rest = len + size - 1 - count * size;
        lemma_fundamental_div_mod_converse(len + size - 1, size, count, rest + 0);
    }
}

/// Splits the indices below `len` into consecutive chunks of `size` indices;
/// the last chunk holds what is left. Each chunk is given by its start and
/// its end, which is not part of it.
pub fn chunk_ranges(len: usize, size: usize) -> (ranges: Vec<(usize, usize)>)
    requires
        size > 0,
    ensures
        ranges.len() == chunk_count(len as int, size as int),
        forall|k: int|
            0 <= k < ranges.len() ==> (#[trigger] ranges[k]).0 == chunk_bounds(
                len as int,
                size as int,
                k,
            ).0 && ranges[k].1 == chunk_bounds(len as int, size as int, k).1,
{
    let mut ranges: Vec<(usize, usize)> = Vec::new();
    let mut start: usize = 0;
    assert(ranges.len() * size == 0) by (nonlinear_arith)
        requires
            ranges.len() == 0,
    ;
    while start < len
        invariant
            size > 0,
            start <= len,
            start < len ==> start == ranges.len() * size,
            start == len ==> ranges.len() * size >= len,
            ranges.len() > 0 ==> (ranges.len() - 1) * size < len,
            forall|k: int|
                0 <= k < ranges.len() ==> (#[trigger] ranges[k]).0 == chunk_bounds(
                    len as int,
                    size as int,
                    k,
                ).0 && ranges[k].1 == chunk_bounds(len as int, size as int, k).1,
        decreases len - start,
    {
        let end: usize = if len - start > size { start + size } else { len };
        proof {
            let n = ranges.len() as int;
            assert((n + 1) * size == n * size + size) by (nonlinear_arith);
            assert((n + 1 - 1) * size == n * size) by (nonlinear_arith);
        }
        ranges.push((start, end));
        start = end;
    }
    proof {
        lemma_chunk_count(len as int, size as int, ranges.len() as int);
    }
    ranges
}

} // verus!
