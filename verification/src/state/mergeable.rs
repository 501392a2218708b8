//! The decisions of the per-flow stores whose data paths buffer updates
//! before they merge them into a shared table or send them on.
use vstd::prelude::*;

verus! {

/// The most updates a data path buffers after it failed to merge.
pub const MAX_CACHE_SIZE: usize = 0x10_0000;

/// A data path that has seen `updates` updates since it last sent them on
/// counts one more: it sends once the count reaches `delay`, and then
/// starts counting from zero. Returns the new count and whether to send.
pub fn count_update(updates: usize, delay: usize) -> (r: (usize, bool))
    requires
        updates < usize::MAX,
    ensures
        r.1 == (updates + 1 >= delay),
        r.0 == if r.1 { 0 } else { updates + 1 },
{
    let n = updates + 1;
    if n >= delay {
        (0, true)
    } else {
        (n, false)
    }
}

/// The number of buffered updates at which a data path next tries to
/// merge: back to `base` once a merge went through; where the shared table
/// could not be had, twice the current size, and no less than
/// `MAX_CACHE_SIZE`.
pub fn next_cache_size(cache_size: usize, base: usize, merged: bool) -> (r: usize)
    requires
        merged || cache_size * 2 <= usize::MAX,
    ensures
        merged ==> r == base,
        !merged ==> r == if cache_size * 2 > MAX_CACHE_SIZE { cache_size * 2 } else { MAX_CACHE_SIZE as int },
{
    if merged {
        base
    } else {
        let doubled = cache_size * 2;
        if doubled > MAX_CACHE_SIZE {
            doubled
        } else {
            MAX_CACHE_SIZE
        }
    }
}

} // verus!
