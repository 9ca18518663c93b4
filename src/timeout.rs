//! Bounds of blocking reads, as the store is told them.
use vstd::prelude::*;

verus! {

/// Block time in milliseconds handed to the store for a blocking read bounded
/// by `timeout_ms`, where `None` is no bound. The store reads `0` as "wait
/// forever", so only an unbounded read is sent `0`; a bounded one is sent its
/// bound, raised to at least one millisecond and clamped to `usize`.
pub fn store_block_millis(timeout_ms: Option<u128>) -> (r: usize)
    ensures
        r == 0 <==> timeout_ms is None,
        timeout_ms matches Some(t) ==> r == if t == 0 {
            1
        } else if t <= usize::MAX {
            t as int
        } else {
            usize::MAX as int
        },
{
    match timeout_ms {
        None => 0,
        Some(t) => {
            if t == 0 {
                1
            } else if t <= usize::MAX as u128 {
                t as usize
            } else {
                usize::MAX
            }
        },
    }
}

} // verus!
