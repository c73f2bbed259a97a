//! Partitioning of the discovered file list into contiguous shards, one per
//! worker of the parallel parse phase.  The partition is a pure function of
//! the list length, so the fan-out is deterministic.

use vstd::prelude::*;

verus! {

/// The size of a full shard for `n` entries: a sixth of the total, and at
/// least one so that small lists still get a worker.
pub open spec fn shard_size(n: int) -> int {
    if n / 6 == 0 {
        1
    } else {
        n / 6
    }
}

/// Splits `0..n` into contiguous, nonempty, consecutive ranges that cover
/// it in order: every shard but the last holds exactly `shard_size(n)`
/// entries, the last at most that many.
pub fn shard_ranges(n: usize) -> (r: Vec<(usize, usize)>)
    ensures
        n == 0 ==> r@.len() == 0,
        n > 0 ==> r@.len() > 0 && r@[0].0 == 0 && r@[r@.len() - 1].1 == n,
        forall|i: int| 0 <= i < r@.len() ==> (#[trigger] r@[i]).0 < r@[i].1 <= n,
        forall|i: int| 0 <= i < r@.len() - 1 ==> (#[trigger] r@[i]).1 == r@[i + 1].0,
        forall|i: int|
            0 <= i < r@.len() - 1 ==> (#[trigger] r@[i]).1 - r@[i].0 == shard_size(n as int),
        forall|i: int|
            0 <= i < r@.len() ==> (#[trigger] r@[i]).1 - r@[i].0 <= shard_size(n as int),
{
    let mut r: Vec<(usize, usize)> = Vec::new();
    if n == 0 {
        return r;
    }
    let k: usize = if n / 6 == 0 {
        1
    } else {
        n / 6
    };
    let mut start: usize = 0;
    while start < n
        invariant
            0 <= start <= n,
            k == shard_size(n as int),
            1 <= k,
            (r@.len() == 0) == (start == 0),
            start > 0 ==> r@[0].0 == 0 && r@[r@.len() - 1].1 == start,
            forall|i: int| 0 <= i < r@.len() ==> (#[trigger] r@[i]).0 < r@[i].1 <= n,
            forall|i: int| 0 <= i < r@.len() - 1 ==> (#[trigger] r@[i]).1 == r@[i + 1].0,
            forall|i: int| 0 <= i < r@.len() - 1 ==> (#[trigger] r@[i]).1 - r@[i].0 == k,
            forall|i: int| 0 <= i < r@.len() ==> (#[trigger] r@[i]).1 - r@[i].0 <= k,
            start < n ==> (r@.len() == 0 || r@[r@.len() - 1].1 - r@[r@.len() - 1].0 == k),
        decreases n - start,
    {
        let end: usize = if n - start > k {
            start + k
        } else {
            n
        };
        r.push((start, end));
        start = end;
    }
    r
}

} // verus!
