//! The host-side counter table that the instrumented component drives.
//!
//! Every counter call carries an index; the table grows with zeroes up to
//! that index before the hit is recorded, so that unexecuted counters keep
//! an explicit zero.

use vstd::prelude::*;

verus! {

/// Grows the table with zeroes so that `idx` is in range, then counts one
/// hit there (saturating).
pub fn record_hit(counters: &mut Vec<u64>, idx: usize)
    ensures
        final(counters)@.len() == (if old(counters)@.len() <= idx {
            idx + 1
        } else {
            old(counters)@.len() as int
        }),
        forall|i: int|
            0 <= i < old(counters)@.len() && i != idx ==> #[trigger] final(counters)@[i] == old(
                counters,
            )@[i],
        forall|i: int|
            old(counters)@.len() <= i < final(counters)@.len() && i != idx
                ==> #[trigger] final(counters)@[i] == 0,
        final(counters)@[idx as int] == (if idx < old(counters)@.len() {
            if old(counters)@[idx as int] < u64::MAX {
                (old(counters)@[idx as int] + 1) as u64
            } else {
                u64::MAX
            }
        } else {
            1u64
        }),
{
    let n0 = counters.len();
    while counters.len() <= idx
        invariant
            counters@.len() >= n0 == old(counters)@.len() || counters@.len() <= idx + 1,
            counters@.len() >= n0,
            n0 == old(counters)@.len(),
            counters@.len() <= idx + 1 || counters@.len() == n0,
            forall|i: int| 0 <= i < n0 ==> #[trigger] counters@[i] == old(counters)@[i],
            forall|i: int| n0 <= i < counters@.len() ==> #[trigger] counters@[i] == 0,
        decreases idx + 1 - counters@.len(),
    {
        counters.push(0);
    }
    let prev = counters[idx];
    let next = if prev < u64::MAX {
        prev + 1
    } else {
        u64::MAX
    };
    counters.set(idx, next);
}

} // verus!
