//! Cutting the index space into equal blocks, one for each worker.

use vstd::prelude::*;
use crate::index::TABLE_SIZE;

verus! {

/// Whether `n` is a power of two.
pub open spec fn is_power_of_two(n: u64) -> bool {
    exists|e: u64| e < 64 && n == #[trigger] (1u64 << e)
}

/// `u64::next_power_of_two` returns the smallest power of two that is
/// greater than or equal to its argument. Where that power does not fit, that
/// is for an argument above two to the power of 63, it panics or wraps; the
/// precondition leaves those arguments out.
pub assume_specification[ u64::next_power_of_two ](n: u64) -> (r: u64)
    requires
        n <= 0x8000_0000_0000_0000,
    ensures
        is_power_of_two(r),
        n <= r,
        r > 1 ==> r / 2 < n,
;

/// The number of workers for a machine with `cores_available` cores: some
/// more than cores, to even out blocks that take unequally long, and a power
/// of two, so that the blocks tile the index space.
pub fn worker_count(cores_available: u64) -> (actual_threads: u64)
    requires
        cores_available * 5 <= 0x8000_0000_0000_0000,
    ensures
        is_power_of_two(actual_threads),
        cores_available * 5 <= actual_threads,
        actual_threads > 1 ==> actual_threads / 2 < cores_available * 5,
{
    (cores_available * 5).next_power_of_two()
}

/// The size of each block when the index space is cut for `actual_threads`
/// workers.
pub open spec fn block_size(actual_threads: u64) -> int {
    TABLE_SIZE as int / actual_threads as int
}

/// The block of worker `thread_i` out of `actual_threads`: where it starts,
/// and where it ends.
pub fn block_bounds(thread_i: u64, actual_threads: u64) -> (bounds: (u64, u64))
    requires
        thread_i < actual_threads,
    ensures
        bounds.0 == block_size(actual_threads) * thread_i,
        bounds.1 == block_size(actual_threads) * (thread_i + 1),
        bounds.0 <= bounds.1 <= TABLE_SIZE,
{
    let block_size_per_thread: u64 = TABLE_SIZE / actual_threads;
    proof {
        let size = block_size_per_thread as int;
        let n = actual_threads as int;
        let i = thread_i as int;
        assert(size * n <= TABLE_SIZE) by (nonlinear_arith)
            requires
                n > 0,
                size == TABLE_SIZE as int / n,
        ;
        assert(size * i <= size * (i + 1) <= size * n) by (nonlinear_arith)
            requires
                0 <= i < n,
                0 <= size,
        ;
    }
    (block_size_per_thread * thread_i, block_size_per_thread * (thread_i + 1))
}

proof fn lemma_power_of_two_divides(e: u64)
    by (bit_vector)
    requires
        e < 64,
        (1u64 << e) <= 0x2_0000_0000,
    ensures
        (0x2_0000_0000u64 / (1u64 << e)) * (1u64 << e) == 0x2_0000_0000,
{
}

/// With a power of two for the number of workers, and no more workers than
/// dense indices, the blocks tile the index space: each begins where the one
/// before ends, the first at 0, and the last ends at `TABLE_SIZE`.
pub proof fn lemma_blocks_tile(actual_threads: u64)
    requires
        is_power_of_two(actual_threads),
        actual_threads <= TABLE_SIZE,
    ensures
        block_size(actual_threads) * 0 == 0,
        block_size(actual_threads) * actual_threads == TABLE_SIZE,
{
    let e = choose|e: u64| e < 64 && actual_threads == #[trigger] (1u64 << e);
    lemma_power_of_two_divides(e);
}

} // verus!
