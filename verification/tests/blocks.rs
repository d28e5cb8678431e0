use peg_solitaire::blocks::{block_bounds, worker_count};
use peg_solitaire::index::TABLE_SIZE;

#[test]
fn worker_count_is_the_next_power_of_two_above_five_per_core() {
    assert_eq!(worker_count(0), 1);
    assert_eq!(worker_count(1), 8);
    assert_eq!(worker_count(2), 16);
    assert_eq!(worker_count(3), 16);
    assert_eq!(worker_count(4), 32);
    assert_eq!(worker_count(6), 32);
    assert_eq!(worker_count(7), 64);
    assert_eq!(worker_count(12), 64);
    assert_eq!(worker_count(13), 128);
    assert_eq!(worker_count(64), 512);
    assert_eq!(worker_count(0x1999_9999_9999_9999), 0x8000_0000_0000_0000);
}

#[test]
fn blocks_of_eight_workers() {
    let size = TABLE_SIZE / 8;
    assert_eq!(block_bounds(0, 8), (0, size));
    assert_eq!(block_bounds(1, 8), (size, 2 * size));
    assert_eq!(block_bounds(7, 8), (7 * size, TABLE_SIZE));
}

#[test]
fn one_worker_gets_the_whole_index_space() {
    assert_eq!(block_bounds(0, 1), (0, TABLE_SIZE));
}

#[test]
fn blocks_tile_the_index_space_for_every_power_of_two() {
    for e in 0..=33 {
        let workers = 1u64 << e;
        assert_eq!(block_bounds(0, workers).0, 0);
        assert_eq!(block_bounds(workers - 1, workers).1, TABLE_SIZE);
        for thread_i in [0, workers / 3, workers / 2, workers - 1] {
            let (start, end) = block_bounds(thread_i, workers);
            assert_eq!(end - start, TABLE_SIZE >> e);
            if thread_i + 1 < workers {
                assert_eq!(block_bounds(thread_i + 1, workers).0, end);
            }
        }
    }
}

#[test]
fn blocks_of_a_worker_count_that_does_not_divide_round_down() {
    assert_eq!(block_bounds(0, 3), (0, 2863311530));
    assert_eq!(block_bounds(2, 3), (5726623060, 8589934590));
    assert_eq!(block_bounds(0, u64::MAX), (0, 0));
    assert_eq!(block_bounds(u64::MAX - 1, u64::MAX), (0, 0));
    assert_eq!(block_bounds(TABLE_SIZE, TABLE_SIZE + 1), (0, 0));
}
