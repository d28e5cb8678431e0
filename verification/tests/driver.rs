use peg_solitaire::driver::{board_wins, conclude_phase, scan_block, PhaseCounters};
use peg_solitaire::index::TABLE_SIZE;
use peg_solitaire::table::Table;

fn seeded() -> Table {
    let mut table = Table::new();
    table.seed();
    table
}

#[test]
fn no_board_wins_against_an_empty_table() {
    let table = Table::new();
    for z in [0u64, 3, 6, 7, 0x1_fffe_ffff, TABLE_SIZE - 1] {
        assert!(!board_wins(&table, z));
    }
}

#[test]
fn two_neighbours_in_a_line_win_after_seeding() {
    let table = seeded();
    assert!(board_wins(&table, 3));
    assert!(board_wins(&table, 6));
    assert!(board_wins(&table, 9));
    assert!(board_wins(&table, 3072));
    // Two pegs that are no neighbours, or whose jump would leave the cross.
    assert!(!board_wins(&table, 5));
    assert!(!board_wins(&table, 12));
    assert!(!board_wins(&table, 0x41));
    // Boards without any move.
    assert!(!board_wins(&table, 0));
    assert!(!board_wins(&table, 1));
    assert!(!board_wins(&table, TABLE_SIZE - 1));
}

#[test]
fn a_board_wins_only_through_a_flagged_successor() {
    let mut table = Table::new();
    // The center hole board has four successors.
    let start: u64 = 0x1_fffe_ffff;
    assert!(!board_wins(&table, start));
    table.mark(0x1_ffff_fdee);
    assert!(!board_wins(&table, start));
    table.mark(0x1_ffff_fdef);
    assert!(board_wins(&table, start));
}

#[test]
fn scan_of_the_first_block_for_two_pegs() {
    let table = seeded();
    let report = scan_block(&table, 0, 4096, 2);
    assert_eq!(report.start(), 0);
    assert_eq!(report.end(), 4096);
    assert_eq!(report.num_marbles(), 2);
    assert_eq!(report.boards_of_this_size(), 66);
    assert_eq!(report.num_solutions(), 15);
    assert_eq!(
        report.winners(),
        &vec![3u64, 6, 9, 18, 24, 36, 48, 192, 264, 384, 528, 768, 1056, 1536, 3072]
    );
}

#[test]
fn scan_for_three_pegs_reads_what_the_phase_before_published() {
    let mut table = seeded();
    let unpublished = scan_block(&table, 0, 4096, 3);
    assert_eq!(unpublished.boards_of_this_size(), 220);
    assert_eq!(unpublished.num_solutions(), 0);
    let phase_two = scan_block(&table, 0, 4096, 2);
    table.publish(phase_two.winners());
    let report = scan_block(&table, 0, 4096, 3);
    assert_eq!(report.boards_of_this_size(), 220);
    assert_eq!(
        report.winners(),
        &vec![
            14u64, 28, 35, 49, 137, 200, 266, 274, 304, 400, 521, 529, 532, 548, 704, 800, 832,
            1042, 1048, 1058, 1408, 1544, 1664, 2084, 2816, 3088, 3328
        ]
    );
}

#[test]
fn scan_of_a_block_without_winners() {
    let table = seeded();
    let report = scan_block(&table, 1 << 20, (1 << 20) + 5000, 2);
    assert_eq!(report.boards_of_this_size(), 13);
    assert_eq!(report.num_solutions(), 0);
    assert!(report.winners().is_empty());
}

#[test]
fn scan_of_an_empty_block() {
    let table = seeded();
    let report = scan_block(&table, 100, 100, 2);
    assert_eq!(report.boards_of_this_size(), 0);
    assert!(report.winners().is_empty());
    let report = scan_block(&table, TABLE_SIZE, TABLE_SIZE, 2);
    assert_eq!((report.start(), report.end()), (TABLE_SIZE, TABLE_SIZE));
    assert_eq!(report.boards_of_this_size(), 0);
}

#[test]
fn scan_counts_boards_by_their_number_of_pegs() {
    let table = seeded();
    assert_eq!(scan_block(&table, 0, 1000, 0).boards_of_this_size(), 1);
    assert_eq!(scan_block(&table, 0, 1000, 1).boards_of_this_size(), 10);
    assert_eq!(scan_block(&table, 0, 1000, 10).boards_of_this_size(), 0);
    assert_eq!(scan_block(&table, 0, 1000, 33).boards_of_this_size(), 0);
    assert_eq!(scan_block(&table, TABLE_SIZE - 1, TABLE_SIZE, 33).boards_of_this_size(), 1);
    // Boards with one peg have no successor, so none of them is a winner.
    assert_eq!(scan_block(&table, 0, 1000, 1).num_solutions(), 0);
}

#[test]
fn blocks_side_by_side_add_up() {
    let table = seeded();
    let whole = scan_block(&table, 0, 4096, 2);
    let low = scan_block(&table, 0, 400, 2);
    let high = scan_block(&table, 400, 4096, 2);
    assert_eq!(
        whole.boards_of_this_size(),
        low.boards_of_this_size() + high.boards_of_this_size()
    );
    let mut joined = low.winners().clone();
    joined.extend(high.winners().iter().copied());
    assert_eq!(whole.winners(), &joined);
}

#[test]
fn counters_add_up_block_by_block() {
    let table = seeded();
    let mut counters = PhaseCounters::new(2);
    assert_eq!(counters.num_marbles(), 2);
    assert_eq!(counters.scanned(), 0);
    assert_eq!(counters.boards_of_this_size(), 0);
    assert_eq!(counters.num_solutions(), 0);
    assert!(counters.absorb(&scan_block(&table, 0, 400, 2)));
    assert_eq!(counters.scanned(), 400);
    assert!(counters.absorb(&scan_block(&table, 400, 4096, 2)));
    assert_eq!(counters.scanned(), 4096);
    assert_eq!(counters.boards_of_this_size(), 66);
    assert_eq!(counters.num_solutions(), 15);
    assert!(counters.num_solutions() <= counters.boards_of_this_size());
}

#[test]
fn counters_take_only_the_next_block_of_their_phase() {
    let table = seeded();
    let mut counters = PhaseCounters::new(2);
    assert!(!counters.absorb(&scan_block(&table, 400, 4096, 2)));
    assert!(!counters.absorb(&scan_block(&table, 0, 400, 3)));
    assert_eq!(counters.scanned(), 0);
    assert_eq!(counters.boards_of_this_size(), 0);
    assert!(counters.absorb(&scan_block(&table, 0, 400, 2)));
    assert!(!counters.absorb(&scan_block(&table, 0, 400, 2)));
    assert_eq!(counters.scanned(), 400);
}

#[test]
fn counted_boards_match_a_direct_count_of_set_bits() {
    let table = seeded();
    for num_marbles in 0..=14u32 {
        let report = scan_block(&table, 5000, 9000, num_marbles);
        let direct = (5000u64..9000).filter(|z| z.count_ones() == num_marbles).count() as u64;
        assert_eq!(report.boards_of_this_size(), direct);
        assert!(report.num_solutions() <= report.boards_of_this_size());
    }
}

#[test]
fn concluding_a_phase_adds_up_and_publishes() {
    let mut table = seeded();
    let reports = vec![
        scan_block(&table, 0, 400, 2),
        scan_block(&table, 400, 3000, 2),
        scan_block(&table, 3000, 4096, 2),
    ];
    let counters = conclude_phase(&mut table, &reports, 2).unwrap();
    assert_eq!(counters.num_marbles(), 2);
    assert_eq!(counters.scanned(), 4096);
    assert_eq!(counters.boards_of_this_size(), 66);
    assert_eq!(counters.num_solutions(), 15);
    let winners = [3u64, 6, 9, 18, 24, 36, 48, 192, 264, 384, 528, 768, 1056, 1536, 3072];
    for z in 0..4096u64 {
        assert_eq!(table.get(z), z.count_ones() == 1 || winners.contains(&z));
    }
}

#[test]
fn concluding_a_phase_without_blocks_changes_nothing() {
    let mut table = seeded();
    let counters = conclude_phase(&mut table, &Vec::new(), 2).unwrap();
    assert_eq!(counters.scanned(), 0);
    assert_eq!(counters.boards_of_this_size(), 0);
    assert_eq!(counters.num_solutions(), 0);
    for z in 0..4096u64 {
        assert_eq!(table.get(z), z.count_ones() == 1);
    }
}

#[test]
fn blocks_that_do_not_lie_side_by_side_are_not_published() {
    for (first, second, phase) in [
        ((0u64, 400u64, 2u32), (401u64, 4096u64, 2u32), 2u32),
        ((0, 400, 2), (399, 4096, 2), 2),
        ((1, 400, 2), (400, 4096, 2), 2),
        ((0, 400, 2), (400, 4096, 3), 2),
        ((0, 400, 2), (400, 4096, 2), 3),
        ((400, 4096, 2), (0, 400, 2), 2),
    ] {
        let mut table = seeded();
        let reports = vec![
            scan_block(&table, first.0, first.1, first.2),
            scan_block(&table, second.0, second.1, second.2),
        ];
        assert!(conclude_phase(&mut table, &reports, phase).is_none());
        for z in 0..4096u64 {
            assert_eq!(table.get(z), z.count_ones() == 1);
        }
    }
}

#[test]
fn phases_two_to_five_on_the_lowest_boards() {
    // Only the boards below 1024 are scanned, so a board wins here when it
    // can be played down to one peg without leaving this range.
    let mut table = seeded();
    let mut solutions = Vec::new();
    for num_marbles in 2..=5u32 {
        let reports = vec![
            scan_block(&table, 0, 512, num_marbles),
            scan_block(&table, 512, 1024, num_marbles),
        ];
        let counters = conclude_phase(&mut table, &reports, num_marbles).unwrap();
        solutions.push((counters.boards_of_this_size(), counters.num_solutions()));
    }
    assert_eq!(solutions, vec![(45, 12), (120, 15), (210, 25), (252, 34)]);
}
