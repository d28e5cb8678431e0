use peg_solitaire::index::TABLE_SIZE;
use peg_solitaire::table::Table;

#[test]
fn a_new_table_has_no_flag_set() {
    let table = Table::new();
    for z in [0u64, 1, 2, 3, 1 << 32, 0x1_fffe_ffff, TABLE_SIZE - 1] {
        assert!(!table.get(z));
    }
}

#[test]
fn seeding_marks_exactly_the_single_peg_boards() {
    let mut table = Table::new();
    table.seed();
    for cell in 0..33 {
        assert!(table.get(1u64 << cell));
    }
    for z in 0..4096u64 {
        assert_eq!(table.get(z), z.count_ones() == 1);
    }
    for cell in 0..33 {
        for other in 0..cell {
            assert!(!table.get((1u64 << cell) | (1u64 << other)));
        }
    }
    assert!(!table.get(0));
    assert!(!table.get(TABLE_SIZE - 1));
}

#[test]
fn marking_sets_one_flag_and_keeps_the_others() {
    let mut table = Table::new();
    table.mark(12345);
    assert!(table.get(12345));
    assert!(!table.get(12344));
    assert!(!table.get(12346));
    table.mark(12345);
    assert!(table.get(12345));
    table.seed();
    assert!(table.get(12345));
}

#[test]
fn publishing_sets_the_flags_of_all_winners() {
    let mut table = Table::new();
    table.mark(5);
    table.publish(&vec![7, TABLE_SIZE - 1, 7, 1 << 20]);
    for z in [5u64, 7, TABLE_SIZE - 1, 1 << 20] {
        assert!(table.get(z));
    }
    for z in [0u64, 6, 8, (1 << 20) + 1, TABLE_SIZE - 2] {
        assert!(!table.get(z));
    }
    table.publish(&Vec::new());
    assert!(table.get(5));
    assert!(!table.get(6));
}
