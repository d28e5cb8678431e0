use peg_solitaire::board::VALID_BIT_MASK;
use peg_solitaire::index::{unzip, zip, TABLE_SIZE};

#[test]
fn table_size_is_two_to_the_thirty_three() {
    assert_eq!(TABLE_SIZE, 1u64 << 33);
}

#[test]
fn the_full_board_has_the_highest_index() {
    assert_eq!(zip(VALID_BIT_MASK), 0x1_ffff_ffff);
    assert_eq!(unzip(0x1_ffff_ffff), VALID_BIT_MASK);
    assert_eq!(zip(0), 0);
    assert_eq!(unzip(0), 0);
}

#[test]
fn the_center_hole_board_and_its_index() {
    let index: u64 = 0b111_111_1111111_1110111_1111111_111_111;
    assert_eq!(index, 0x1_fffe_ffff);
    assert_eq!(unzip(index), 0x001c_1c7f_777f_1c1c);
    assert_eq!(zip(0x001c_1c7f_777f_1c1c), index);
}

#[test]
fn each_index_bit_has_its_cell() {
    let cells: [u32; 33] = [
        2, 3, 4, 10, 11, 12, 16, 17, 18, 19, 20, 21, 22, 24, 25, 26, 27, 28, 29, 30, 32, 33, 34,
        35, 36, 37, 38, 42, 43, 44, 50, 51, 52,
    ];
    for (bit, cell) in cells.iter().enumerate() {
        assert_eq!(unzip(1u64 << bit), 1u64 << cell);
        assert_eq!(zip(1u64 << cell), 1u64 << bit);
    }
}

#[test]
fn zip_ignores_what_lies_outside_the_cross() {
    assert_eq!(zip(u64::MAX), 0x1_ffff_ffff);
    assert_eq!(zip(!VALID_BIT_MASK), 0);
    assert_eq!(zip(0x001c_1c7f_777f_1c1c | !VALID_BIT_MASK), 0x1_fffe_ffff);
}

#[test]
fn unzip_ignores_bits_from_thirty_three_on() {
    assert_eq!(unzip(u64::MAX), VALID_BIT_MASK);
    assert_eq!(unzip(1u64 << 33), 0);
    assert_eq!(unzip(0x1_fffe_ffff | (1u64 << 40)), 0x001c_1c7f_777f_1c1c);
}

#[test]
fn unzip_then_zip_is_the_identity_on_indices() {
    let mut z: u64 = 1;
    for _ in 0..2000 {
        z = z.wrapping_mul(0x5851_f42d_4c95_7f2d).wrapping_add(0x1405_7b7e_f767_814f);
        let index = z >> 31;
        assert!(index < TABLE_SIZE);
        let board = unzip(index);
        assert_eq!(board & !VALID_BIT_MASK, 0);
        assert_eq!(zip(board), index);
        assert_eq!(board.count_ones(), index.count_ones());
    }
}

#[test]
fn zip_then_unzip_is_the_identity_on_boards() {
    let mut v: u64 = 7;
    for _ in 0..2000 {
        v = v.wrapping_mul(0x5851_f42d_4c95_7f2d).wrapping_add(0x1405_7b7e_f767_814f);
        let board = v & VALID_BIT_MASK;
        let index = zip(board);
        assert!(index < TABLE_SIZE);
        assert_eq!(unzip(index), board);
        assert_eq!(board.count_ones(), index.count_ones());
    }
}
