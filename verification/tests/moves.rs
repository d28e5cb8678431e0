use peg_solitaire::board::{Direction, VALID_BIT_MASK};
use peg_solitaire::index::unzip;
use peg_solitaire::moves::{for_each_possible_move, get_possible_moves};

const CENTER_HOLE: u64 = 0x001c_1c7f_777f_1c1c;

#[test]
fn a_board_with_zero_pegs_has_no_moves() {
    assert_eq!(for_each_possible_move(0), Vec::<u64>::new());
}

#[test]
fn a_board_with_one_peg_has_no_moves() {
    for cell in 0..64 {
        let board = (1u64 << cell) & VALID_BIT_MASK;
        assert!(for_each_possible_move(board).is_empty());
    }
}

#[test]
fn the_full_board_has_no_moves() {
    assert!(for_each_possible_move(VALID_BIT_MASK).is_empty());
}

#[test]
fn two_pegs_side_by_side_jump_along_the_row() {
    let board: u64 = (1 << 24) | (1 << 25);
    assert_eq!(for_each_possible_move(board), vec![1u64 << 26]);
    let mut moves: Vec<u64> = Vec::new();
    get_possible_moves(board, &mut moves, Direction::Left);
    assert_eq!(moves, vec![1u64 << 26]);
    let mut moves: Vec<u64> = Vec::new();
    get_possible_moves(board, &mut moves, Direction::Right);
    assert!(moves.is_empty());
}

#[test]
fn two_pegs_above_each_other_jump_along_the_column() {
    let board: u64 = (1 << 3) | (1 << 11);
    assert_eq!(for_each_possible_move(board), vec![1u64 << 19]);
    let mut moves: Vec<u64> = Vec::new();
    get_possible_moves(board, &mut moves, Direction::Up);
    assert_eq!(moves, vec![1u64 << 19]);
    let mut moves: Vec<u64> = Vec::new();
    get_possible_moves(board, &mut moves, Direction::Down);
    assert!(moves.is_empty());
}

#[test]
fn no_jump_leaves_the_cross() {
    // Two pegs at the end of a wide row: the landing cell would lie outside.
    let board: u64 = (1 << 21) | (1 << 22);
    assert_eq!(for_each_possible_move(board), vec![1u64 << 20]);
    // Two pegs at the top of the upper arm.
    let board: u64 = (1 << 43) | (1 << 51);
    assert_eq!(for_each_possible_move(board), vec![1u64 << 35]);
    // Two pegs next to the arm: the cell beside them is no cell of the cross.
    let board: u64 = (1 << 16) | (1 << 24);
    assert_eq!(for_each_possible_move(board), vec![1u64 << 32]);
}

#[test]
fn the_center_hole_board_has_four_moves() {
    assert_eq!(
        for_each_possible_move(CENTER_HOLE),
        vec![
            0x001c_1477_7f7f_1c1c,
            0x001c_1c7f_7f77_141c,
            0x001c_1c7f_797f_1c1c,
            0x001c_1c7f_4f7f_1c1c,
        ]
    );
}

#[test]
fn moves_come_direction_by_direction() {
    let mut moves: Vec<u64> = Vec::new();
    get_possible_moves(CENTER_HOLE, &mut moves, Direction::Down);
    assert_eq!(moves, vec![0x001c_1477_7f7f_1c1c]);
    get_possible_moves(CENTER_HOLE, &mut moves, Direction::Up);
    assert_eq!(moves, vec![0x001c_1477_7f7f_1c1c, 0x001c_1c7f_7f77_141c]);
    let mut moves: Vec<u64> = Vec::new();
    get_possible_moves(CENTER_HOLE, &mut moves, Direction::Left);
    assert_eq!(moves, vec![0x001c_1c7f_797f_1c1c]);
    let mut moves: Vec<u64> = Vec::new();
    get_possible_moves(CENTER_HOLE, &mut moves, Direction::Right);
    assert_eq!(moves, vec![0x001c_1c7f_4f7f_1c1c]);
}

#[test]
fn get_possible_moves_appends_to_what_is_there() {
    let mut moves: Vec<u64> = vec![17, 4];
    get_possible_moves((1 << 24) | (1 << 25), &mut moves, Direction::Left);
    assert_eq!(moves, vec![17, 4, 1u64 << 26]);
}

#[test]
fn the_twelve_moves_of_the_board_with_a_plus_of_holes() {
    let board = unzip(0b111_111_1110111_1101011_1110111_111_111);
    assert_eq!(board, 0x001c_1c77_6b77_1c1c);
    assert_eq!(
        for_each_possible_move(board),
        vec![
            0x001c_1873_6f77_1c1c,
            0x001c_0c67_7b77_1c1c,
            0x0014_147f_6b77_1c1c,
            0x001c_1c77_6b7f_1414,
            0x001c_1c77_6f73_181c,
            0x001c_1c77_7b67_0c1c,
            0x001c_1c77_6b79_1c1c,
            0x001c_1c77_6c77_1c1c,
            0x001c_1c79_6b77_1c1c,
            0x001c_1c77_6b4f_1c1c,
            0x001c_1c77_1b77_1c1c,
            0x001c_1c4f_6b77_1c1c,
        ]
    );
}

#[test]
fn every_move_removes_exactly_one_peg_and_stays_on_the_cross() {
    let mut v: u64 = 99;
    let mut seen = 0;
    for _ in 0..2000 {
        v = v.wrapping_mul(0x5851_f42d_4c95_7f2d).wrapping_add(0x1405_7b7e_f767_814f);
        let board = (v >> 7) & VALID_BIT_MASK;
        for next in for_each_possible_move(board) {
            assert_eq!(next & !VALID_BIT_MASK, 0);
            assert_eq!(next.count_ones() + 1, board.count_ones());
            assert_eq!((next ^ board).count_ones(), 3);
            seen += 1;
        }
    }
    assert!(seen > 0);
}
