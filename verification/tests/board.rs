use peg_solitaire::board::{
    gaps, shift, shift_down, shift_left, shift_right, shift_up, Direction, VALID_BIT_MASK,
};

const CENTER_HOLE: u64 = 0x001c_1c7f_777f_1c1c;

#[test]
fn mask_has_thirty_three_cells() {
    assert_eq!(
        VALID_BIT_MASK,
        0b00000000_00011100_00011100_01111111_01111111_01111111_00011100_00011100
    );
    assert_eq!(VALID_BIT_MASK.count_ones(), 33);
}

#[test]
fn shifts_of_the_full_board_clip_at_the_edges() {
    assert_eq!(shift_left(VALID_BIT_MASK), 0x0018_187e_7e7e_1818);
    assert_eq!(shift_right(VALID_BIT_MASK), 0x000c_0c3f_3f3f_0c0c);
    assert_eq!(shift_up(VALID_BIT_MASK), 0x001c_1c7f_7f1c_1c00);
    assert_eq!(shift_down(VALID_BIT_MASK), 0x0000_1c1c_7f7f_1c1c);
}

#[test]
fn shifts_of_the_center_hole_board() {
    assert_eq!(shift_left(CENTER_HOLE), 0x0018_187e_6e7e_1818);
    assert_eq!(shift_right(CENTER_HOLE), 0x000c_0c3f_3b3f_0c0c);
    assert_eq!(shift_up(CENTER_HOLE), 0x001c_1c77_7f1c_1c00);
    assert_eq!(shift_down(CENTER_HOLE), 0x0000_1c1c_7f77_1c1c);
}

#[test]
fn shifts_move_a_single_peg_by_one_cell() {
    let center: u64 = 1 << 27;
    assert_eq!(shift_left(center), 1 << 28);
    assert_eq!(shift_right(center), 1 << 26);
    assert_eq!(shift_up(center), 1 << 35);
    assert_eq!(shift_down(center), 1 << 19);
}

#[test]
fn a_peg_shifted_off_the_cross_is_dropped() {
    let corner: u64 = 1 << 2;
    assert_eq!(shift_left(corner), 1 << 3);
    assert_eq!(shift_right(corner), 0);
    assert_eq!(shift_up(corner), 1 << 10);
    assert_eq!(shift_down(corner), 0);
    let arm: u64 = 1 << 22;
    assert_eq!(shift_left(arm), 0);
    assert_eq!(shift_right(arm), 1 << 21);
    assert_eq!(shift_up(arm), 1 << 30);
    assert_eq!(shift_down(arm), 0);
}

#[test]
fn shifts_never_wrap_around() {
    assert_eq!(shift_left(u64::MAX), VALID_BIT_MASK);
    assert_eq!(shift_right(u64::MAX), VALID_BIT_MASK);
    assert_eq!(shift_up(u64::MAX), 0x001c_1c7f_7f7f_1c00);
    assert_eq!(shift_down(u64::MAX), VALID_BIT_MASK);
    assert_eq!(shift_up(1 << 63), 0);
    assert_eq!(shift_left(1 << 63), 0);
}

#[test]
fn shift_by_direction_agrees_with_the_named_shifts() {
    for v in [0u64, CENTER_HOLE, VALID_BIT_MASK, u64::MAX, 0x0123_4567_89ab_cdef] {
        assert_eq!(shift(v, Direction::Left), shift_left(v));
        assert_eq!(shift(v, Direction::Right), shift_right(v));
        assert_eq!(shift(v, Direction::Up), shift_up(v));
        assert_eq!(shift(v, Direction::Down), shift_down(v));
    }
}

#[test]
fn opposite_directions_pair_up() {
    assert_eq!(Direction::Down.opposite(), Direction::Up);
    assert_eq!(Direction::Up.opposite(), Direction::Down);
    assert_eq!(Direction::Left.opposite(), Direction::Right);
    assert_eq!(Direction::Right.opposite(), Direction::Left);
}

#[test]
fn gaps_are_the_empty_cells_of_the_cross() {
    assert_eq!(gaps(0), VALID_BIT_MASK);
    assert_eq!(gaps(VALID_BIT_MASK), 0);
    assert_eq!(gaps(u64::MAX), 0);
    assert_eq!(gaps(CENTER_HOLE), 1 << 27);
    assert_eq!(gaps(1 << 27), VALID_BIT_MASK & !(1 << 27));
}

#[test]
fn shifts_and_gaps_stay_inside_the_mask() {
    let mut v: u64 = 0x9e37_79b9_7f4a_7c15;
    for _ in 0..1000 {
        v = v.wrapping_mul(0x5851_f42d_4c95_7f2d).wrapping_add(0x1405_7b7e_f767_814f);
        for r in [shift_left(v), shift_right(v), shift_up(v), shift_down(v), gaps(v)] {
            assert_eq!(r & !VALID_BIT_MASK, 0);
        }
    }
}
