//! The sparse 64-bit board encoding.
//!
//! A board is a `u64` with one byte per row and one bit per cell. The seven
//! rows of the cross sit in bytes 0 to 6, so that a step to the next row is a
//! shift by 8 and a step along a row is a shift by 1. A set bit is a peg, a
//! clear bit inside the cross is a hole, and no bit outside the cross is ever
//! set.

use vstd::prelude::*;

verus! {

/// The 33 cells of the cross.
///
/// ```text
/// 00000000
/// 00011100
/// 00011100
/// 01111111
/// 01111111
/// 01111111
/// 00011100
/// 00011100
/// ```
pub const VALID_BIT_MASK: u64 = 0x001c_1c7f_7f7f_1c1c;

/// The four ways a pattern can be moved across the board by one cell.
#[derive(Clone, Copy, Debug, PartialEq, Eq, Structural)]
pub enum Direction {
    /// To the next lower row: eight bits down.
    Down,
    /// To the next higher row: eight bits up.
    Up,
    /// Along the row, one bit up.
    Left,
    /// Along the row, one bit down.
    Right,
}

impl Direction {
    /// The direction that undoes `self`.
    pub open spec fn reversed(self) -> Direction {
        match self {
            Direction::Down => Direction::Up,
            Direction::Up => Direction::Down,
            Direction::Left => Direction::Right,
            Direction::Right => Direction::Left,
        }
    }

    /// The direction that undoes `self`.
    pub fn opposite(self) -> (back: Direction)
        ensures
            back == self.reversed(),
    {
        match self {
            Direction::Down => Direction::Up,
            Direction::Up => Direction::Down,
            Direction::Left => Direction::Right,
            Direction::Right => Direction::Left,
        }
    }
}

/// A board is well formed when no bit outside the cross is set.
pub open spec fn is_board(v: u64) -> bool {
    v & !VALID_BIT_MASK == 0
}

/// Whether bit `cell` of `v` is set.
pub open spec fn has_peg(v: u64, cell: u64) -> bool {
    cell < 64 && (v >> cell) & 1 == 1
}

/// Whether `cell` is one of the 33 cells of the cross.
pub open spec fn is_cell(cell: u64) -> bool {
    has_peg(VALID_BIT_MASK, cell)
}

/// The pattern `v` moved by one cell, with what leaves the cross dropped.
pub open spec fn shifted(v: u64, direction: Direction) -> u64 {
    match direction {
        Direction::Down => (v >> 8) & VALID_BIT_MASK,
        Direction::Up => (v << 8) & VALID_BIT_MASK,
        Direction::Left => (v << 1) & VALID_BIT_MASK,
        Direction::Right => (v >> 1) & VALID_BIT_MASK,
    }
}

/// The holes of `v`: every cell of the cross that holds no peg.
pub open spec fn holes(v: u64) -> u64 {
    !v & VALID_BIT_MASK
}

/// Whatever is cut down to the cross is a board.
pub proof fn lemma_masked_is_board(x: u64)
    by (bit_vector)
    ensures
        (x & VALID_BIT_MASK) & !VALID_BIT_MASK == 0,
{
}

/// Shifting and taking the holes never leave the cross.
pub proof fn lemma_mask_closure(v: u64, direction: Direction)
    ensures
        is_board(shifted(v, direction)),
        is_board(holes(v)),
{
    lemma_masked_is_board(v >> 8);
    lemma_masked_is_board(v << 8);
    lemma_masked_is_board(v << 1);
    lemma_masked_is_board(v >> 1);
    lemma_masked_is_board(!v);
}

proof fn lemma_shift_bits(v: u64, cell: u64)
    by (bit_vector)
    requires
        cell < 64,
    ensures
        ((((v >> 8) & VALID_BIT_MASK) >> cell) & 1 == 1) == ((VALID_BIT_MASK >> cell) & 1 == 1
            && cell < 56 && (v >> ((cell + 8) as u64)) & 1 == 1),
        ((((v << 8) & VALID_BIT_MASK) >> cell) & 1 == 1) == ((VALID_BIT_MASK >> cell) & 1 == 1
            && cell >= 8 && (v >> ((cell - 8) as u64)) & 1 == 1),
        ((((v << 1) & VALID_BIT_MASK) >> cell) & 1 == 1) == ((VALID_BIT_MASK >> cell) & 1 == 1
            && cell >= 1 && (v >> ((cell - 1) as u64)) & 1 == 1),
        ((((v >> 1) & VALID_BIT_MASK) >> cell) & 1 == 1) == ((VALID_BIT_MASK >> cell) & 1 == 1
            && cell < 63 && (v >> ((cell + 1) as u64)) & 1 == 1),
        (((!v & VALID_BIT_MASK) >> cell) & 1 == 1) == ((VALID_BIT_MASK >> cell) & 1 == 1 && !((v
            >> cell) & 1 == 1)),
{
}

/// The cell from which a peg arrives at `cell` when the board is shifted.
/// Meaningful where `has_source(cell, direction)` holds.
pub open spec fn source_cell(cell: u64, direction: Direction) -> u64 {
    match direction {
        Direction::Down => (cell + 8) as u64,
        Direction::Up => (cell - 8) as u64,
        Direction::Left => (cell - 1) as u64,
        Direction::Right => (cell + 1) as u64,
    }
}

/// Whether a bit position one step against `direction` exists in the word.
pub open spec fn has_source(cell: u64, direction: Direction) -> bool {
    match direction {
        Direction::Down => cell < 56,
        Direction::Up => 8 <= cell < 64,
        Direction::Left => 1 <= cell < 64,
        Direction::Right => cell < 63,
    }
}

/// A shift moves the whole pattern by one cell and clips it to the cross: a
/// cell of the result holds a peg exactly when it lies in the cross and the
/// cell one step behind it held one.
pub proof fn lemma_shifted_cell(v: u64, direction: Direction, cell: u64)
    ensures
        has_peg(shifted(v, direction), cell) == (is_cell(cell) && has_source(cell, direction)
            && has_peg(v, source_cell(cell, direction))),
{
    if cell < 64 {
        lemma_shift_bits(v, cell);
    }
}

/// The holes are exactly the cells of the cross without a peg.
pub proof fn lemma_holes_cell(v: u64, cell: u64)
    ensures
        has_peg(holes(v), cell) == (is_cell(cell) && !has_peg(v, cell)),
{
    if cell < 64 {
        lemma_shift_bits(v, cell);
    }
}

/// Moves every peg one cell towards the higher bits of its row.
pub fn shift_left(v: u64) -> (r: u64)
    ensures
        r == shifted(v, Direction::Left),
        is_board(r),
{
    proof {
        lemma_masked_is_board(v << 1);
    }
    (v << 1) & VALID_BIT_MASK
}

/// Moves every peg one cell towards the lower bits of its row.
pub fn shift_right(v: u64) -> (r: u64)
    ensures
        r == shifted(v, Direction::Right),
        is_board(r),
{
    proof {
        lemma_masked_is_board(v >> 1);
    }
    (v >> 1) & VALID_BIT_MASK
}

/// Moves every peg to the same cell of the next higher row.
pub fn shift_up(v: u64) -> (r: u64)
    ensures
        r == shifted(v, Direction::Up),
        is_board(r),
{
    proof {
        lemma_masked_is_board(v << 8);
    }
    (v << 8) & VALID_BIT_MASK
}

/// Moves every peg to the same cell of the next lower row.
pub fn shift_down(v: u64) -> (r: u64)
    ensures
        r == shifted(v, Direction::Down),
        is_board(r),
{
    proof {
        lemma_masked_is_board(v >> 8);
    }
    (v >> 8) & VALID_BIT_MASK
}

/// Shifts `v` by one cell in the given direction.
pub fn shift(v: u64, direction: Direction) -> (r: u64)
    ensures
        r == shifted(v, direction),
        is_board(r),
{
    match direction {
        Direction::Down => shift_down(v),
        Direction::Up => shift_up(v),
        Direction::Left => shift_left(v),
        Direction::Right => shift_right(v),
    }
}

/// The empty cells of the cross.
pub fn gaps(v: u64) -> (r: u64)
    ensures
        r == holes(v),
        is_board(r),
{
    proof {
        lemma_masked_is_board(!v);
    }
    !v & VALID_BIT_MASK
}

proof fn lemma_word_bits(a: u64, b: u64, c: u64, i: u64)
    by (bit_vector)
    requires
        i < 64,
    ensures
        (0u64 >> i) & 1 == 0,
        (((a & b & c) >> i) & 1 == 1) == ((a >> i) & 1 == 1 && (b >> i) & 1 == 1 && (c >> i) & 1
            == 1),
        a & !VALID_BIT_MASK == 0 && (a >> i) & 1 == 1 ==> (VALID_BIT_MASK >> i) & 1 == 1,
{
}

/// The empty word holds no peg.
pub proof fn lemma_empty_word(cell: u64)
    ensures
        !has_peg(0, cell),
{
    if cell < 64 {
        lemma_word_bits(0, 0, 0, cell);
    }
}

/// A cell is set in the intersection of three patterns exactly when it is
/// set in each.
pub proof fn lemma_common_cell(a: u64, b: u64, c: u64, cell: u64)
    ensures
        has_peg(a & b & c, cell) == (has_peg(a, cell) && has_peg(b, cell) && has_peg(c, cell)),
{
    if cell < 64 {
        lemma_word_bits(a, b, c, cell);
    }
}

/// Every peg of a board stands on a cell of the cross.
pub proof fn lemma_peg_on_cell(v: u64, cell: u64)
    requires
        is_board(v),
        has_peg(v, cell),
    ensures
        is_cell(cell),
{
    lemma_word_bits(v, 0, 0, cell);
}

} // verus!
