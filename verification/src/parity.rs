//! An obstruction to victory: the rule of three.
//!
//! Colour the cells of the cross by their diagonal, with three colours in
//! turn. Any three cells in a line then have three different colours, so a
//! jump, which changes three cells in a line, changes the number of pegs of
//! each colour by one. A single peg has an odd number of pegs of one colour
//! and an even number of the other two. So a board on which the three
//! numbers are all odd or all even can never be played down to a single peg.

use vstd::prelude::*;
use vstd::std_specs::bits::{axiom_u64_trailing_zeros, u64_trailing_zeros};
use crate::board::{has_peg, is_board, Direction, VALID_BIT_MASK};
use crate::index::{unpack, TABLE_SIZE};
use crate::moves::{
    is_jump, jump, landing_cells, lemma_jump_legal, lemma_successor_is_jump, successors,
};
use crate::pegs::{lemma_peg_count_clear, lemma_peg_count_zero, peg_count};
use crate::victory::{complete_through, leads_to_victory, solvable_in};

verus! {

/// The cells of the first colour: those whose row and column add up to a
/// multiple of three.
pub const FIRST_COLOUR: u64 = 0x0008_1024_4912_0408;

/// The cells of the second colour.
pub const SECOND_COLOUR: u64 = 0x0010_0449_1224_0810;

/// The cells of the third colour.
pub const THIRD_COLOUR: u64 = 0x0004_0812_2449_1004;

/// The dense index of the board with a peg in the center, a hole on each of
/// the four cells next to it, and a peg on every other cell.
pub const PLUS_OF_HOLES: u64 = 0x1_ff7d_7dff;

/// Whether `v` holds an odd number of pegs on the cells of `colour`.
pub open spec fn odd_on(v: u64, colour: u64) -> bool {
    peg_count(v & colour) % 2 == 1
}

/// Whether the numbers of pegs of the three colours are all odd or all even.
pub open spec fn balanced(v: u64) -> bool {
    odd_on(v, FIRST_COLOUR) == odd_on(v, SECOND_COLOUR) && odd_on(v, SECOND_COLOUR) == odd_on(
        v,
        THIRD_COLOUR,
    )
}

/// The lowest bit of the sum of the bits of `x`, by folding the word onto
/// itself.
spec fn folded(x: u64) -> u64 {
    let a = x ^ (x >> 32);
    let b = a ^ (a >> 16);
    let c = b ^ (b >> 8);
    let d = c ^ (c >> 4);
    let e = d ^ (d >> 2);
    let f = e ^ (e >> 1);
    f & 1
}

proof fn lemma_folded_bits(x: u64, cell: u64)
    by (bit_vector)
    requires
        cell < 64,
    ensures
        folded(0) == 0,
        folded(x) == 0 || folded(x) == 1,
        (x >> cell) & 1 == 1 ==> folded(x & !(1u64 << cell)) != folded(x) && x & !(1u64 << cell)
            < x,
{
}

proof fn lemma_folded(x: u64)
    ensures
        folded(x) == peg_count(x) % 2,
    decreases x,
{
    lemma_folded_bits(x, 0);
    if x == 0 {
        lemma_peg_count_zero(0);
    } else {
        axiom_u64_trailing_zeros(x);
        let cell = u64_trailing_zeros(x) as u64;
        lemma_folded_bits(x, cell);
        lemma_peg_count_clear(x, cell);
        lemma_folded(x & !(1u64 << cell));
        lemma_folded_bits(x & !(1u64 << cell), 0);
    }
}

proof fn lemma_jump_folds(v: u64, cell: u64, colour: u64)
    by (bit_vector)
    requires
        v & !VALID_BIT_MASK == 0,
        colour == FIRST_COLOUR || colour == SECOND_COLOUR || colour == THIRD_COLOUR,
    ensures
        has_peg(landing_cells(v, Direction::Down), cell) ==> folded(
            jump(v, cell, Direction::Down) & colour,
        ) != folded(v & colour),
        has_peg(landing_cells(v, Direction::Up), cell) ==> folded(
            jump(v, cell, Direction::Up) & colour,
        ) != folded(v & colour),
        has_peg(landing_cells(v, Direction::Left), cell) ==> folded(
            jump(v, cell, Direction::Left) & colour,
        ) != folded(v & colour),
        has_peg(landing_cells(v, Direction::Right), cell) ==> folded(
            jump(v, cell, Direction::Right) & colour,
        ) != folded(v & colour),
{
}

proof fn lemma_examples_fold(cell: u64)
    by (bit_vector)
    ensures
        cell < 64 && (VALID_BIT_MASK >> cell) & 1 == 1 ==> !(folded((1u64 << cell) & FIRST_COLOUR)
            == folded((1u64 << cell) & SECOND_COLOUR) && folded((1u64 << cell) & SECOND_COLOUR)
            == folded((1u64 << cell) & THIRD_COLOUR)),
        unpack(PLUS_OF_HOLES) & !VALID_BIT_MASK == 0,
        folded(unpack(PLUS_OF_HOLES) & FIRST_COLOUR) == 1,
        folded(unpack(PLUS_OF_HOLES) & SECOND_COLOUR) == 1,
        folded(unpack(PLUS_OF_HOLES) & THIRD_COLOUR) == 1,
{
}

/// A jump changes the number of pegs of each colour by one.
pub proof fn lemma_jump_flips_colours(v: u64, direction: Direction, cell: u64)
    requires
        is_board(v),
        has_peg(landing_cells(v, direction), cell),
    ensures
        odd_on(jump(v, cell, direction), FIRST_COLOUR) != odd_on(v, FIRST_COLOUR),
        odd_on(jump(v, cell, direction), SECOND_COLOUR) != odd_on(v, SECOND_COLOUR),
        odd_on(jump(v, cell, direction), THIRD_COLOUR) != odd_on(v, THIRD_COLOUR),
        balanced(jump(v, cell, direction)) == balanced(v),
{
    let s = jump(v, cell, direction);
    lemma_jump_folds(v, cell, FIRST_COLOUR);
    lemma_jump_folds(v, cell, SECOND_COLOUR);
    lemma_jump_folds(v, cell, THIRD_COLOUR);
    lemma_folded(v & FIRST_COLOUR);
    lemma_folded(v & SECOND_COLOUR);
    lemma_folded(v & THIRD_COLOUR);
    lemma_folded(s & FIRST_COLOUR);
    lemma_folded(s & SECOND_COLOUR);
    lemma_folded(s & THIRD_COLOUR);
}

/// A board with a single peg is not balanced.
pub proof fn lemma_single_peg_is_unbalanced(v: u64)
    requires
        is_board(v),
        peg_count(v) == 1,
    ensures
        !balanced(v),
{
    lemma_peg_count_zero(v);
    axiom_u64_trailing_zeros(v);
    let cell = u64_trailing_zeros(v) as u64;
    lemma_peg_count_clear(v, cell);
    lemma_peg_count_zero(v & !(1u64 << cell));
    lemma_one_bit(v, cell);
    lemma_examples_fold(cell);
    lemma_folded(v & FIRST_COLOUR);
    lemma_folded(v & SECOND_COLOUR);
    lemma_folded(v & THIRD_COLOUR);
}

proof fn lemma_one_bit(v: u64, cell: u64)
    by (bit_vector)
    requires
        cell < 64,
        v & !(1u64 << cell) == 0,
        (v >> cell) & 1 == 1,
        v & !VALID_BIT_MASK == 0,
    ensures
        v == 1u64 << cell,
        (VALID_BIT_MASK >> cell) & 1 == 1,
{
}

/// A balanced board is no number of jumps away from a single peg.
pub proof fn lemma_balanced_is_stuck(v: u64, jumps: nat)
    requires
        is_board(v),
        balanced(v),
    ensures
        !solvable_in(v, jumps),
    decreases jumps,
{
    if jumps == 0 {
        if peg_count(v) == 1 {
            lemma_single_peg_is_unbalanced(v);
        }
    } else {
        assert forall|k: int| 0 <= k < successors(v).len() implies !solvable_in(
            #[trigger] successors(v)[k],
            (jumps - 1) as nat,
        ) by {
            lemma_successor_is_jump(v, k);
            let (direction, cell) = choose|direction: Direction, cell: u64|
                is_jump(v, successors(v)[k], direction, cell);
            lemma_jump_legal(v, direction, cell);
            lemma_jump_flips_colours(v, direction, cell);
            lemma_balanced_is_stuck(successors(v)[k], (jumps - 1) as nat);
        }
    }
}

/// A balanced board does not lead to victory.
pub proof fn lemma_balanced_never_wins(v: u64)
    requires
        is_board(v),
        balanced(v),
    ensures
        !leads_to_victory(v),
{
    assert forall|jumps: nat| !solvable_in(v, jumps) by {
        lemma_balanced_is_stuck(v, jumps);
    }
}

/// The board with a plus of holes around the center peg holds an odd number
/// of pegs of each colour, and so cannot be played down to a single peg.
pub proof fn lemma_plus_of_holes_never_wins()
    ensures
        balanced(unpack(PLUS_OF_HOLES)),
        !leads_to_victory(unpack(PLUS_OF_HOLES)),
{
    let v = unpack(PLUS_OF_HOLES);
    lemma_examples_fold(0);
    lemma_folded(v & FIRST_COLOUR);
    lemma_folded(v & SECOND_COLOUR);
    lemma_folded(v & THIRD_COLOUR);
    lemma_balanced_never_wins(v);
}

/// However far the phases have come, the flag of the board with a plus of
/// holes is not set.
pub proof fn lemma_plus_of_holes_is_not_marked(marks: Seq<bool>, num_marbles: nat)
    requires
        complete_through(marks, num_marbles),
    ensures
        !marks[PLUS_OF_HOLES as int],
{
    lemma_plus_of_holes_never_wins();
    assert(PLUS_OF_HOLES < TABLE_SIZE);
    assert(marks[PLUS_OF_HOLES as int] == (peg_count(unpack(PLUS_OF_HOLES)) <= num_marbles
        && leads_to_victory(unpack(PLUS_OF_HOLES))));
}

} // verus!
