//! The move generator: every board that one jump away from a given board.
//!
//! A jump in a direction lands on a hole, where the two cells behind the hole
//! (against the direction) both hold a peg. The peg two cells behind moves
//! into the hole and the peg it passes over leaves the board.

use vstd::prelude::*;
use vstd::std_specs::bits::axiom_u64_trailing_zeros;
use crate::board::{
    gaps, has_peg, has_source, holes, is_board, is_cell, lemma_common_cell, lemma_empty_word,
    lemma_holes_cell, lemma_peg_on_cell, lemma_shifted_cell, shift, shifted, source_cell,
    Direction, VALID_BIT_MASK,
};
use crate::pegs::{
    bit_count, lemma_bit_count_positive, lemma_peg_count_clear, lemma_peg_count_set, peg_count,
};

verus! {

/// The cells on which a jump in `direction` can land: holes with a peg one
/// cell behind and a peg two cells behind.
pub open spec fn landing_cells(v: u64, direction: Direction) -> u64 {
    holes(v) & shifted(v, direction) & shifted(shifted(v, direction), direction)
}

/// The board after the jump in `direction` that lands on `cell`: the landing
/// cell filled, the two cells behind it emptied.
pub open spec fn jump(v: u64, cell: u64, direction: Direction) -> u64 {
    let landing = 1u64 << cell;
    let back = direction.reversed();
    (v | landing) & !shifted(landing, back) & !shifted(shifted(landing, back), back)
}

/// The jumps in `direction` that land on one of the lowest `n` bit positions,
/// by ascending landing cell.
pub open spec fn jumps_below(v: u64, direction: Direction, n: nat) -> Seq<u64>
    decreases n,
{
    if n == 0 {
        Seq::empty()
    } else {
        let rest = jumps_below(v, direction, (n - 1) as nat);
        if n <= 64 && has_peg(landing_cells(v, direction), (n - 1) as u64) {
            rest.push(jump(v, (n - 1) as u64, direction))
        } else {
            rest
        }
    }
}

/// All jumps in `direction`, by ascending landing cell.
pub open spec fn jumps(v: u64, direction: Direction) -> Seq<u64> {
    jumps_below(v, direction, 64)
}

/// All boards one jump away from `v`: the jumps down, up, left and right.
pub open spec fn successors(v: u64) -> Seq<u64> {
    jumps(v, Direction::Down) + jumps(v, Direction::Up) + jumps(v, Direction::Left) + jumps(
        v,
        Direction::Right,
    )
}

proof fn lemma_jumps_below_skip(v: u64, direction: Direction, lo: nat, hi: nat)
    requires
        lo <= hi <= 64,
        forall|i: u64| lo <= i < hi ==> !has_peg(landing_cells(v, direction), i),
    ensures
        jumps_below(v, direction, hi) == jumps_below(v, direction, lo),
    decreases hi,
{
    if hi > lo {
        lemma_jumps_below_skip(v, direction, lo, (hi - 1) as nat);
        assert(!has_peg(landing_cells(v, direction), (hi - 1) as u64));
    }
}

/// Appends to `moves` every board reached from `v` by one jump in
/// `direction`, by ascending landing cell.
pub fn get_possible_moves(v: u64, moves: &mut Vec<u64>, direction: Direction)
    ensures
        final(moves)@ == old(moves)@ + jumps(v, direction),
{
    let back = direction.opposite();
    let mut valid_targets: u64 = gaps(v) & shift(v, direction) & shift(
        shift(v, direction),
        direction,
    );
    let ghost all = valid_targets;
    let ghost done: nat = 0;
    assert(old(moves)@ + jumps_below(v, direction, 0) =~= old(moves)@);
    while valid_targets != 0
        invariant
            done <= 64,
            back == direction.reversed(),
            all == landing_cells(v, direction),
            moves@ == old(moves)@ + jumps_below(v, direction, done),
            forall|i: u64|
                i < 64 ==> #[trigger] has_peg(valid_targets, i) == (i >= done && has_peg(all, i)),
        decreases 64 - done,
    {
        let last_bit: u32 = valid_targets.trailing_zeros();
        proof {
            axiom_u64_trailing_zeros(valid_targets);
        }
        let cell: u64 = last_bit as u64;
        let bit_as_board_pos: u64 = 1u64 << cell;
        let new_board: u64 = (v | bit_as_board_pos) & !shift(bit_as_board_pos, back) & !shift(
            shift(bit_as_board_pos, back),
            back,
        );
        proof {
            assert(has_peg(valid_targets, cell));
            assert forall|i: u64| done <= i < cell implies !has_peg(all, i) by {
                assert((valid_targets >> i) & 1 == 0);
                assert(!has_peg(valid_targets, i));
            }
            lemma_jumps_below_skip(v, direction, done, cell as nat);
            assert(new_board == jump(v, cell, direction));
            assert(old(moves)@ + jumps_below(v, direction, (cell + 1) as nat) =~= (old(moves)@
                + jumps_below(v, direction, cell as nat)).push(new_board));
            lemma_peg_count_clear(valid_targets, cell);
            assert forall|i: u64| i < 64 implies #[trigger] has_peg(
                valid_targets & !bit_as_board_pos,
                i,
            ) == (i >= cell + 1 && has_peg(all, i)) by {
                if i < cell {
                    assert((valid_targets >> i) & 1 == 0);
                }
                assert(has_peg(valid_targets, i) == (i >= done && has_peg(all, i)));
            }
            done = (cell + 1) as nat;
        }
        moves.push(new_board);
        valid_targets = valid_targets & !bit_as_board_pos;
    }
    proof {
        assert forall|i: u64| done <= i < 64 implies !has_peg(all, i) by {
            lemma_empty_word(i);
        }
        lemma_jumps_below_skip(v, direction, done, 64);
    }
}

/// Every board reached from `v` by one jump: down, up, left, then right, and
/// within a direction by ascending landing cell.
pub fn for_each_possible_move(v: u64) -> (moves: Vec<u64>)
    ensures
        moves@ == successors(v),
        is_board(v) ==> forall|k: int|
            0 <= k < moves.len() ==> is_board(#[trigger] moves[k]) && peg_count(moves[k]) + 1
                == peg_count(v),
{
    proof {
        if is_board(v) {
            lemma_successors_legal(v);
        }
    }
    let mut moves: Vec<u64> = Vec::new();
    get_possible_moves(v, &mut moves, Direction::Down);
    get_possible_moves(v, &mut moves, Direction::Up);
    get_possible_moves(v, &mut moves, Direction::Left);
    get_possible_moves(v, &mut moves, Direction::Right);
    assert(moves@ =~= successors(v));
    moves
}

/// A cell is a landing cell exactly when it is a hole of the cross, the next
/// cell behind it is a cell of the cross with a peg, and the cell behind that
/// one holds a peg too.
pub proof fn lemma_landing_cell(v: u64, direction: Direction, cell: u64)
    ensures
        has_peg(landing_cells(v, direction), cell) == ({
            let over = source_cell(cell, direction);
            let from = source_cell(over, direction);
            &&& is_cell(cell)
            &&& !has_peg(v, cell)
            &&& has_source(cell, direction)
            &&& is_cell(over)
            &&& has_peg(v, over)
            &&& has_source(over, direction)
            &&& has_peg(v, from)
        }),
{
    let once = shifted(v, direction);
    let over = source_cell(cell, direction);
    lemma_common_cell(holes(v), once, shifted(once, direction), cell);
    lemma_holes_cell(v, cell);
    lemma_shifted_cell(v, direction, cell);
    lemma_shifted_cell(once, direction, cell);
    lemma_shifted_cell(v, direction, over);
}

proof fn lemma_single_peg_moves(cell: u64, d: u64)
    by (bit_vector)
    requires
        cell < 64,
        d == 1 || d == 8,
    ensures
        cell + d < 64 && (VALID_BIT_MASK >> ((cell + d) as u64)) & 1 == 1 ==> ((1u64 << cell) << d)
            & VALID_BIT_MASK == 1u64 << ((cell + d) as u64),
        cell >= d && (VALID_BIT_MASK >> ((cell - d) as u64)) & 1 == 1 ==> ((1u64 << cell) >> d)
            & VALID_BIT_MASK == 1u64 << ((cell - d) as u64),
{
}

proof fn lemma_jump_keeps_board(v: u64, cell: u64, over: u64, from: u64)
    by (bit_vector)
    requires
        v & !VALID_BIT_MASK == 0,
        cell < 64,
        (VALID_BIT_MASK >> cell) & 1 == 1,
    ensures
        (((v | (1u64 << cell)) & !over) & !from) & !VALID_BIT_MASK == 0,
{
}

/// A single peg shifted against `direction` moves to the cell behind it,
/// where that is a cell of the cross.
proof fn lemma_single_peg_shifted(cell: u64, direction: Direction)
    requires
        cell < 64,
        has_source(cell, direction),
        is_cell(source_cell(cell, direction)),
    ensures
        shifted(1u64 << cell, direction.reversed()) == 1u64 << source_cell(cell, direction),
{
    lemma_single_peg_moves(cell, 1);
    lemma_single_peg_moves(cell, 8);
}

/// What a jump does, cell by cell: the landing cell is filled, the two cells
/// behind it are emptied, and every other cell stays as it was. The result is
/// a board with exactly one peg fewer.
pub proof fn lemma_jump_legal(v: u64, direction: Direction, cell: u64)
    requires
        is_board(v),
        has_peg(landing_cells(v, direction), cell),
    ensures
        is_board(jump(v, cell, direction)),
        peg_count(jump(v, cell, direction)) + 1 == peg_count(v),
        forall|i: u64|
            #[trigger] has_peg(jump(v, cell, direction), i) == (i == cell || (i != source_cell(
                cell,
                direction,
            ) && i != source_cell(source_cell(cell, direction), direction) && has_peg(v, i))),
{
    let over = source_cell(cell, direction);
    let from = source_cell(over, direction);
    lemma_landing_cell(v, direction, cell);
    lemma_peg_on_cell(v, from);
    lemma_single_peg_shifted(cell, direction);
    lemma_single_peg_shifted(over, direction);
    let filled = v | (1u64 << cell);
    let passed = filled & !(1u64 << over);
    assert(jump(v, cell, direction) == passed & !(1u64 << from));
    lemma_peg_count_set(v, cell);
    lemma_peg_count_clear(filled, over);
    lemma_peg_count_clear(passed, from);
    lemma_jump_keeps_board(v, cell, 1u64 << over, 1u64 << from);
}

/// Whether `s` is the board reached from `v` by the jump in `direction` that
/// lands on `cell`.
pub open spec fn is_jump(v: u64, s: u64, direction: Direction, cell: u64) -> bool {
    has_peg(landing_cells(v, direction), cell) && s == jump(v, cell, direction)
}

proof fn lemma_jumps_below_sound(v: u64, direction: Direction, n: nat, k: int)
    requires
        0 <= k < jumps_below(v, direction, n).len(),
    ensures
        exists|cell: u64| cell < n && is_jump(v, jumps_below(v, direction, n)[k], direction, cell),
    decreases n,
{
    let rest = jumps_below(v, direction, (n - 1) as nat);
    if k < rest.len() {
        lemma_jumps_below_sound(v, direction, (n - 1) as nat, k);
        let cell = choose|cell: u64| cell < n - 1 && is_jump(v, rest[k], direction, cell);
        assert(is_jump(v, jumps_below(v, direction, n)[k], direction, cell));
    } else {
        assert(is_jump(v, jumps_below(v, direction, n)[k], direction, (n - 1) as u64));
    }
}

proof fn lemma_jumps_below_complete(v: u64, direction: Direction, n: nat, cell: u64)
    requires
        cell < n,
        has_peg(landing_cells(v, direction), cell),
    ensures
        jumps_below(v, direction, n).contains(jump(v, cell, direction)),
    decreases n,
{
    let rest = jumps_below(v, direction, (n - 1) as nat);
    let all = jumps_below(v, direction, n);
    if cell < n - 1 {
        lemma_jumps_below_complete(v, direction, (n - 1) as nat, cell);
        let k = choose|k: int| 0 <= k < rest.len() && rest[k] == jump(v, cell, direction);
        assert(all[k] == jump(v, cell, direction));
    } else {
        assert(all[all.len() - 1] == jump(v, cell, direction));
    }
}

proof fn lemma_jumps_below_len(v: u64, direction: Direction, n: nat)
    ensures
        jumps_below(v, direction, n).len() == bit_count(landing_cells(v, direction), n),
    decreases n,
{
    if n > 0 {
        lemma_jumps_below_len(v, direction, (n - 1) as nat);
    }
}

/// There is one jump in a direction for each landing cell.
pub proof fn lemma_jumps_len(v: u64, direction: Direction)
    ensures
        jumps(v, direction).len() == peg_count(landing_cells(v, direction)),
{
    lemma_jumps_below_len(v, direction, 64);
}

/// Which direction the `k`-th successor was found in, and where in that
/// direction's list it stands.
proof fn lemma_successor_place(v: u64, k: int) -> (place: (Direction, int))
    requires
        0 <= k < successors(v).len(),
    ensures
        0 <= place.1 < jumps(v, place.0).len(),
        successors(v)[k] == jumps(v, place.0)[place.1],
{
    let down = jumps(v, Direction::Down);
    let up = jumps(v, Direction::Up);
    let left = jumps(v, Direction::Left);
    if k < down.len() {
        (Direction::Down, k)
    } else if k < down.len() + up.len() {
        (Direction::Up, k - down.len())
    } else if k < down.len() + up.len() + left.len() {
        (Direction::Left, k - down.len() - up.len())
    } else {
        (Direction::Right, k - down.len() - up.len() - left.len())
    }
}

/// Every successor is a jump: it lands on a landing cell of some direction.
pub proof fn lemma_successor_is_jump(v: u64, k: int)
    requires
        0 <= k < successors(v).len(),
    ensures
        exists|direction: Direction, cell: u64| is_jump(v, successors(v)[k], direction, cell),
{
    let place = lemma_successor_place(v, k);
    lemma_jumps_below_sound(v, place.0, 64, place.1);
    let cell = choose|cell: u64| cell < 64 && is_jump(v, jumps(v, place.0)[place.1], place.0, cell);
    assert(is_jump(v, successors(v)[k], place.0, cell));
}

/// Every jump is a successor: no landing cell of any direction is left out.
pub proof fn lemma_jump_is_successor(v: u64, direction: Direction, cell: u64)
    requires
        has_peg(landing_cells(v, direction), cell),
    ensures
        successors(v).contains(jump(v, cell, direction)),
{
    lemma_jumps_below_complete(v, direction, 64, cell);
    let list = jumps(v, direction);
    let k = choose|k: int| 0 <= k < list.len() && list[k] == jump(v, cell, direction);
    let down = jumps(v, Direction::Down);
    let up = jumps(v, Direction::Up);
    let left = jumps(v, Direction::Left);
    let at = match direction {
        Direction::Down => k,
        Direction::Up => down.len() + k,
        Direction::Left => down.len() + up.len() + k,
        Direction::Right => down.len() + up.len() + left.len() + k,
    };
    assert(successors(v)[at] == jump(v, cell, direction));
}

/// Every successor of a board is a board with exactly one peg fewer; it
/// differs from the board only inside the cross.
pub proof fn lemma_successors_legal(v: u64)
    requires
        is_board(v),
    ensures
        forall|k: int|
            0 <= k < successors(v).len() ==> is_board(#[trigger] successors(v)[k]) && peg_count(
                successors(v)[k],
            ) + 1 == peg_count(v) && (successors(v)[k] ^ v) & !VALID_BIT_MASK == 0,
{
    assert forall|k: int| 0 <= k < successors(v).len() implies is_board(
        #[trigger] successors(v)[k],
    ) && peg_count(successors(v)[k]) + 1 == peg_count(v) && (successors(v)[k] ^ v)
        & !VALID_BIT_MASK == 0 by {
        lemma_successor_is_jump(v, k);
        let (direction, cell) = choose|direction: Direction, cell: u64|
            is_jump(v, successors(v)[k], direction, cell);
        lemma_jump_legal(v, direction, cell);
        lemma_boards_differ_on_cross(v, successors(v)[k]);
    }
}

proof fn lemma_boards_differ_on_cross(a: u64, b: u64)
    by (bit_vector)
    requires
        a & !VALID_BIT_MASK == 0,
        b & !VALID_BIT_MASK == 0,
    ensures
        (b ^ a) & !VALID_BIT_MASK == 0,
{
}

/// A board with fewer than two pegs has no successor.
pub proof fn lemma_no_moves(v: u64)
    requires
        peg_count(v) <= 1,
    ensures
        successors(v) == Seq::<u64>::empty(),
{
    if successors(v).len() > 0 {
        lemma_successor_is_jump(v, 0);
        let (direction, cell) = choose|direction: Direction, cell: u64|
            is_jump(v, successors(v)[0], direction, cell);
        let over = source_cell(cell, direction);
        let from = source_cell(over, direction);
        lemma_landing_cell(v, direction, cell);
        lemma_peg_count_clear(v, over);
        lemma_bit_count_positive(v & !(1u64 << over), from, 64);
    }
    assert(successors(v) =~= Seq::<u64>::empty());
}

} // verus!
