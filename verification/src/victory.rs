//! What the table is about: whether a board can be played down to a single
//! peg, and how that is decided phase by phase.

use vstd::prelude::*;
use crate::board::{
    has_peg, holes, is_board, lemma_common_cell, lemma_empty_word, shifted, Direction,
    VALID_BIT_MASK,
};
use crate::driver::{is_winner, wins_by_jump};
use crate::index::{
    lemma_pack_unpack_range, lemma_unpack_pack, lemma_unpack_peg_count, pack, unpack, TABLE_SIZE,
};
use crate::moves::{
    is_jump, jump, landing_cells, lemma_jump_is_successor, lemma_no_moves,
    lemma_successor_is_jump, lemma_successors_legal, successors,
};
use crate::pegs::{bit_count, lemma_peg_count_or, lemma_peg_count_zero, peg_count};
use crate::table::{is_seed, lemma_seed_is_single_peg};

verus! {

/// Whether `v` can be brought down to a single peg by exactly `jumps` jumps.
pub open spec fn solvable_in(v: u64, jumps: nat) -> bool
    decreases jumps,
{
    if jumps == 0 {
        peg_count(v) == 1
    } else {
        exists|k: int|
            0 <= k < successors(v).len() && solvable_in(
                #[trigger] successors(v)[k],
                (jumps - 1) as nat,
            )
    }
}

/// Whether `v` can be brought down to a single peg by zero or more jumps.
pub open spec fn leads_to_victory(v: u64) -> bool {
    exists|jumps: nat| solvable_in(v, jumps)
}

/// A board with a single peg is at the goal.
pub proof fn lemma_single_peg_wins(v: u64)
    requires
        peg_count(v) == 1,
    ensures
        leads_to_victory(v),
{
    assert(solvable_in(v, 0));
}

/// A board that is not at the goal leads to victory exactly when one of its
/// successors does.
pub proof fn lemma_victory_step(v: u64)
    requires
        peg_count(v) != 1,
    ensures
        leads_to_victory(v) <==> exists|k: int|
            0 <= k < successors(v).len() && leads_to_victory(#[trigger] successors(v)[k]),
{
    if leads_to_victory(v) {
        let jumps = choose|jumps: nat| solvable_in(v, jumps);
        let k = choose|k: int|
            0 <= k < successors(v).len() && solvable_in(
                #[trigger] successors(v)[k],
                (jumps - 1) as nat,
            );
        assert(solvable_in(successors(v)[k], (jumps - 1) as nat));
        assert(leads_to_victory(successors(v)[k]));
    }
    if exists|k: int|
        0 <= k < successors(v).len() && leads_to_victory(#[trigger] successors(v)[k]) {
        let k = choose|k: int|
            0 <= k < successors(v).len() && leads_to_victory(#[trigger] successors(v)[k]);
        let jumps = choose|jumps: nat| solvable_in(successors(v)[k], jumps);
        assert(solvable_in(v, jumps + 1));
    }
}

/// A board without any peg has no move and does not lead to victory.
pub proof fn lemma_empty_board_is_lost(v: u64)
    requires
        peg_count(v) == 0,
    ensures
        successors(v) == Seq::<u64>::empty(),
        !leads_to_victory(v),
{
    lemma_no_moves(v);
    lemma_victory_step(v);
}

/// Every jump takes one peg: a board that is `jumps` jumps away from a single
/// peg holds `jumps + 1` pegs.
pub proof fn lemma_solvable_peg_count(v: u64, jumps: nat)
    requires
        is_board(v),
        solvable_in(v, jumps),
    ensures
        peg_count(v) == jumps + 1,
    decreases jumps,
{
    if jumps > 0 {
        let k = choose|k: int|
            0 <= k < successors(v).len() && solvable_in(
                #[trigger] successors(v)[k],
                (jumps - 1) as nat,
            );
        lemma_successors_legal(v);
        lemma_solvable_peg_count(successors(v)[k], (jumps - 1) as nat);
    }
}

proof fn lemma_board_and_holes(v: u64, i: u64)
    by (bit_vector)
    requires
        i < 64,
    ensures
        v & !VALID_BIT_MASK == 0 ==> v & (!v & VALID_BIT_MASK) == 0 && v | (!v & VALID_BIT_MASK)
            == VALID_BIT_MASK,
        unpack(0x1_ffff_ffffu64) == VALID_BIT_MASK,
        ((0x1_ffff_ffffu64 >> i) & 1 == 1) == (i < 33),
{
}

proof fn lemma_bit_count_low_ones(n: nat)
    ensures
        bit_count(0x1_ffff_ffffu64, n) == if n <= 33 {
            n
        } else {
            33
        },
    decreases n,
{
    if n > 0 {
        lemma_bit_count_low_ones((n - 1) as nat);
        if n <= 64 {
            lemma_board_and_holes(0, (n - 1) as u64);
        }
    }
}

/// The cross has 33 cells, and the pegs and holes of a board fill it.
pub proof fn lemma_pegs_and_holes(v: u64)
    requires
        is_board(v),
    ensures
        peg_count(VALID_BIT_MASK) == 33,
        peg_count(v) + peg_count(holes(v)) == 33,
{
    lemma_board_and_holes(v, 0);
    lemma_bit_count_low_ones(64);
    lemma_unpack_peg_count(0x1_ffff_ffffu64);
    lemma_peg_count_or(v, holes(v));
}

/// The full board has no hole to jump into, so it has no successor and does
/// not lead to victory.
pub proof fn lemma_full_board_stuck(v: u64)
    requires
        is_board(v),
        peg_count(v) >= 33,
    ensures
        successors(v) == Seq::<u64>::empty(),
        !leads_to_victory(v),
{
    lemma_pegs_and_holes(v);
    lemma_peg_count_zero(holes(v));
    if successors(v).len() > 0 {
        lemma_successor_is_jump(v, 0);
        let (direction, cell) = choose|direction: Direction, cell: u64|
            is_jump(v, successors(v)[0], direction, cell);
        let once = shifted(v, direction);
        lemma_common_cell(holes(v), once, shifted(once, direction), cell);
        lemma_empty_word(cell);
    }
    assert(successors(v) =~= Seq::<u64>::empty());
    lemma_victory_step(v);
}

/// The state of the table once every board with up to `num_marbles` pegs is
/// decided and no other flag is set.
pub open spec fn complete_through(marks: Seq<bool>, num_marbles: nat) -> bool {
    &&& marks.len() == TABLE_SIZE
    &&& forall|z: u64|
        z < TABLE_SIZE ==> #[trigger] marks[z as int] == (peg_count(unpack(z)) <= num_marbles
            && leads_to_victory(unpack(z)))
}

/// Seeding an empty table decides every board with at most one peg.
pub proof fn lemma_seed_complete(before: Seq<bool>, after: Seq<bool>)
    requires
        before.len() == TABLE_SIZE,
        after.len() == TABLE_SIZE,
        forall|z: u64| z < TABLE_SIZE ==> !#[trigger] before[z as int],
        forall|z: u64|
            z < TABLE_SIZE ==> #[trigger] after[z as int] == (before[z as int] || is_seed(z)),
    ensures
        complete_through(after, 1),
{
    assert forall|z: u64| z < TABLE_SIZE implies #[trigger] after[z as int] == (peg_count(
        unpack(z),
    ) <= 1 && leads_to_victory(unpack(z))) by {
        let v = unpack(z);
        assert(!before[z as int]);
        lemma_seed_is_single_peg(z);
        if peg_count(v) == 1 {
            lemma_single_peg_wins(v);
        } else if peg_count(v) == 0 {
            lemma_empty_board_is_lost(v);
        }
    }
}

/// A phase decides the boards with `num_marbles` pegs: if every board with
/// fewer pegs is decided before it, and it sets exactly the flags of its
/// winners, then every board with up to `num_marbles` pegs is decided after
/// it.
pub proof fn lemma_phase_complete(before: Seq<bool>, after: Seq<bool>, num_marbles: nat)
    requires
        num_marbles >= 2,
        complete_through(before, (num_marbles - 1) as nat),
        after.len() == TABLE_SIZE,
        forall|z: u64|
            z < TABLE_SIZE ==> #[trigger] after[z as int] == (before[z as int] || is_winner(
                before,
                z,
                num_marbles,
            )),
    ensures
        complete_through(after, num_marbles),
{
    assert forall|z: u64| z < TABLE_SIZE implies #[trigger] after[z as int] == (peg_count(
        unpack(z),
    ) <= num_marbles && leads_to_victory(unpack(z))) by {
        let v = unpack(z);
        assert(before[z as int] == (peg_count(v) <= num_marbles - 1 && leads_to_victory(v)));
        if peg_count(v) == num_marbles {
            lemma_pack_unpack_range(z);
            lemma_successors_legal(v);
            lemma_victory_step(v);
            assert forall|k: int| 0 <= k < successors(v).len() implies before[pack(
                #[trigger] successors(v)[k],
            ) as int] == leads_to_victory(successors(v)[k]) by {
                let s = successors(v)[k];
                lemma_pack_unpack_range(s);
                lemma_unpack_pack(s);
                assert(before[pack(s) as int] == (peg_count(unpack(pack(s))) <= num_marbles - 1
                    && leads_to_victory(unpack(pack(s)))));
            }
            assert(wins_by_jump(before, v) == leads_to_victory(v));
        }
    }
}

/// After the phase for 32 pegs the table is final: a flag is set exactly
/// when its board can be played down to a single peg.
pub proof fn lemma_table_complete(marks: Seq<bool>)
    requires
        complete_through(marks, 32),
    ensures
        forall|z: u64|
            z < TABLE_SIZE ==> #[trigger] marks[z as int] == leads_to_victory(unpack(z)),
{
    assert forall|z: u64| z < TABLE_SIZE implies #[trigger] marks[z as int] == leads_to_victory(
        unpack(z),
    ) by {
        let v = unpack(z);
        lemma_pack_unpack_range(z);
        if peg_count(v) > 32 {
            lemma_full_board_stuck(v);
        }
    }
}

/// A jump onto a landing cell, followed by a way to win in `jumps` jumps, is
/// a way to win in one jump more.
pub proof fn lemma_jump_extends(v: u64, direction: Direction, cell: u64, jumps: nat)
    requires
        has_peg(landing_cells(v, direction), cell),
        solvable_in(jump(v, cell, direction), jumps),
    ensures
        solvable_in(v, jumps + 1),
{
    lemma_jump_is_successor(v, direction, cell);
    let k = choose|k: int|
        0 <= k < successors(v).len() && successors(v)[k] == jump(v, cell, direction);
    assert(solvable_in(successors(v)[k], jumps));
}

} // verus!
