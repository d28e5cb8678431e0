//! A way to play the board with every cell filled but the center down to a
//! single peg, jump by jump.

use vstd::prelude::*;
use crate::board::{has_peg, lemma_empty_word, Direction};
use crate::index::{lemma_pack_unpack_range, unpack, TABLE_SIZE};
use crate::moves::{jump, landing_cells};
use crate::pegs::{lemma_peg_count_set, lemma_peg_count_zero, peg_count};
use crate::victory::{
    complete_through, leads_to_victory, lemma_jump_extends, lemma_solvable_peg_count, solvable_in,
};

verus! {

/// The dense index of the board with a peg on every cell but the center.
pub const CENTER_HOLE: u64 = 0x1_fffe_ffff;

/// The jumps of the solution, first to last: where each lands, and the board
/// it leaves.
proof fn lemma_solution_jumps()
    by (bit_vector)
    ensures
        unpack(CENTER_HOLE) == 0x001c_1c7f_777f_1c1cu64,
        has_peg(landing_cells(0x001c_1c7f_777f_1c1cu64, Direction::Down), 27),
        jump(0x001c_1c7f_777f_1c1cu64, 27, Direction::Down) == 0x001c_1477_7f7f_1c1cu64,
        has_peg(landing_cells(0x001c_1477_7f7f_1c1cu64, Direction::Up), 35),
        jump(0x001c_1477_7f7f_1c1cu64, 35, Direction::Up) == 0x001c_147f_7777_1c1cu64,
        has_peg(landing_cells(0x001c_147f_7777_1c1cu64, Direction::Up), 19),
        jump(0x001c_147f_7777_1c1cu64, 19, Direction::Up) == 0x001c_147f_777f_1414u64,
        has_peg(landing_cells(0x001c_147f_777f_1414u64, Direction::Left), 27),
        jump(0x001c_147f_777f_1414u64, 27, Direction::Left) == 0x001c_147f_797f_1414u64,
        has_peg(landing_cells(0x001c_147f_797f_1414u64, Direction::Down), 11),
        jump(0x001c_147f_797f_1414u64, 11, Direction::Down) == 0x001c_147f_7177_1c14u64,
        has_peg(landing_cells(0x001c_147f_7177_1c14u64, Direction::Down), 26),
        jump(0x001c_147f_7177_1c14u64, 26, Direction::Down) == 0x001c_107b_7577_1c14u64,
        has_peg(landing_cells(0x001c_107b_7577_1c14u64, Direction::Left), 19),
        jump(0x001c_107b_7577_1c14u64, 19, Direction::Left) == 0x001c_107b_7579_1c14u64,
        has_peg(landing_cells(0x001c_107b_7579_1c14u64, Direction::Up), 18),
        jump(0x001c_107b_7579_1c14u64, 18, Direction::Up) == 0x001c_107b_757d_1810u64,
        has_peg(landing_cells(0x001c_107b_757d_1810u64, Direction::Down), 10),
        jump(0x001c_107b_757d_1810u64, 10, Direction::Down) == 0x001c_107b_7179_1c10u64,
        has_peg(landing_cells(0x001c_107b_7179_1c10u64, Direction::Left), 34),
        jump(0x001c_107b_7179_1c10u64, 34, Direction::Left) == 0x001c_107c_7179_1c10u64,
        has_peg(landing_cells(0x001c_107c_7179_1c10u64, Direction::Up), 32),
        jump(0x001c_107c_7179_1c10u64, 32, Direction::Up) == 0x001c_107d_7078_1c10u64,
        has_peg(landing_cells(0x001c_107d_7078_1c10u64, Direction::Right), 33),
        jump(0x001c_107d_7078_1c10u64, 33, Direction::Right) == 0x001c_1073_7078_1c10u64,
        has_peg(landing_cells(0x001c_1073_7078_1c10u64, Direction::Left), 34),
        jump(0x001c_1073_7078_1c10u64, 34, Direction::Left) == 0x001c_1074_7078_1c10u64,
        has_peg(landing_cells(0x001c_1074_7078_1c10u64, Direction::Right), 35),
        jump(0x001c_1074_7078_1c10u64, 35, Direction::Right) == 0x001c_104c_7078_1c10u64,
        has_peg(landing_cells(0x001c_104c_7078_1c10u64, Direction::Down), 36),
        jump(0x001c_104c_7078_1c10u64, 36, Direction::Down) == 0x000c_005c_7078_1c10u64,
        has_peg(landing_cells(0x000c_005c_7078_1c10u64, Direction::Up), 44),
        jump(0x000c_005c_7078_1c10u64, 44, Direction::Up) == 0x000c_104c_6078_1c10u64,
        has_peg(landing_cells(0x000c_104c_6078_1c10u64, Direction::Up), 28),
        jump(0x000c_104c_6078_1c10u64, 28, Direction::Up) == 0x000c_104c_7068_0c10u64,
        has_peg(landing_cells(0x000c_104c_7068_0c10u64, Direction::Left), 12),
        jump(0x000c_104c_7068_0c10u64, 12, Direction::Left) == 0x000c_104c_7068_1010u64,
        has_peg(landing_cells(0x000c_104c_7068_1010u64, Direction::Up), 20),
        jump(0x000c_104c_7068_1010u64, 20, Direction::Up) == 0x000c_104c_7078_0000u64,
        has_peg(landing_cells(0x000c_104c_7078_0000u64, Direction::Down), 12),
        jump(0x000c_104c_7078_0000u64, 12, Direction::Down) == 0x000c_104c_6068_1000u64,
        has_peg(landing_cells(0x000c_104c_6068_1000u64, Direction::Left), 52),
        jump(0x000c_104c_6068_1000u64, 52, Direction::Left) == 0x0010_104c_6068_1000u64,
        has_peg(landing_cells(0x0010_104c_6068_1000u64, Direction::Down), 36),
        jump(0x0010_104c_6068_1000u64, 36, Direction::Down) == 0x0000_005c_6068_1000u64,
        has_peg(landing_cells(0x0000_005c_6068_1000u64, Direction::Right), 20),
        jump(0x0000_005c_6068_1000u64, 20, Direction::Right) == 0x0000_005c_6018_1000u64,
        has_peg(landing_cells(0x0000_005c_6018_1000u64, Direction::Down), 22),
        jump(0x0000_005c_6018_1000u64, 22, Direction::Down) == 0x0000_001c_2058_1000u64,
        has_peg(landing_cells(0x0000_001c_2058_1000u64, Direction::Left), 21),
        jump(0x0000_001c_2058_1000u64, 21, Direction::Left) == 0x0000_001c_2060_1000u64,
        has_peg(landing_cells(0x0000_001c_2060_1000u64, Direction::Right), 20),
        jump(0x0000_001c_2060_1000u64, 20, Direction::Right) == 0x0000_001c_2010_1000u64,
        has_peg(landing_cells(0x0000_001c_2010_1000u64, Direction::Up), 28),
        jump(0x0000_001c_2010_1000u64, 28, Direction::Up) == 0x0000_001c_3000_0000u64,
        has_peg(landing_cells(0x0000_001c_3000_0000u64, Direction::Up), 44),
        jump(0x0000_001c_3000_0000u64, 44, Direction::Up) == 0x0000_100c_2000_0000u64,
        has_peg(landing_cells(0x0000_100c_2000_0000u64, Direction::Left), 36),
        jump(0x0000_100c_2000_0000u64, 36, Direction::Left) == 0x0000_1010_2000_0000u64,
        has_peg(landing_cells(0x0000_1010_2000_0000u64, Direction::Down), 28),
        jump(0x0000_1010_2000_0000u64, 28, Direction::Down) == 0x0000_0000_3000_0000u64,
        has_peg(landing_cells(0x0000_0000_3000_0000u64, Direction::Left), 30),
        jump(0x0000_0000_3000_0000u64, 30, Direction::Left) == 0x0000_0000_4000_0000u64,
        0u64 | (1u64 << 30) == 0x0000_0000_4000_0000u64,
{
}

/// The center hole board can be played down to a single peg, in 31 jumps.
pub proof fn lemma_center_hole_is_solvable()
    ensures
        solvable_in(unpack(CENTER_HOLE), 31),
        leads_to_victory(unpack(CENTER_HOLE)),
{
    lemma_solution_jumps();
    lemma_peg_count_zero(0);
    lemma_empty_word(30);
    lemma_peg_count_set(0, 30);
    assert(solvable_in(0x0000_0000_4000_0000u64, 0));
    lemma_jump_extends(0x0000_0000_3000_0000u64, Direction::Left, 30, 0);
    lemma_jump_extends(0x0000_1010_2000_0000u64, Direction::Down, 28, 1);
    lemma_jump_extends(0x0000_100c_2000_0000u64, Direction::Left, 36, 2);
    lemma_jump_extends(0x0000_001c_3000_0000u64, Direction::Up, 44, 3);
    lemma_jump_extends(0x0000_001c_2010_1000u64, Direction::Up, 28, 4);
    lemma_jump_extends(0x0000_001c_2060_1000u64, Direction::Right, 20, 5);
    lemma_jump_extends(0x0000_001c_2058_1000u64, Direction::Left, 21, 6);
    lemma_jump_extends(0x0000_005c_6018_1000u64, Direction::Down, 22, 7);
    lemma_jump_extends(0x0000_005c_6068_1000u64, Direction::Right, 20, 8);
    lemma_jump_extends(0x0010_104c_6068_1000u64, Direction::Down, 36, 9);
    lemma_jump_extends(0x000c_104c_6068_1000u64, Direction::Left, 52, 10);
    lemma_jump_extends(0x000c_104c_7078_0000u64, Direction::Down, 12, 11);
    lemma_jump_extends(0x000c_104c_7068_1010u64, Direction::Up, 20, 12);
    lemma_jump_extends(0x000c_104c_7068_0c10u64, Direction::Left, 12, 13);
    lemma_jump_extends(0x000c_104c_6078_1c10u64, Direction::Up, 28, 14);
    lemma_jump_extends(0x000c_005c_7078_1c10u64, Direction::Up, 44, 15);
    lemma_jump_extends(0x001c_104c_7078_1c10u64, Direction::Down, 36, 16);
    lemma_jump_extends(0x001c_1074_7078_1c10u64, Direction::Right, 35, 17);
    lemma_jump_extends(0x001c_1073_7078_1c10u64, Direction::Left, 34, 18);
    lemma_jump_extends(0x001c_107d_7078_1c10u64, Direction::Right, 33, 19);
    lemma_jump_extends(0x001c_107c_7179_1c10u64, Direction::Up, 32, 20);
    lemma_jump_extends(0x001c_107b_7179_1c10u64, Direction::Left, 34, 21);
    lemma_jump_extends(0x001c_107b_757d_1810u64, Direction::Down, 10, 22);
    lemma_jump_extends(0x001c_107b_7579_1c14u64, Direction::Up, 18, 23);
    lemma_jump_extends(0x001c_107b_7577_1c14u64, Direction::Left, 19, 24);
    lemma_jump_extends(0x001c_147f_7177_1c14u64, Direction::Down, 26, 25);
    lemma_jump_extends(0x001c_147f_797f_1414u64, Direction::Down, 11, 26);
    lemma_jump_extends(0x001c_147f_777f_1414u64, Direction::Left, 27, 27);
    lemma_jump_extends(0x001c_147f_7777_1c1cu64, Direction::Up, 19, 28);
    lemma_jump_extends(0x001c_1477_7f7f_1c1cu64, Direction::Up, 35, 29);
    lemma_jump_extends(0x001c_1c7f_777f_1c1cu64, Direction::Down, 27, 30);
}

/// Once every board with up to 32 pegs is decided, the flag of the center
/// hole board is set.
pub proof fn lemma_center_hole_is_marked(marks: Seq<bool>)
    requires
        complete_through(marks, 32),
    ensures
        marks[CENTER_HOLE as int],
{
    lemma_center_hole_is_solvable();
    lemma_solution_jumps();
    lemma_pack_unpack_range(CENTER_HOLE);
    lemma_solvable_peg_count(unpack(CENTER_HOLE), 31);
    assert(CENTER_HOLE < TABLE_SIZE);
    assert(marks[CENTER_HOLE as int] == (peg_count(unpack(CENTER_HOLE)) <= 32 && leads_to_victory(
        unpack(CENTER_HOLE),
    )));
}

} // verus!
