//! The dense index: the 33 cells of a board packed into the low 33 bits of a
//! word, row by row, so that every board has its own slot in a table.

use vstd::prelude::*;
use crate::board::{has_peg, is_board, is_cell, VALID_BIT_MASK};
use crate::pegs::{lemma_peg_count_or, lemma_peg_count_shl, peg_count};

verus! {

/// The cells of a row of three.
pub const NARROW_ROW: u64 = 0b111;

/// The cells of a row of seven.
pub const WIDE_ROW: u64 = 0b111_1111;

/// The number of dense indices: two to the power of 33.
pub const TABLE_SIZE: u64 = 0x2_0000_0000;

/// The cells of one row, taken from bit `from` of `word` on.
pub open spec fn row_bits(word: u64, from: u64, row: u64) -> u64 {
    (word >> from) & row
}

/// The dense index of a board: its rows side by side, the first row lowest.
pub open spec fn pack(v: u64) -> u64 {
    row_bits(v, 2, NARROW_ROW) | (row_bits(v, 10, NARROW_ROW) << 3) | (row_bits(v, 16, WIDE_ROW)
        << 6) | (row_bits(v, 24, WIDE_ROW) << 13) | (row_bits(v, 32, WIDE_ROW) << 20) | (row_bits(
        v,
        42,
        NARROW_ROW,
    ) << 27) | (row_bits(v, 50, NARROW_ROW) << 30)
}

/// The board of a dense index: each row put back into its own byte.
pub open spec fn unpack(zipped: u64) -> u64 {
    (row_bits(zipped, 0, NARROW_ROW) << 2) | (row_bits(zipped, 3, NARROW_ROW) << 10) | (row_bits(
        zipped,
        6,
        WIDE_ROW,
    ) << 16) | (row_bits(zipped, 13, WIDE_ROW) << 24) | (row_bits(zipped, 20, WIDE_ROW) << 32) | (
    row_bits(zipped, 27, NARROW_ROW) << 42) | (row_bits(zipped, 30, NARROW_ROW) << 50)
}

/// The cell of the board that bit `bit` of a dense index stands for.
pub open spec fn cell_of(bit: u64) -> u64 {
    if bit < 3 {
        (bit + 2) as u64
    } else if bit < 6 {
        (bit + 7) as u64
    } else if bit < 13 {
        (bit + 10) as u64
    } else if bit < 20 {
        (bit + 11) as u64
    } else if bit < 27 {
        (bit + 12) as u64
    } else if bit < 30 {
        (bit + 15) as u64
    } else {
        (bit + 20) as u64
    }
}

proof fn lemma_index_bits(word: u64, bit: u64)
    by (bit_vector)
    requires
        bit < 33,
    ensures
        cell_of(bit) < 64,
        (VALID_BIT_MASK >> cell_of(bit)) & 1 == 1,
        ((pack(word) >> bit) & 1 == 1) == ((word >> cell_of(bit)) & 1 == 1),
        ((unpack(word) >> cell_of(bit)) & 1 == 1) == ((word >> bit) & 1 == 1),
{
}

/// Bit by bit: each of the 33 bits of a dense index stands for one cell of
/// the cross, and is set exactly when that cell holds a peg.
pub proof fn lemma_index_bit(word: u64, bit: u64)
    requires
        bit < 33,
    ensures
        is_cell(cell_of(bit)),
        has_peg(pack(word), bit) == has_peg(word, cell_of(bit)),
        has_peg(unpack(word), cell_of(bit)) == has_peg(word, bit),
{
    lemma_index_bits(word, bit);
}

/// Packing a board and unpacking the index gives the board back.
pub proof fn lemma_unpack_pack(e: u64)
    by (bit_vector)
    requires
        e & !VALID_BIT_MASK == 0,
    ensures
        unpack(pack(e)) == e,
{
}

/// Unpacking an index and packing the board gives the index back.
pub proof fn lemma_pack_unpack(zipped: u64)
    by (bit_vector)
    requires
        zipped < TABLE_SIZE,
    ensures
        pack(unpack(zipped)) == zipped,
{
}

/// Every word packs to an index below `TABLE_SIZE`, and every word unpacks to
/// a board; only the cells of the cross and the low 33 bits are looked at.
pub proof fn lemma_pack_unpack_range(word: u64)
    by (bit_vector)
    ensures
        pack(word) < TABLE_SIZE,
        unpack(word) & !VALID_BIT_MASK == 0,
        pack(word) == pack(word & VALID_BIT_MASK),
        unpack(word) == unpack(word & 0x1_ffff_ffff),
{
}

/// The dense index of a board.
pub fn zip(v: u64) -> (zipped: u64)
    ensures
        zipped == pack(v),
        zipped < TABLE_SIZE,
        is_board(v) ==> unpack(zipped) == v,
{
    proof {
        lemma_pack_unpack_range(v);
        if is_board(v) {
            lemma_unpack_pack(v);
        }
    }
    ((v >> 2) & NARROW_ROW) | (((v >> 10) & NARROW_ROW) << 3) | (((v >> 16) & WIDE_ROW) << 6) | (((v
        >> 24) & WIDE_ROW) << 13) | (((v >> 32) & WIDE_ROW) << 20) | (((v >> 42) & NARROW_ROW)
        << 27) | (((v >> 50) & NARROW_ROW) << 30)
}

/// The board of a dense index.
pub fn unzip(zipped: u64) -> (v: u64)
    ensures
        v == unpack(zipped),
        is_board(v),
        zipped < TABLE_SIZE ==> pack(v) == zipped,
{
    proof {
        lemma_pack_unpack_range(zipped);
        if zipped < TABLE_SIZE {
            lemma_pack_unpack(zipped);
        }
    }
    let z: u64 = zipped;
    (((z >> 0) & NARROW_ROW) << 2) | (((z >> 3) & NARROW_ROW) << 10) | (((z >> 6) & WIDE_ROW) << 16)
        | (((z >> 13) & WIDE_ROW) << 24) | (((z >> 20) & WIDE_ROW) << 32) | (((z >> 27)
        & NARROW_ROW) << 42) | (((z >> 30) & NARROW_ROW) << 50)
}

/// Seven patterns, each moved to its own place without overlap, hold as many
/// pegs together as they hold apart.
proof fn lemma_peg_count_rows(f: Seq<u64>, s: Seq<u64>)
    requires
        f.len() == 7,
        s.len() == 7,
        forall|k: int| 0 <= k < 7 ==> s[k] < 64 && (#[trigger] f[k] << s[k]) >> s[k] == f[k],
        (f[0] << s[0]) & (f[1] << s[1]) == 0,
        ((f[0] << s[0]) | (f[1] << s[1])) & (f[2] << s[2]) == 0,
        ((f[0] << s[0]) | (f[1] << s[1]) | (f[2] << s[2])) & (f[3] << s[3]) == 0,
        ((f[0] << s[0]) | (f[1] << s[1]) | (f[2] << s[2]) | (f[3] << s[3])) & (f[4] << s[4]) == 0,
        ((f[0] << s[0]) | (f[1] << s[1]) | (f[2] << s[2]) | (f[3] << s[3]) | (f[4] << s[4])) & (f[5]
            << s[5]) == 0,
        ((f[0] << s[0]) | (f[1] << s[1]) | (f[2] << s[2]) | (f[3] << s[3]) | (f[4] << s[4]) | (f[5]
            << s[5])) & (f[6] << s[6]) == 0,
    ensures
        peg_count(
            (f[0] << s[0]) | (f[1] << s[1]) | (f[2] << s[2]) | (f[3] << s[3]) | (f[4] << s[4]) | (
            f[5] << s[5]) | (f[6] << s[6]),
        ) == peg_count(f[0]) + peg_count(f[1]) + peg_count(f[2]) + peg_count(f[3]) + peg_count(f[4])
            + peg_count(f[5]) + peg_count(f[6]),
{
    assert forall|k: int| 0 <= k < 7 implies peg_count(#[trigger] f[k] << s[k]) == peg_count(
        f[k],
    ) by {
        lemma_peg_count_shl(f[k], s[k]);
    }
    let joined0 = f[0] << s[0];
    let joined1 = joined0 | (f[1] << s[1]);
    let joined2 = joined1 | (f[2] << s[2]);
    let joined3 = joined2 | (f[3] << s[3]);
    let joined4 = joined3 | (f[4] << s[4]);
    let joined5 = joined4 | (f[5] << s[5]);
    lemma_peg_count_or(joined0, f[1] << s[1]);
    lemma_peg_count_or(joined1, f[2] << s[2]);
    lemma_peg_count_or(joined2, f[3] << s[3]);
    lemma_peg_count_or(joined3, f[4] << s[4]);
    lemma_peg_count_or(joined4, f[5] << s[5]);
    lemma_peg_count_or(joined5, f[6] << s[6]);
}

/// The rows of an index, lowest first.
spec fn index_rows(z: u64) -> Seq<u64> {
    seq![
        row_bits(z, 0, NARROW_ROW),
        row_bits(z, 3, NARROW_ROW),
        row_bits(z, 6, WIDE_ROW),
        row_bits(z, 13, WIDE_ROW),
        row_bits(z, 20, WIDE_ROW),
        row_bits(z, 27, NARROW_ROW),
        row_bits(z, 30, NARROW_ROW),
    ]
}

proof fn lemma_rows_on_board(z: u64)
    by (bit_vector)
    ensures
        ({
            let f0 = row_bits(z, 0, NARROW_ROW) << 2;
            let f1 = row_bits(z, 3, NARROW_ROW) << 10;
            let f2 = row_bits(z, 6, WIDE_ROW) << 16;
            let f3 = row_bits(z, 13, WIDE_ROW) << 24;
            let f4 = row_bits(z, 20, WIDE_ROW) << 32;
            let f5 = row_bits(z, 27, NARROW_ROW) << 42;
            let f6 = row_bits(z, 30, NARROW_ROW) << 50;
            &&& f0 >> 2 == row_bits(z, 0, NARROW_ROW)
            &&& f1 >> 10 == row_bits(z, 3, NARROW_ROW)
            &&& f2 >> 16 == row_bits(z, 6, WIDE_ROW)
            &&& f3 >> 24 == row_bits(z, 13, WIDE_ROW)
            &&& f4 >> 32 == row_bits(z, 20, WIDE_ROW)
            &&& f5 >> 42 == row_bits(z, 27, NARROW_ROW)
            &&& f6 >> 50 == row_bits(z, 30, NARROW_ROW)
            &&& f0 & f1 == 0
            &&& (f0 | f1) & f2 == 0
            &&& (f0 | f1 | f2) & f3 == 0
            &&& (f0 | f1 | f2 | f3) & f4 == 0
            &&& (f0 | f1 | f2 | f3 | f4) & f5 == 0
            &&& (f0 | f1 | f2 | f3 | f4 | f5) & f6 == 0
        }),
{
}

proof fn lemma_rows_in_index(z: u64)
    by (bit_vector)
    requires
        z < TABLE_SIZE,
    ensures
        ({
            let f0 = row_bits(z, 0, NARROW_ROW) << 0;
            let f1 = row_bits(z, 3, NARROW_ROW) << 3;
            let f2 = row_bits(z, 6, WIDE_ROW) << 6;
            let f3 = row_bits(z, 13, WIDE_ROW) << 13;
            let f4 = row_bits(z, 20, WIDE_ROW) << 20;
            let f5 = row_bits(z, 27, NARROW_ROW) << 27;
            let f6 = row_bits(z, 30, NARROW_ROW) << 30;
            &&& f0 >> 0 == row_bits(z, 0, NARROW_ROW)
            &&& f1 >> 3 == row_bits(z, 3, NARROW_ROW)
            &&& f2 >> 6 == row_bits(z, 6, WIDE_ROW)
            &&& f3 >> 13 == row_bits(z, 13, WIDE_ROW)
            &&& f4 >> 20 == row_bits(z, 20, WIDE_ROW)
            &&& f5 >> 27 == row_bits(z, 27, NARROW_ROW)
            &&& f6 >> 30 == row_bits(z, 30, NARROW_ROW)
            &&& f0 & f1 == 0
            &&& (f0 | f1) & f2 == 0
            &&& (f0 | f1 | f2) & f3 == 0
            &&& (f0 | f1 | f2 | f3) & f4 == 0
            &&& (f0 | f1 | f2 | f3 | f4) & f5 == 0
            &&& (f0 | f1 | f2 | f3 | f4 | f5) & f6 == 0
            &&& (f0 | f1 | f2 | f3 | f4 | f5 | f6) == z
        }),
{
}

/// A board holds as many pegs as its index has set bits.
pub proof fn lemma_unpack_peg_count(zipped: u64)
    requires
        zipped < TABLE_SIZE,
    ensures
        peg_count(unpack(zipped)) == peg_count(zipped),
{
    let f = index_rows(zipped);
    lemma_rows_on_board(zipped);
    lemma_peg_count_rows(f, seq![2u64, 10u64, 16u64, 24u64, 32u64, 42u64, 50u64]);
    lemma_rows_in_index(zipped);
    lemma_peg_count_rows(f, seq![0u64, 3u64, 6u64, 13u64, 20u64, 27u64, 30u64]);
}

/// The index of a board has as many set bits as the board holds pegs.
pub proof fn lemma_pack_peg_count(v: u64)
    requires
        is_board(v),
    ensures
        peg_count(pack(v)) == peg_count(v),
{
    lemma_pack_unpack_range(v);
    lemma_unpack_pack(v);
    lemma_unpack_peg_count(pack(v));
}

} // verus!
