//! Counting pegs: the number of set bits of a word, as a sum over its cells.

use vstd::prelude::*;
use vstd::std_specs::bits::{axiom_u64_trailing_zeros, u64_trailing_zeros};
use crate::board::{has_peg, lemma_empty_word};

verus! {

/// The number of set bits among the lowest `n` bits of `v`.
pub open spec fn bit_count(v: u64, n: nat) -> nat
    decreases n,
{
    if n == 0 {
        0
    } else {
        bit_count(v, (n - 1) as nat) + if n <= 64 && has_peg(v, (n - 1) as u64) {
            1nat
        } else {
            0nat
        }
    }
}

/// The number of pegs on a board: the number of set bits of the word.
pub open spec fn peg_count(v: u64) -> nat {
    bit_count(v, 64)
}

/// `u64::count_ones` returns the number of ones in the binary representation
/// of its argument; nothing else is claimed of it.
pub assume_specification[ u64::count_ones ](i: u64) -> (r: u32)
    ensures
        r == peg_count(i),
;

/// Setting one clear bit raises the count by one.
proof fn lemma_bit_count_one_more(a: u64, b: u64, cell: u64, n: nat)
    requires
        cell < 64,
        has_peg(a, cell),
        !has_peg(b, cell),
        forall|i: u64| i < 64 && i != cell ==> has_peg(a, i) == has_peg(b, i),
    ensures
        bit_count(a, n) == bit_count(b, n) + if cell < n {
            1nat
        } else {
            0nat
        },
    decreases n,
{
    if n > 0 {
        lemma_bit_count_one_more(a, b, cell, (n - 1) as nat);
        if n <= 64 && n - 1 != cell {
            assert(has_peg(a, (n - 1) as u64) == has_peg(b, (n - 1) as u64));
        }
    }
}

/// The count of a union of two words without a common bit is the sum of
/// their counts.
proof fn lemma_bit_count_disjoint(a: u64, b: u64, c: u64, n: nat)
    requires
        forall|i: u64| i < 64 ==> has_peg(c, i) == (has_peg(a, i) || has_peg(b, i)),
        forall|i: u64| i < 64 ==> !(has_peg(a, i) && has_peg(b, i)),
    ensures
        bit_count(c, n) == bit_count(a, n) + bit_count(b, n),
    decreases n,
{
    if n > 0 {
        lemma_bit_count_disjoint(a, b, c, (n - 1) as nat);
        if n <= 64 {
            let i = (n - 1) as u64;
            assert(has_peg(c, i) == (has_peg(a, i) || has_peg(b, i)));
            assert(!(has_peg(a, i) && has_peg(b, i)));
        }
    }
}

/// A word whose `cell` is set counts at least one bit beyond that cell.
pub proof fn lemma_bit_count_positive(v: u64, cell: u64, n: nat)
    requires
        has_peg(v, cell),
        cell < n,
    ensures
        bit_count(v, n) >= 1,
    decreases n,
{
    if n - 1 != cell {
        lemma_bit_count_positive(v, cell, (n - 1) as nat);
    }
}

/// Only the empty word has no set bit.
pub proof fn lemma_peg_count_zero(v: u64)
    ensures
        peg_count(v) == 0 <==> v == 0,
{
    if v == 0 {
        assert forall|i: u64| i < 64 implies !has_peg(0u64, i) by {
            lemma_empty_word(i);
        }
        lemma_bit_count_zero_word(64);
    } else {
        axiom_u64_trailing_zeros(v);
        let cell = u64_trailing_zeros(v) as u64;
        lemma_bit_count_positive(v, cell, 64);
    }
}

proof fn lemma_bit_count_zero_word(n: nat)
    requires
        forall|i: u64| i < 64 ==> !has_peg(0u64, i),
    ensures
        bit_count(0u64, n) == 0,
    decreases n,
{
    if n > 0 {
        lemma_bit_count_zero_word((n - 1) as nat);
        if n <= 64 {
            assert(!has_peg(0u64, (n - 1) as u64));
        }
    }
}

proof fn lemma_or_bits(a: u64, b: u64, i: u64)
    by (bit_vector)
    requires
        a & b == 0,
        i < 64,
    ensures
        (((a | b) >> i) & 1 == 1) == (((a >> i) & 1 == 1) || ((b >> i) & 1 == 1)),
        !(((a >> i) & 1 == 1) && ((b >> i) & 1 == 1)),
{
}

/// Pegs of two patterns that share no cell add up.
pub proof fn lemma_peg_count_or(a: u64, b: u64)
    requires
        a & b == 0,
    ensures
        peg_count(a | b) == peg_count(a) + peg_count(b),
{
    assert forall|i: u64| i < 64 implies has_peg(a | b, i) == (has_peg(a, i) || has_peg(b, i))
        && !(has_peg(a, i) && has_peg(b, i)) by {
        lemma_or_bits(a, b, i);
    }
    lemma_bit_count_disjoint(a, b, a | b, 64);
}

proof fn lemma_shl_bits(x: u64, s: u64, i: u64)
    by (bit_vector)
    requires
        s < 64,
        i < 64,
        (x << s) >> s == x,
    ensures
        (((x << s) >> i) & 1 == 1) == (i >= s && (x >> ((i - s) as u64)) & 1 == 1),
        i + s >= 64 ==> (x >> i) & 1 == 0,
{
}

proof fn lemma_bit_count_shl(x: u64, s: u64, n: nat)
    requires
        s < 64,
        (x << s) >> s == x,
        n <= 64,
    ensures
        bit_count(x << s, n) == if n <= s {
            0
        } else {
            bit_count(x, (n - s) as nat)
        },
    decreases n,
{
    if n > 0 {
        lemma_bit_count_shl(x, s, (n - 1) as nat);
        lemma_shl_bits(x, s, (n - 1) as u64);
    }
}

proof fn lemma_bit_count_high_clear(x: u64, lo: nat, n: nat)
    requires
        lo <= n <= 64,
        forall|i: u64| lo <= i < 64 ==> !has_peg(x, i),
    ensures
        bit_count(x, n) == bit_count(x, lo),
    decreases n,
{
    if n > lo {
        lemma_bit_count_high_clear(x, lo, (n - 1) as nat);
        assert(!has_peg(x, (n - 1) as u64));
    }
}

/// Moving a pattern to higher cells keeps its pegs, as long as none falls
/// off the end of the word.
pub proof fn lemma_peg_count_shl(x: u64, s: u64)
    requires
        s < 64,
        (x << s) >> s == x,
    ensures
        peg_count(x << s) == peg_count(x),
{
    lemma_bit_count_shl(x, s, 64);
    assert forall|i: u64| 64 - s <= i < 64 implies !has_peg(x, i) by {
        lemma_shl_bits(x, s, i);
    }
    lemma_bit_count_high_clear(x, (64 - s) as nat, 64);
}

proof fn lemma_set_clear_bits(v: u64, cell: u64, i: u64)
    by (bit_vector)
    requires
        cell < 64,
        i < 64,
    ensures
        (((v | (1u64 << cell)) >> i) & 1 == 1) == (i == cell || (v >> i) & 1 == 1),
        (((v & !(1u64 << cell)) >> i) & 1 == 1) == (i != cell && (v >> i) & 1 == 1),
{
}

/// Putting a peg into an empty cell adds one peg.
pub proof fn lemma_peg_count_set(v: u64, cell: u64)
    requires
        cell < 64,
        !has_peg(v, cell),
    ensures
        has_peg(v | (1u64 << cell), cell),
        forall|i: u64| i != cell ==> has_peg(v | (1u64 << cell), i) == has_peg(v, i),
        peg_count(v | (1u64 << cell)) == peg_count(v) + 1,
{
    let a = v | (1u64 << cell);
    assert forall|i: u64| i < 64 implies has_peg(a, i) == (i == cell || has_peg(v, i)) by {
        lemma_set_clear_bits(v, cell, i);
    }
    lemma_bit_count_one_more(a, v, cell, 64);
}

/// Taking a peg out of a cell removes one peg.
pub proof fn lemma_peg_count_clear(v: u64, cell: u64)
    requires
        cell < 64,
        has_peg(v, cell),
    ensures
        !has_peg(v & !(1u64 << cell), cell),
        forall|i: u64| i != cell ==> has_peg(v & !(1u64 << cell), i) == has_peg(v, i),
        peg_count(v & !(1u64 << cell)) + 1 == peg_count(v),
{
    let b = v & !(1u64 << cell);
    assert forall|i: u64| i < 64 implies has_peg(b, i) == (i != cell && has_peg(v, i)) by {
        lemma_set_clear_bits(v, cell, i);
    }
    lemma_bit_count_one_more(v, b, cell, 64);
}

} // verus!
