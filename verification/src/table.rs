//! The reachability table: one flag for each dense index, set once the board
//! of that index is known to lead to a single remaining peg.
//!
//! The table has a single owner. Flags are only ever set, never cleared.

use vstd::prelude::*;
use vstd::std_specs::bits::{axiom_u64_trailing_zeros, u64_trailing_zeros};
use crate::board::lemma_empty_word;
use crate::index::{lemma_unpack_peg_count, unpack, TABLE_SIZE};
use crate::pegs::{
    lemma_peg_count_clear, lemma_peg_count_set, lemma_peg_count_zero, peg_count,
};
use crate::victory::{complete_through, lemma_seed_complete};

verus! {

/// Whether `zipped` has exactly one bit set, among its lowest `n` bits.
pub open spec fn seed_below(zipped: u64, n: u64) -> bool {
    exists|cell: u64| cell < n && zipped == #[trigger] (1u64 << cell)
}

/// The dense indices that are set before the first jump is looked at: those
/// with exactly one of their 33 bits set.
pub open spec fn is_seed(zipped: u64) -> bool {
    seed_below(zipped, 33)
}

proof fn lemma_single_bit(z: u64, cell: u64)
    by (bit_vector)
    requires
        cell < 64,
    ensures
        (cell < 33) == ((1u64 << cell) < 0x2_0000_0000),
        0u64 | (1u64 << cell) == 1u64 << cell,
        (z & !(1u64 << cell) == 0 && (z >> cell) & 1 == 1) ==> z == 1u64 << cell,
{
}

proof fn lemma_single_bits_differ(a: u64, b: u64)
    by (bit_vector)
    requires
        a < 64,
        b < 64,
        1u64 << a == 1u64 << b,
    ensures
        a == b,
{
}

/// Different cells give different seeds.
pub proof fn lemma_seeds_differ(a: u64, b: u64)
    requires
        a < 33,
        b < 33,
        a != b,
    ensures
        is_seed(1u64 << a),
        is_seed(1u64 << b),
        1u64 << a != 1u64 << b,
{
    if 1u64 << a == 1u64 << b {
        lemma_single_bits_differ(a, b);
    }
}

proof fn lemma_seeds_below_count(n: u64)
    requires
        n <= 33,
    ensures
        Set::new(|z: u64| seed_below(z, n)).finite(),
        Set::new(|z: u64| seed_below(z, n)).len() == n,
    decreases n,
{
    let all = Set::new(|z: u64| seed_below(z, n));
    if n == 0 {
        assert(all =~= Set::<u64>::empty());
    } else {
        let last = (n - 1) as u64;
        let rest = Set::new(|z: u64| seed_below(z, last));
        lemma_seeds_below_count(last);
        assert(!rest.contains(1u64 << last)) by {
            if seed_below(1u64 << last, last) {
                let cell = choose|cell: u64|
                    cell < last && 1u64 << last == #[trigger] (1u64 << cell);
                lemma_single_bits_differ(last, cell);
            }
        }
        assert(all =~= rest.insert(1u64 << last));
    }
}

/// There are exactly 33 seeds.
pub proof fn lemma_seed_count()
    ensures
        Set::new(|z: u64| is_seed(z)).finite(),
        Set::new(|z: u64| is_seed(z)).len() == 33,
{
    lemma_seeds_below_count(33);
    assert(Set::new(|z: u64| is_seed(z)) =~= Set::new(|z: u64| seed_below(z, 33)));
}

/// The seeds are exactly the dense indices of the boards with a single peg.
pub proof fn lemma_seed_is_single_peg(zipped: u64)
    ensures
        is_seed(zipped) <==> zipped < TABLE_SIZE && peg_count(unpack(zipped)) == 1,
{
    if is_seed(zipped) {
        let cell = choose|cell: u64| cell < 33 && zipped == #[trigger] (1u64 << cell);
        lemma_single_bit(zipped, cell);
        lemma_peg_count_zero(0);
        lemma_empty_word(cell);
        lemma_peg_count_set(0, cell);
        lemma_unpack_peg_count(zipped);
    }
    if zipped < TABLE_SIZE && peg_count(unpack(zipped)) == 1 {
        lemma_unpack_peg_count(zipped);
        lemma_peg_count_zero(zipped);
        axiom_u64_trailing_zeros(zipped);
        let cell = u64_trailing_zeros(zipped) as u64;
        lemma_peg_count_clear(zipped, cell);
        lemma_peg_count_zero(zipped & !(1u64 << cell));
        lemma_single_bit(zipped, cell);
        assert(zipped == 1u64 << cell);
    }
}

/// The number of flags that are allocated together.
const CHUNK_SIZE: u64 = 0x1_0000;

/// The number of chunks that make up the table.
const CHUNK_COUNT: u64 = 0x2_0000;

/// The flags are held in chunks; a chunk is allocated when its first flag is
/// set, and as long as it is empty all its flags are clear.
pub struct Table {
    chunks: Vec<Vec<bool>>,
}

spec fn flag_in(chunks: Seq<Vec<bool>>, z: int) -> bool {
    let chunk = chunks[z / CHUNK_SIZE as int];
    chunk@.len() != 0 && chunk@[z % CHUNK_SIZE as int]
}

impl View for Table {
    type V = Seq<bool>;

    /// The flags, by dense index.
    closed spec fn view(&self) -> Seq<bool> {
        Seq::new(TABLE_SIZE as nat, |z: int| flag_in(self.chunks@, z))
    }
}

impl Table {
    /// Whether the table is in order inside; every table handed out by
    /// `new` is, and every method keeps it so.
    pub closed spec fn wf(&self) -> bool {
        &&& self.chunks@.len() == CHUNK_COUNT
        &&& forall|c: int|
            0 <= c < CHUNK_COUNT ==> (#[trigger] self.chunks@[c])@.len() == 0
                || self.chunks@[c]@.len() == CHUNK_SIZE
    }

    /// Every table has one flag for each dense index.
    pub proof fn lemma_len(&self)
        ensures
            self@.len() == TABLE_SIZE,
    {
    }

    /// A table with no flag set.
    pub fn new() -> (table: Table)
        ensures
            table.wf(),
            table@ == Seq::new(TABLE_SIZE as nat, |z: int| false),
    {
        let mut chunks: Vec<Vec<bool>> = Vec::new();
        let mut c: u64 = 0;
        while c < CHUNK_COUNT
            invariant
                c <= CHUNK_COUNT,
                chunks@.len() == c,
                forall|i: int| 0 <= i < c ==> (#[trigger] chunks@[i])@.len() == 0,
            decreases CHUNK_COUNT - c,
        {
            chunks.push(Vec::new());
            c = c + 1;
        }
        let table = Table { chunks };
        assert(table@ =~= Seq::new(TABLE_SIZE as nat, |z: int| false));
        table
    }

    /// Whether the flag of `zipped` is set.
    pub fn get(&self, zipped: u64) -> (flag: bool)
        requires
            self.wf(),
            zipped < TABLE_SIZE,
        ensures
            flag == self@[zipped as int],
    {
        let c: usize = (zipped / CHUNK_SIZE) as usize;
        let o: usize = (zipped % CHUNK_SIZE) as usize;
        let chunk = &self.chunks[c];
        chunk.len() != 0 && chunk[o]
    }

    /// Sets the flag of `zipped`; every other flag stays as it is.
    pub fn mark(&mut self, zipped: u64)
        requires
            old(self).wf(),
            zipped < TABLE_SIZE,
        ensures
            final(self).wf(),
            final(self)@ == old(self)@.update(zipped as int, true),
    {
        let c: usize = (zipped / CHUNK_SIZE) as usize;
        let o: usize = (zipped % CHUNK_SIZE) as usize;
        if self.chunks[c].len() == 0 {
            self.chunks[c] = vec![false; CHUNK_SIZE as usize];
        }
        self.chunks[c][o] = true;
        assert(self@ =~= old(self)@.update(zipped as int, true));
    }

    /// Sets the flag of every board with a single peg. On a table without
    /// any flag this decides every board with at most one peg.
    pub fn seed(&mut self)
        requires
            old(self).wf(),
        ensures
            final(self).wf(),
            forall|z: u64|
                z < TABLE_SIZE ==> #[trigger] final(self)@[z as int] == (old(self)@[z as int]
                    || is_seed(z)),
            forall|z: u64|
                z < TABLE_SIZE && old(self)@[z as int] ==> #[trigger] final(self)@[z as int],
            old(self)@ == Seq::new(TABLE_SIZE as nat, |z: int| false) ==> complete_through(
                final(self)@,
                1,
            ),
    {
        proof {
            self.lemma_len();
        }
        let mut marble_start: u64 = 0;
        while marble_start < 33
            invariant
                marble_start <= 33,
                self.wf(),
                forall|z: u64|
                    z < TABLE_SIZE ==> #[trigger] self@[z as int] == (old(self)@[z as int]
                        || seed_below(z, marble_start)),
            decreases 33 - marble_start,
        {
            proof {
                lemma_single_bit(0, marble_start);
            }
            let ghost before = self@;
            self.mark(1u64 << marble_start);
            marble_start = marble_start + 1;
            assert forall|z: u64| z < TABLE_SIZE implies #[trigger] self@[z as int] == (old(
                self,
            )@[z as int] || seed_below(z, marble_start)) by {
                assert(before[z as int] == (old(self)@[z as int] || seed_below(
                    z,
                    (marble_start - 1) as u64,
                )));
            }
        }
        proof {
            if old(self)@ == Seq::new(TABLE_SIZE as nat, |z: int| false) {
                self.lemma_len();
                lemma_seed_complete(old(self)@, self@);
            }
        }
    }

    /// Sets the flag of each of `winners`.
    pub fn publish(&mut self, winners: &Vec<u64>)
        requires
            old(self).wf(),
            forall|k: int| 0 <= k < winners.len() ==> winners[k] < TABLE_SIZE,
        ensures
            final(self).wf(),
            forall|z: u64|
                z < TABLE_SIZE ==> #[trigger] final(self)@[z as int] == (old(self)@[z as int]
                    || winners@.contains(z)),
            forall|z: u64|
                z < TABLE_SIZE && old(self)@[z as int] ==> #[trigger] final(self)@[z as int],
    {
        proof {
            self.lemma_len();
        }
        let mut k: usize = 0;
        while k < winners.len()
            invariant
                k <= winners.len(),
                self.wf(),
                forall|k: int| 0 <= k < winners.len() ==> winners[k] < TABLE_SIZE,
                forall|z: u64|
                    z < TABLE_SIZE ==> #[trigger] self@[z as int] == (old(self)@[z as int]
                        || winners@.take(k as int).contains(z)),
            decreases winners.len() - k,
        {
            let ghost before = self@;
            self.mark(winners[k]);
            assert forall|z: u64| z < TABLE_SIZE implies #[trigger] self@[z as int] == (old(
                self,
            )@[z as int] || winners@.take(k + 1).contains(z)) by {
                assert(before[z as int] == (old(self)@[z as int] || winners@.take(
                    k as int,
                ).contains(z)));
                assert(winners@.take(k + 1) =~= winners@.take(k as int).push(winners[k as int]));
                if winners@.take(k as int).contains(z) {
                    let j = choose|j: int|
                        0 <= j < k && winners@.take(k as int)[j] == z;
                    assert(winners@.take(k + 1)[j] == z);
                }
                if z == winners[k as int] {
                    assert(winners@.take(k + 1)[k as int] == z);
                }
            }
            k = k + 1;
        }
        assert(winners@.take(k as int) =~= winners@);
    }
}

} // verus!
