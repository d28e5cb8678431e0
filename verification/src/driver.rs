//! The phased driver: one phase for each number of pegs, from 2 to 32.
//!
//! A phase looks at every board with a given number of pegs and finds those
//! with a successor whose flag is set; those are the winners of the phase.
//! The index space is cut into blocks that can be scanned independently,
//! since a scan only reads the table. Once every block is scanned, the
//! winners are published and the next phase can begin.

use vstd::prelude::*;
use crate::index::{
    lemma_pack_unpack_range, lemma_unpack_pack, lemma_unpack_peg_count, pack, unpack, unzip, zip,
    TABLE_SIZE,
};
use crate::moves::{for_each_possible_move, lemma_successors_legal, successors};
use crate::pegs::peg_count;
use crate::table::Table;
use crate::victory::{complete_through, lemma_phase_complete};

verus! {

/// Whether some successor of `v` has its flag set in `marks`.
pub open spec fn wins_by_jump(marks: Seq<bool>, v: u64) -> bool {
    exists|k: int| 0 <= k < successors(v).len() && marks[pack(#[trigger] successors(v)[k]) as int]
}

/// Whether a phase for `num_marbles` pegs sets the flag of `zipped`: the
/// board has that many pegs, and a successor with its flag set.
pub open spec fn is_winner(marks: Seq<bool>, zipped: u64, num_marbles: nat) -> bool {
    peg_count(unpack(zipped)) == num_marbles && wins_by_jump(marks, unpack(zipped))
}

/// The number of dense indices from `start` up to `end` whose board has
/// exactly `num_marbles` pegs.
pub open spec fn boards_with_pegs(start: u64, end: u64, num_marbles: nat) -> nat
    decreases end,
{
    if start >= end {
        0
    } else {
        boards_with_pegs(start, (end - 1) as u64, num_marbles) + if peg_count(
            unpack((end - 1) as u64),
        ) == num_marbles {
            1nat
        } else {
            0nat
        }
    }
}

/// The winners among the dense indices from `start` up to `end`, ascending.
pub open spec fn winners_in(marks: Seq<bool>, start: u64, end: u64, num_marbles: nat) -> Seq<u64>
    decreases end,
{
    if start >= end {
        Seq::empty()
    } else {
        let rest = winners_in(marks, start, (end - 1) as u64, num_marbles);
        if is_winner(marks, (end - 1) as u64, num_marbles) {
            rest.push((end - 1) as u64)
        } else {
            rest
        }
    }
}

/// Whether the board of `board_configuration` has a successor whose flag is
/// set.
pub fn board_wins(table: &Table, board_configuration: u64) -> (victory_found: bool)
    requires
        table.wf(),
    ensures
        victory_found == wins_by_jump(table@, unpack(board_configuration)),
{
    let moves = for_each_possible_move(unzip(board_configuration));
    let mut victory_found = false;
    let mut k: usize = 0;
    while k < moves.len()
        invariant
            k <= moves.len(),
            table.wf(),
            victory_found == exists|j: int|
                0 <= j < k && table@[pack(#[trigger] moves@[j]) as int],
        decreases moves.len() - k,
    {
        let zipped_board = zip(moves[k]);
        let flag = table.get(zipped_board);
        victory_found = victory_found || flag;
        k = k + 1;
    }
    victory_found
}

/// What the scan of one block found, as plain values.
pub struct BlockSummary {
    /// The first dense index of the block.
    pub start: u64,
    /// The dense index behind the last one of the block.
    pub end: u64,
    /// The number of pegs looked for.
    pub num_marbles: nat,
    /// How many boards of the block have that number of pegs.
    pub boards_of_this_size: nat,
    /// The dense indices of the block whose flag is to be set, ascending.
    pub winners: Seq<u64>,
}

impl BlockSummary {
    /// Whether every winner lies in the block and has the number of pegs
    /// looked for.
    pub open spec fn winners_fit(self) -> bool {
        forall|i: int|
            0 <= i < self.winners.len() ==> self.start <= (#[trigger] self.winners[i]) < self.end
                && peg_count(unpack(self.winners[i])) == self.num_marbles
    }
}

/// What the scan of one block found. A report is made by `scan_block` and
/// never changed, so its counts are those of its block.
pub struct BlockReport {
    start: u64,
    end: u64,
    num_marbles: u32,
    boards_of_this_size: u64,
    winners: Vec<u64>,
}

impl View for BlockReport {
    type V = BlockSummary;

    closed spec fn view(&self) -> BlockSummary {
        BlockSummary {
            start: self.start,
            end: self.end,
            num_marbles: self.num_marbles as nat,
            boards_of_this_size: self.boards_of_this_size as nat,
            winners: self.winners@,
        }
    }
}

impl BlockReport {
    #[verifier::type_invariant]
    spec fn well_formed(&self) -> bool {
        &&& self.start <= self.end <= TABLE_SIZE
        &&& self.boards_of_this_size == boards_with_pegs(
            self.start,
            self.end,
            self.num_marbles as nat,
        )
        &&& self.winners@.len() <= self.boards_of_this_size
        &&& forall|i: int|
            0 <= i < self.winners@.len() ==> self.start <= (#[trigger] self.winners@[i]) < self.end
                && peg_count(unpack(self.winners@[i])) == self.num_marbles
    }

    /// The first dense index of the block.
    pub fn start(&self) -> (start: u64)
        ensures
            start == self@.start,
            start <= self@.end <= TABLE_SIZE,
    {
        proof {
            use_type_invariant(self);
        }
        self.start
    }

    /// The dense index behind the last one of the block.
    pub fn end(&self) -> (end: u64)
        ensures
            end == self@.end,
            self@.start <= end <= TABLE_SIZE,
    {
        proof {
            use_type_invariant(self);
        }
        self.end
    }

    /// The number of pegs that the scan looked for.
    pub fn num_marbles(&self) -> (num_marbles: u32)
        ensures
            num_marbles == self@.num_marbles,
    {
        self.num_marbles
    }

    /// How many boards of the block have the number of pegs looked for.
    pub fn boards_of_this_size(&self) -> (count: u64)
        ensures
            count == self@.boards_of_this_size,
            count == boards_with_pegs(self@.start, self@.end, self@.num_marbles),
    {
        proof {
            use_type_invariant(self);
        }
        self.boards_of_this_size
    }

    /// How many of those boards have a successor whose flag is set.
    pub fn num_solutions(&self) -> (count: u64)
        ensures
            count == self@.winners.len(),
            count <= self@.boards_of_this_size,
    {
        proof {
            use_type_invariant(self);
        }
        self.winners.len() as u64
    }

    /// The dense indices of the block whose flag is to be set, ascending.
    pub fn winners(&self) -> (winners: &Vec<u64>)
        ensures
            winners@ == self@.winners,
            self@.winners_fit(),
            forall|i: int| 0 <= i < winners.len() ==> #[trigger] winners[i] < TABLE_SIZE,
    {
        proof {
            use_type_invariant(self);
        }
        &self.winners
    }
}

/// Scans the dense indices from `start` up to `end` for boards with
/// `num_marbles` pegs that have a successor whose flag is set. The table is
/// only read.
pub fn scan_block(table: &Table, start: u64, end: u64, num_marbles: u32) -> (report: BlockReport)
    requires
        table.wf(),
        start <= end <= TABLE_SIZE,
    ensures
        report@.start == start,
        report@.end == end,
        report@.num_marbles == num_marbles,
        report@.boards_of_this_size == boards_with_pegs(start, end, num_marbles as nat),
        report@.winners == winners_in(table@, start, end, num_marbles as nat),
        report@.winners.len() <= report@.boards_of_this_size,
        report@.winners_fit(),
{
    let mut boards_of_this_size: u64 = 0;
    let mut winners: Vec<u64> = Vec::new();
    let mut board_configuration: u64 = start;
    while board_configuration < end
        invariant
            table.wf(),
            start <= board_configuration <= end <= TABLE_SIZE,
            boards_of_this_size == boards_with_pegs(start, board_configuration, num_marbles as nat),
            winners@ == winners_in(table@, start, board_configuration, num_marbles as nat),
            winners.len() <= boards_of_this_size <= board_configuration - start,
        decreases end - board_configuration,
    {
        proof {
            lemma_unpack_peg_count(board_configuration);
        }
        if board_configuration.count_ones() == num_marbles {
            boards_of_this_size = boards_of_this_size + 1;
            if board_wins(table, board_configuration) {
                winners.push(board_configuration);
            }
        }
        board_configuration = board_configuration + 1;
    }
    proof {
        lemma_winners_in_ascending(table@, start, end, num_marbles as nat);
        assert forall|i: int| 0 <= i < winners@.len() implies peg_count(
            unpack(#[trigger] winners@[i]),
        ) == num_marbles by {
            lemma_winners_in_contains(table@, start, end, num_marbles as nat, winners@[i]);
        }
    }
    BlockReport { start, end, num_marbles, boards_of_this_size, winners }
}

/// The counters of one phase, summed up block by block from dense index 0
/// on, as plain values.
pub struct PhaseSummary {
    /// The number of pegs of the phase.
    pub num_marbles: nat,
    /// The dense index up to which the blocks have been counted.
    pub scanned: u64,
    /// How many boards counted so far have that number of pegs.
    pub boards_of_this_size: nat,
    /// How many of those have a successor whose flag was set.
    pub num_solutions: nat,
}

/// The counters of one phase. They are to be read once every block of the
/// phase has been counted, that is when `scanned` has reached `TABLE_SIZE`.
pub struct PhaseCounters {
    num_marbles: u32,
    scanned: u64,
    boards_of_this_size: u64,
    num_solutions: u64,
}

impl View for PhaseCounters {
    type V = PhaseSummary;

    closed spec fn view(&self) -> PhaseSummary {
        PhaseSummary {
            num_marbles: self.num_marbles as nat,
            scanned: self.scanned,
            boards_of_this_size: self.boards_of_this_size as nat,
            num_solutions: self.num_solutions as nat,
        }
    }
}

impl PhaseCounters {
    #[verifier::type_invariant]
    spec fn well_formed(&self) -> bool {
        &&& self.scanned <= TABLE_SIZE
        &&& self.boards_of_this_size == boards_with_pegs(0, self.scanned, self.num_marbles as nat)
        &&& self.num_solutions <= self.boards_of_this_size
    }

    /// The counters of a phase of which no block has been counted yet.
    pub fn new(num_marbles: u32) -> (counters: PhaseCounters)
        ensures
            counters@ == (PhaseSummary {
                num_marbles: num_marbles as nat,
                scanned: 0,
                boards_of_this_size: 0,
                num_solutions: 0,
            }),
    {
        PhaseCounters { num_marbles, scanned: 0, boards_of_this_size: 0, num_solutions: 0 }
    }

    /// Adds the counts of the next block. The block has to be of the same
    /// phase and to begin where the blocks counted so far end; the counters
    /// take no other block and say so by returning `false`.
    pub fn absorb(&mut self, report: &BlockReport) -> (taken: bool)
        ensures
            taken == (report@.num_marbles == old(self)@.num_marbles && report@.start == old(
                self,
            )@.scanned),
            taken ==> final(self)@ == (PhaseSummary {
                num_marbles: old(self)@.num_marbles,
                scanned: report@.end,
                boards_of_this_size: old(self)@.boards_of_this_size + report@.boards_of_this_size,
                num_solutions: old(self)@.num_solutions + report@.winners.len(),
            }),
            !taken ==> final(self)@ == old(self)@,
            taken ==> final(self)@.boards_of_this_size == boards_with_pegs(
                0,
                report@.end,
                report@.num_marbles,
            ),
            report@.start <= report@.end <= TABLE_SIZE,
    {
        proof {
            use_type_invariant(&*self);
            use_type_invariant(report);
        }
        if report.num_marbles != self.num_marbles || report.start != self.scanned {
            return false;
        }
        proof {
            lemma_blocks_join(Seq::empty(), 0, report.start, report.end, self.num_marbles as nat);
            lemma_winners_in_len(Seq::empty(), 0, report.end, self.num_marbles as nat);
        }
        *self = PhaseCounters {
            num_marbles: self.num_marbles,
            scanned: report.end,
            boards_of_this_size: self.boards_of_this_size + report.boards_of_this_size,
            num_solutions: self.num_solutions + report.winners.len() as u64,
        };
        true
    }

    /// The dense index up to which the blocks have been counted.
    pub fn scanned(&self) -> (scanned: u64)
        ensures
            scanned == self@.scanned,
            scanned <= TABLE_SIZE,
    {
        proof {
            use_type_invariant(self);
        }
        self.scanned
    }

    /// The number of pegs of the phase.
    pub fn num_marbles(&self) -> (num_marbles: u32)
        ensures
            num_marbles == self@.num_marbles,
    {
        self.num_marbles
    }

    /// How many of the boards counted so far have the number of pegs of the
    /// phase: as many as there are such boards below `scanned`.
    pub fn boards_of_this_size(&self) -> (count: u64)
        ensures
            count == self@.boards_of_this_size,
            count == boards_with_pegs(0, self@.scanned, self@.num_marbles),
    {
        proof {
            use_type_invariant(self);
        }
        self.boards_of_this_size
    }

    /// How many of those boards have a successor whose flag was set.
    pub fn num_solutions(&self) -> (count: u64)
        ensures
            count == self@.num_solutions,
            count <= self@.boards_of_this_size,
    {
        proof {
            use_type_invariant(self);
        }
        self.num_solutions
    }
}

/// A winner is one of the dense indices that were scanned, and nothing that
/// wins is left out.
pub proof fn lemma_winners_in_contains(
    marks: Seq<bool>,
    start: u64,
    end: u64,
    num_marbles: nat,
    zipped: u64,
)
    ensures
        winners_in(marks, start, end, num_marbles).contains(zipped) <==> start <= zipped < end
            && is_winner(marks, zipped, num_marbles),
    decreases end,
{
    let all = winners_in(marks, start, end, num_marbles);
    if start < end {
        let last = (end - 1) as u64;
        let rest = winners_in(marks, start, last, num_marbles);
        lemma_winners_in_contains(marks, start, last, num_marbles, zipped);
        if rest.contains(zipped) {
            let k = choose|k: int| 0 <= k < rest.len() && rest[k] == zipped;
            assert(all[k] == zipped);
        }
        if zipped == last && is_winner(marks, last, num_marbles) {
            assert(all[all.len() - 1] == zipped);
        }
    }
}

/// The winners of a block come in ascending order, each once.
pub proof fn lemma_winners_in_ascending(
    marks: Seq<bool>,
    start: u64,
    end: u64,
    num_marbles: nat,
)
    ensures
        forall|i: int, j: int|
            0 <= i < j < winners_in(marks, start, end, num_marbles).len() ==> (
            #[trigger] winners_in(marks, start, end, num_marbles)[i]) < (#[trigger] winners_in(
                marks,
                start,
                end,
                num_marbles,
            )[j]),
        forall|i: int|
            0 <= i < winners_in(marks, start, end, num_marbles).len() ==> start <= (
            #[trigger] winners_in(marks, start, end, num_marbles)[i]) < end,
    decreases end,
{
    let all = winners_in(marks, start, end, num_marbles);
    if start < end {
        let rest = winners_in(marks, start, (end - 1) as u64, num_marbles);
        lemma_winners_in_ascending(marks, start, (end - 1) as u64, num_marbles);
        assert forall|i: int| 0 <= i < all.len() implies start <= #[trigger] all[i] < end && (i
            < rest.len() ==> all[i] == rest[i] && all[i] < end - 1) by {
            if i < rest.len() {
                assert(all[i] == rest[i]);
            }
        }
        assert forall|i: int, j: int| 0 <= i < j < all.len() implies #[trigger] all[i]
            < #[trigger] all[j] by {
            if j < rest.len() {
                assert(rest[i] < rest[j]);
            }
        }
    }
}

/// There are at most as many winners as boards with the number of pegs
/// looked for, and at most as many of those as dense indices.
pub proof fn lemma_winners_in_len(marks: Seq<bool>, start: u64, end: u64, num_marbles: nat)
    ensures
        winners_in(marks, start, end, num_marbles).len() <= boards_with_pegs(
            start,
            end,
            num_marbles,
        ),
        start <= end ==> boards_with_pegs(start, end, num_marbles) <= end - start,
    decreases end,
{
    if start < end {
        lemma_winners_in_len(marks, start, (end - 1) as u64, num_marbles);
    }
}

/// The dense indices from `start` up to `end` whose board has exactly
/// `num_marbles` pegs.
pub open spec fn boards_of_size(start: u64, end: u64, num_marbles: nat) -> Set<u64> {
    Set::new(|z: u64| start <= z < end && peg_count(unpack(z)) == num_marbles)
}

/// `boards_with_pegs` counts: it is the number of elements of the set of
/// dense indices in the block whose board has the number of pegs looked for.
pub proof fn lemma_boards_with_pegs_counts(start: u64, end: u64, num_marbles: nat)
    ensures
        boards_of_size(start, end, num_marbles).finite(),
        boards_with_pegs(start, end, num_marbles) == boards_of_size(start, end, num_marbles).len(),
    decreases end,
{
    let all = boards_of_size(start, end, num_marbles);
    if start < end {
        let last = (end - 1) as u64;
        let rest = boards_of_size(start, last, num_marbles);
        lemma_boards_with_pegs_counts(start, last, num_marbles);
        if peg_count(unpack(last)) == num_marbles {
            assert(all =~= rest.insert(last));
        } else {
            assert(all =~= rest);
        }
    } else {
        assert(all =~= Set::<u64>::empty());
    }
}

/// Two blocks side by side count as the one block they make up.
pub proof fn lemma_blocks_join(marks: Seq<bool>, start: u64, mid: u64, end: u64, num_marbles: nat)
    requires
        start <= mid <= end,
    ensures
        boards_with_pegs(start, end, num_marbles) == boards_with_pegs(start, mid, num_marbles)
            + boards_with_pegs(mid, end, num_marbles),
        winners_in(marks, start, end, num_marbles) == winners_in(marks, start, mid, num_marbles)
            + winners_in(marks, mid, end, num_marbles),
    decreases end,
{
    if mid < end {
        lemma_blocks_join(marks, start, mid, (end - 1) as u64, num_marbles);
    }
    assert(winners_in(marks, start, end, num_marbles) =~= winners_in(
        marks,
        start,
        mid,
        num_marbles,
    ) + winners_in(marks, mid, end, num_marbles));
}

/// A scan for `num_marbles` pegs reads only flags of boards with one peg
/// fewer: two tables that agree on those have the same winners.
pub proof fn lemma_winner_reads_previous_phase(
    marks: Seq<bool>,
    other: Seq<bool>,
    zipped: u64,
    num_marbles: nat,
)
    requires
        forall|y: u64|
            y < TABLE_SIZE && peg_count(unpack(y)) + 1 == num_marbles ==> #[trigger] marks[y as int]
                == other[y as int],
    ensures
        is_winner(marks, zipped, num_marbles) == is_winner(other, zipped, num_marbles),
{
    let v = unpack(zipped);
    if peg_count(v) == num_marbles {
        lemma_pack_unpack_range(zipped);
        lemma_successors_legal(v);
        assert forall|k: int| 0 <= k < successors(v).len() implies marks[pack(
            #[trigger] successors(v)[k],
        ) as int] == other[pack(successors(v)[k]) as int] by {
            let s = successors(v)[k];
            lemma_pack_unpack_range(s);
            lemma_unpack_pack(s);
        }
    }
}

/// Flags are never cleared, and a phase for `num_marbles` pegs changes no
/// flag of a board with another number of pegs.
pub proof fn lemma_phase_writes(before: Seq<bool>, after: Seq<bool>, num_marbles: nat)
    requires
        forall|z: u64|
            z < TABLE_SIZE ==> #[trigger] after[z as int] == (before[z as int] || is_winner(
                before,
                z,
                num_marbles,
            )),
    ensures
        forall|z: u64| z < TABLE_SIZE && before[z as int] ==> #[trigger] after[z as int],
        forall|z: u64|
            z < TABLE_SIZE && peg_count(unpack(z)) != num_marbles ==> #[trigger] after[z as int]
                == before[z as int],
{
}

/// The first phase: the one for boards with two pegs.
pub const FIRST_PHASE: u32 = 2;

/// The last phase: the one for boards with 32 pegs.
pub const LAST_PHASE: u32 = 32;

/// What each of `reports` found, as plain values.
pub open spec fn summaries(reports: Seq<BlockReport>) -> Seq<BlockSummary> {
    Seq::new(reports.len(), |i: int| reports[i]@)
}

/// The dense index up to which the blocks reach.
pub open spec fn reach(blocks: Seq<BlockSummary>) -> u64 {
    if blocks.len() == 0 {
        0
    } else {
        blocks.last().end
    }
}

/// Whether the blocks are of the phase for `num_marbles` pegs and lie side
/// by side, the first at dense index 0.
pub open spec fn side_by_side(blocks: Seq<BlockSummary>, num_marbles: nat) -> bool
    decreases blocks.len(),
{
    if blocks.len() == 0 {
        true
    } else {
        &&& side_by_side(blocks.drop_last(), num_marbles)
        &&& blocks.last().num_marbles == num_marbles
        &&& blocks.last().start == reach(blocks.drop_last())
    }
}

/// The number of winners of all the blocks together.
pub open spec fn solutions_of(blocks: Seq<BlockSummary>) -> nat
    decreases blocks.len(),
{
    if blocks.len() == 0 {
        0
    } else {
        solutions_of(blocks.drop_last()) + blocks.last().winners.len()
    }
}

/// Whether `zipped` is a winner of one of the blocks.
pub open spec fn wins_in_some(blocks: Seq<BlockSummary>, zipped: u64) -> bool {
    exists|i: int| 0 <= i < blocks.len() && (#[trigger] blocks[i]).winners.contains(zipped)
}

/// Whether each block holds the winners that a scan of `marks` finds in it.
pub open spec fn are_scans_of(blocks: Seq<BlockSummary>, marks: Seq<bool>) -> bool {
    forall|i: int|
        0 <= i < blocks.len() ==> (#[trigger] blocks[i]).winners == winners_in(
            marks,
            blocks[i].start,
            blocks[i].end,
            blocks[i].num_marbles,
        )
}

proof fn lemma_side_by_side_prefix(blocks: Seq<BlockSummary>, num_marbles: nat, n: int)
    requires
        0 <= n <= blocks.len(),
        side_by_side(blocks, num_marbles),
    ensures
        side_by_side(blocks.take(n), num_marbles),
    decreases blocks.len(),
{
    if n < blocks.len() {
        lemma_side_by_side_prefix(blocks.drop_last(), num_marbles, n);
        assert(blocks.drop_last().take(n) =~= blocks.take(n));
    } else {
        assert(blocks.take(n) =~= blocks);
    }
}

proof fn lemma_side_by_side_member(blocks: Seq<BlockSummary>, num_marbles: nat, k: int)
    requires
        0 <= k < blocks.len(),
        side_by_side(blocks, num_marbles),
    ensures
        blocks[k].num_marbles == num_marbles,
    decreases blocks.len(),
{
    if k < blocks.len() - 1 {
        lemma_side_by_side_member(blocks.drop_last(), num_marbles, k);
    }
}

/// Blocks that lie side by side and were scanned from the same table hold,
/// together, the winners of what they cover.
pub proof fn lemma_scans_cover(blocks: Seq<BlockSummary>, marks: Seq<bool>, num_marbles: nat)
    requires
        side_by_side(blocks, num_marbles),
        are_scans_of(blocks, marks),
        forall|i: int| 0 <= i < blocks.len() ==> (#[trigger] blocks[i]).start <= blocks[i].end,
    ensures
        solutions_of(blocks) == winners_in(marks, 0, reach(blocks), num_marbles).len(),
        forall|z: u64|
            wins_in_some(blocks, z) <==> z < reach(blocks) && is_winner(marks, z, num_marbles),
    decreases blocks.len(),
{
    if blocks.len() > 0 {
        let rest = blocks.drop_last();
        let last = blocks.last();
        assert(are_scans_of(rest, marks)) by {
            assert forall|i: int| 0 <= i < rest.len() implies (#[trigger] rest[i]).winners
                == winners_in(marks, rest[i].start, rest[i].end, rest[i].num_marbles) by {
                assert(rest[i] == blocks[i]);
            }
        }
        assert forall|i: int| 0 <= i < rest.len() implies (#[trigger] rest[i]).start
            <= rest[i].end by {
            assert(rest[i] == blocks[i]);
        }
        lemma_scans_cover(rest, marks, num_marbles);
        assert(last == blocks[blocks.len() - 1]);
        lemma_blocks_join(marks, 0, last.start, last.end, num_marbles);
        assert forall|z: u64| wins_in_some(blocks, z) <==> z < reach(blocks) && is_winner(
            marks,
            z,
            num_marbles,
        ) by {
            lemma_winners_in_contains(marks, last.start, last.end, num_marbles, z);
            lemma_wins_in_some_step(blocks, z);
        }
    }
}

/// A winner of some block is a winner of the last block or of one before.
proof fn lemma_wins_in_some_step(blocks: Seq<BlockSummary>, z: u64)
    requires
        blocks.len() > 0,
    ensures
        wins_in_some(blocks, z) <==> wins_in_some(blocks.drop_last(), z)
            || blocks.last().winners.contains(z),
{
    let rest = blocks.drop_last();
    if wins_in_some(blocks, z) {
        let i = choose|i: int| 0 <= i < blocks.len() && (#[trigger] blocks[i]).winners.contains(z);
        if i < rest.len() {
            assert(rest[i].winners.contains(z));
        }
    }
    if wins_in_some(rest, z) {
        let i = choose|i: int| 0 <= i < rest.len() && (#[trigger] rest[i]).winners.contains(z);
        assert(blocks[i].winners.contains(z));
    }
    if blocks.last().winners.contains(z) {
        assert(blocks[blocks.len() - 1].winners.contains(z));
    }
}

/// Ends a phase: adds up the counts of its blocks and publishes their
/// winners. The blocks have to be of the phase and to lie side by side from
/// dense index 0 on; otherwise nothing is published and `None` is returned.
///
/// Where the blocks were scanned from the table as it is handed in, the
/// flags that are set are exactly those of the winners of the phase below
/// the index that the blocks reach. Where moreover the blocks reach the end
/// of the index space and every board with fewer pegs was decided before,
/// every board with up to `num_marbles` pegs is decided after.
pub fn conclude_phase(table: &mut Table, reports: &Vec<BlockReport>, num_marbles: u32) -> (counters:
    Option<PhaseCounters>)
    requires
        old(table).wf(),
    ensures
        final(table).wf(),
        counters is Some <==> side_by_side(summaries(reports@), num_marbles as nat),
        counters is None ==> final(table)@ == old(table)@,
        counters matches Some(c) ==> {
            &&& c@ == (PhaseSummary {
                num_marbles: num_marbles as nat,
                scanned: reach(summaries(reports@)),
                boards_of_this_size: boards_with_pegs(
                    0,
                    reach(summaries(reports@)),
                    num_marbles as nat,
                ),
                num_solutions: solutions_of(summaries(reports@)),
            })
            &&& forall|z: u64|
                z < TABLE_SIZE ==> #[trigger] final(table)@[z as int] == (old(table)@[z as int]
                    || wins_in_some(summaries(reports@), z))
            &&& forall|z: u64|
                z < TABLE_SIZE && old(table)@[z as int] ==> #[trigger] final(table)@[z as int]
            &&& forall|z: u64|
                z < TABLE_SIZE && peg_count(unpack(z)) != num_marbles ==> (
                #[trigger] final(table)@[z as int]) == old(table)@[z as int]
            &&& are_scans_of(summaries(reports@), old(table)@) ==> forall|z: u64|
                z < TABLE_SIZE ==> #[trigger] final(table)@[z as int] == (old(table)@[z as int] || (
                z < reach(summaries(reports@)) && is_winner(old(table)@, z, num_marbles as nat)))
            &&& are_scans_of(summaries(reports@), old(table)@) ==> c@.num_solutions == winners_in(
                old(table)@,
                0,
                reach(summaries(reports@)),
                num_marbles as nat,
            ).len()
            &&& are_scans_of(summaries(reports@), old(table)@) && reach(summaries(reports@))
                == TABLE_SIZE && num_marbles >= FIRST_PHASE && complete_through(
                old(table)@,
                (num_marbles - 1) as nat,
            ) ==> complete_through(final(table)@, num_marbles as nat)
        },
{
    let ghost blocks = summaries(reports@);
    let mut counters = PhaseCounters::new(num_marbles);
    let mut i: usize = 0;
    while i < reports.len()
        invariant
            i <= reports.len(),
            blocks == summaries(reports@),
            table.wf(),
            table@ == old(table)@,
            side_by_side(blocks.take(i as int), num_marbles as nat),
            forall|k: int| 0 <= k < i ==> (#[trigger] blocks[k]).start <= blocks[k].end,
            counters@ == (PhaseSummary {
                num_marbles: num_marbles as nat,
                scanned: reach(blocks.take(i as int)),
                boards_of_this_size: boards_with_pegs(
                    0,
                    reach(blocks.take(i as int)),
                    num_marbles as nat,
                ),
                num_solutions: solutions_of(blocks.take(i as int)),
            }),
        decreases reports.len() - i,
    {
        let ghost next = blocks.take(i + 1);
        assert(next.drop_last() =~= blocks.take(i as int));
        assert(next.last() == reports[i as int]@);
        assert(blocks[i as int] == reports[i as int]@);
        if !counters.absorb(&reports[i]) {
            proof {
                if side_by_side(blocks, num_marbles as nat) {
                    lemma_side_by_side_prefix(blocks, num_marbles as nat, i + 1);
                }
            }
            return None;
        }
        i = i + 1;
    }
    assert(blocks.take(i as int) =~= blocks);
    proof {
        table.lemma_len();
    }
    let mut j: usize = 0;
    while j < reports.len()
        invariant
            j <= reports.len(),
            table.wf(),
            blocks == summaries(reports@),
            side_by_side(blocks, num_marbles as nat),
            forall|k: int| 0 <= k < j ==> (#[trigger] blocks[k]).winners_fit(),
            forall|z: u64|
                z < TABLE_SIZE ==> #[trigger] table@[z as int] == (old(table)@[z as int]
                    || wins_in_some(blocks.take(j as int), z)),
        decreases reports.len() - j,
    {
        let ghost before = table@;
        let ghost next = blocks.take(j + 1);
        assert(next.drop_last() =~= blocks.take(j as int));
        assert(next.last() == reports[j as int]@);
        table.publish(reports[j].winners());
        proof {
            table.lemma_len();
            assert forall|z: u64| z < TABLE_SIZE implies #[trigger] table@[z as int] == (old(
                table,
            )@[z as int] || wins_in_some(next, z)) by {
                assert(before[z as int] == (old(table)@[z as int] || wins_in_some(
                    blocks.take(j as int),
                    z,
                )));
                lemma_wins_in_some_step(next, z);
            }
        }
        j = j + 1;
    }
    assert(blocks.take(j as int) =~= blocks);
    proof {
        assert forall|z: u64|
            z < TABLE_SIZE && peg_count(unpack(z)) != num_marbles implies #[trigger] table@[z as int]
            == old(table)@[z as int] by {
            if wins_in_some(blocks, z) {
                let k = choose|k: int|
                    0 <= k < blocks.len() && (#[trigger] blocks[k]).winners.contains(z);
                lemma_side_by_side_member(blocks, num_marbles as nat, k);
            }
        }
        if are_scans_of(blocks, old(table)@) {
            lemma_scans_cover(blocks, old(table)@, num_marbles as nat);
            if reach(blocks) == TABLE_SIZE && num_marbles >= FIRST_PHASE && complete_through(
                old(table)@,
                (num_marbles - 1) as nat,
            ) {
                table.lemma_len();
                lemma_phase_complete(old(table)@, table@, num_marbles as nat);
            }
        }
    }
    Some(counters)
}

} // verus!
