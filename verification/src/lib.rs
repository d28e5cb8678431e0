//! Peg solitaire on the 33-cell cross, solved for every board at once.
//!
//! A board is a pattern of pegs on the cross. A jump takes a peg over a
//! neighbour into the hole behind it and removes the neighbour; a board leads
//! to victory when jumps can bring it down to a single peg. This crate
//! decides that for all two to the power of 33 boards, in phases: first the
//! boards with one peg, then those with two, and so on, each phase looking
//! up the successors of its boards in a table filled by the phase before.
//!
//! - `board`: boards as 64-bit words, and the shifts that moves are made of.
//! - `pegs`: counting the pegs of a board.
//! - `index`: the dense index that gives every board its slot in the table.
//! - `moves`: the boards that are one jump away from a board.
//! - `table`: one flag for each board.
//! - `blocks`: cutting the index space into blocks for parallel workers.
//! - `driver`: scanning a block, and ending a phase.
//! - `victory`: what the flags mean, and why the phases get them right.
//! - `solution`, `parity`: two boards whose verdicts are known beforehand.
//! - `render`: a board as text.

pub mod blocks;
pub mod board;
pub mod driver;
pub mod index;
pub mod moves;
pub mod parity;
pub mod pegs;
pub mod render;
pub mod solution;
pub mod table;
pub mod victory;
