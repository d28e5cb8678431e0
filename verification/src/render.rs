//! A board as text: seven lines, the highest row first, a glyph for each
//! cell.

use vstd::prelude::*;
use vstd::string::StringSliceAdditionalSpecFns;
use crate::board::has_peg;
use crate::index::TABLE_SIZE;

verus! {

/// The glyph of a cell with a peg: `x`.
pub const PEG: u8 = 0x78;

/// The glyph of an empty cell: `-`.
pub const HOLE: u8 = 0x2d;

/// A blank.
pub const BLANK: u8 = 0x20;

/// The end of a line.
pub const NEWLINE: u8 = 0x0a;

/// The glyph for bit `bit` of a dense index.
pub open spec fn glyph(zipped: u64, bit: int) -> u8 {
    if has_peg(zipped, bit as u64) {
        PEG
    } else {
        HOLE
    }
}

/// The glyphs of `width` cells from bit `high` downwards.
pub open spec fn row_text(zipped: u64, high: int, width: int) -> Seq<u8> {
    Seq::new(width as nat, |i: int| glyph(zipped, high - i))
}

/// A line for a row of three: two blanks on either side.
pub open spec fn narrow_line(leading: Seq<u8>, zipped: u64, high: int) -> Seq<u8> {
    leading + seq![BLANK, BLANK] + row_text(zipped, high, 3) + seq![BLANK, BLANK, NEWLINE]
}

/// A line for a row of seven.
pub open spec fn wide_line(leading: Seq<u8>, zipped: u64, high: int) -> Seq<u8> {
    leading + row_text(zipped, high, 7) + seq![NEWLINE]
}

/// The seven lines of a board, each begun by `leading`.
pub open spec fn board_text(zipped: u64, leading: Seq<u8>) -> Seq<u8> {
    narrow_line(leading, zipped, 32) + narrow_line(leading, zipped, 29) + wide_line(
        leading,
        zipped,
        26,
    ) + wide_line(leading, zipped, 19) + wide_line(leading, zipped, 12) + narrow_line(
        leading,
        zipped,
        5,
    ) + narrow_line(leading, zipped, 2)
}

fn push_all(text: &mut Vec<u8>, bytes: &[u8])
    ensures
        final(text)@ == old(text)@ + bytes@,
{
    let mut i: usize = 0;
    while i < bytes.len()
        invariant
            i <= bytes.len(),
            text@ == old(text)@ + bytes@.take(i as int),
        decreases bytes.len() - i,
    {
        text.push(bytes[i]);
        assert(bytes@.take(i + 1) =~= bytes@.take(i as int).push(bytes@[i as int]));
        i = i + 1;
    }
    assert(bytes@.take(i as int) =~= bytes@);
}

fn push_row(text: &mut Vec<u8>, zipped: u64, high: u64, width: u64)
    requires
        width <= high + 1 <= 64,
    ensures
        final(text)@ == old(text)@ + row_text(zipped, high as int, width as int),
{
    let mut i: u64 = 0;
    while i < width
        invariant
            i <= width <= high + 1 <= 64,
            text@ == old(text)@ + row_text(zipped, high as int, i as int),
        decreases width - i,
    {
        let occupied = (zipped >> (high - i)) & 1 == 1;
        text.push(if occupied { PEG } else { HOLE });
        assert(row_text(zipped, high as int, i + 1) =~= row_text(zipped, high as int, i as int).push(
            glyph(zipped, high - i),
        ));
        i = i + 1;
    }
}

fn push_narrow_line(text: &mut Vec<u8>, leading: &[u8], zipped: u64, high: u64)
    requires
        2 <= high < 64,
    ensures
        final(text)@ == old(text)@ + narrow_line(leading@, zipped, high as int),
{
    push_all(text, leading);
    text.push(BLANK);
    text.push(BLANK);
    push_row(text, zipped, high, 3);
    text.push(BLANK);
    text.push(BLANK);
    text.push(NEWLINE);
    assert(text@ =~= old(text)@ + narrow_line(leading@, zipped, high as int));
}

fn push_wide_line(text: &mut Vec<u8>, leading: &[u8], zipped: u64, high: u64)
    requires
        6 <= high < 64,
    ensures
        final(text)@ == old(text)@ + wide_line(leading@, zipped, high as int),
{
    push_all(text, leading);
    push_row(text, zipped, high, 7);
    text.push(NEWLINE);
    assert(text@ =~= old(text)@ + wide_line(leading@, zipped, high as int));
}

/// The text of the board with dense index `zip`, as bytes: seven lines, each
/// begun by `leading`, with `x` for a peg and `-` for a hole.
pub fn render_board(zip: u64, leading: &str) -> (text: Vec<u8>)
    requires
        zip < TABLE_SIZE,
    ensures
        text@ == board_text(zip, leading.spec_bytes()),
{
    let prefix = leading.as_bytes();
    let mut text: Vec<u8> = Vec::new();
    push_narrow_line(&mut text, prefix, zip, 32);
    push_narrow_line(&mut text, prefix, zip, 29);
    push_wide_line(&mut text, prefix, zip, 26);
    push_wide_line(&mut text, prefix, zip, 19);
    push_wide_line(&mut text, prefix, zip, 12);
    push_narrow_line(&mut text, prefix, zip, 5);
    push_narrow_line(&mut text, prefix, zip, 2);
    assert(text@ =~= board_text(zip, leading.spec_bytes()));
    text
}

} // verus!
