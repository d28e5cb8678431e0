use peg_solitaire::render::{render_board, BLANK, HOLE, NEWLINE, PEG};

fn text(zip: u64, leading: &str) -> String {
    String::from_utf8(render_board(zip, leading)).unwrap()
}

#[test]
fn glyphs_are_x_and_minus() {
    assert_eq!(PEG, b'x');
    assert_eq!(HOLE, b'-');
    assert_eq!(BLANK, b' ');
    assert_eq!(NEWLINE, b'\n');
}

#[test]
fn the_center_hole_board_as_text() {
    assert_eq!(
        text(0b111_111_1111111_1110111_1111111_111_111, ""),
        "  xxx  \n  xxx  \nxxxxxxx\nxxx-xxx\nxxxxxxx\n  xxx  \n  xxx  \n"
    );
}

#[test]
fn the_board_with_a_plus_of_holes_as_text_with_a_prefix() {
    assert_eq!(
        text(0b111_111_1110111_1101011_1110111_111_111, ">> "),
        ">>   xxx  \n>>   xxx  \n>> xxx-xxx\n>> xx-x-xx\n>> xxx-xxx\n>>   xxx  \n>>   xxx  \n"
    );
}

#[test]
fn the_empty_and_the_full_board_as_text() {
    assert_eq!(text(0, ""), "  ---  \n  ---  \n-------\n-------\n-------\n  ---  \n  ---  \n");
    assert_eq!(
        text(0x1_ffff_ffff, ""),
        "  xxx  \n  xxx  \nxxxxxxx\nxxxxxxx\nxxxxxxx\n  xxx  \n  xxx  \n"
    );
}

#[test]
fn the_highest_bit_comes_first_and_the_lowest_last() {
    assert_eq!(
        text(5 | (1 << 32), ""),
        "  x--  \n  ---  \n-------\n-------\n-------\n  ---  \n  x-x  \n"
    );
    assert_eq!(
        text(1 << 13, ""),
        "  ---  \n  ---  \n-------\n------x\n-------\n  ---  \n  ---  \n"
    );
}

#[test]
fn every_line_starts_with_the_prefix_even_a_non_ascii_one() {
    let rendered = text(1 << 32, "\u{2192}\t");
    let lines: Vec<&str> = rendered.split('\n').collect();
    assert_eq!(lines.len(), 8);
    assert_eq!(lines[7], "");
    assert_eq!(lines[0], "\u{2192}\t  x--  ");
    for line in &lines[1..7] {
        assert!(line.starts_with("\u{2192}\t"));
    }
}
