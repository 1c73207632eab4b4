use handterm::grid::{decode_utf8, Cell, Grid};

#[test]
fn writes_simple_text() {
    let mut g = Grid::new(8, 2, [1, 2, 3], [0, 0, 0]);
    g.write_bytes(b"abc");
    assert_eq!(g.cell_char(0, 0), 'a');
    assert_eq!(g.cell_char(0, 1), 'b');
    assert_eq!(g.cell_char(0, 2), 'c');
}

#[test]
fn wraps_and_scrolls() {
    let mut g = Grid::new(4, 2, [1, 2, 3], [0, 0, 0]);
    g.write_bytes(b"abcdefghij");
    assert_eq!(g.cell_char(0, 0), 'e');
    assert_eq!(g.cell_char(1, 0), 'i');
}

#[test]
fn cursor_movement() {
    let mut g = Grid::new(10, 5, [0, 0, 0], [0, 0, 0]);
    g.set_cursor(2, 3);
    g.put_char(b'X' as u32);
    assert_eq!(g.cell_char(2, 3), 'X');
}

#[test]
fn erase_line() {
    let mut g = Grid::new(10, 2, [0, 0, 0], [0, 0, 0]);
    g.write_bytes(b"helloworld");
    g.set_cursor(0, 3);
    g.erase_line_right();
    assert_eq!(g.cell_char(0, 0), 'h');
    assert_eq!(g.cell_char(0, 2), 'l');
    assert_eq!(g.cell_char(0, 3), ' ');
    assert_eq!(g.cell_char(0, 9), ' ');
}

#[test]
fn cell_is_16_bytes() {
    assert_eq!(std::mem::size_of::<Cell>(), 16);
}

#[test]
fn writes_utf8_codepoints() {
    let mut g = Grid::new(80, 24, [0xff; 3], [0; 3]);
    g.write_bytes("héllo".as_bytes());
    assert_eq!(g.cell_char(0, 0), 'h');
    assert_eq!(g.cell_at(0, 1).ch, 0xe9);
    assert_eq!(g.cell_char(0, 2), 'l');
    assert_eq!(g.cell_char(0, 3), 'l');
    assert_eq!(g.cell_char(0, 4), 'o');
}

#[test]
fn writes_3byte_utf8() {
    let mut g = Grid::new(80, 24, [0xff; 3], [0; 3]);
    let input = b"A\xe2\x80\x93B";
    g.write_bytes(input);
    assert_eq!(g.cell_char(0, 0), 'A');
    assert_eq!(g.cell_at(0, 1).ch, 0x2013);
    assert_eq!(g.cell_char(0, 2), 'B');
}

#[test]
fn writes_4byte_utf8_emoji() {
    let mut g = Grid::new(80, 24, [0xff; 3], [0; 3]);
    g.write_bytes("😀".as_bytes());
    assert_eq!(g.cell_at(0, 0).ch, 0x1F600);
}

#[test]
fn wide_emoji_takes_two_cells_and_a_continuation() {
    let mut g = Grid::new(80, 24, [0xff; 3], [0; 3]);
    g.write_bytes("😀x".as_bytes());
    assert_eq!(g.cell_at(0, 0).flags, 0x01);
    assert_eq!(g.cell_at(0, 1).ch, 0);
    assert_eq!(g.cell_at(0, 1).flags, 0x02);
    assert_eq!(g.cell_char(0, 2), 'x');
    assert_eq!(g.cursor_pos(), (3, 0));
}

#[test]
fn wide_char_at_line_end_moves_to_next_line() {
    let mut g = Grid::new(3, 2, [0; 3], [0; 3]);
    g.write_bytes("ab界".as_bytes());
    assert_eq!(g.cell_char(0, 2), ' ');
    assert_eq!(g.cell_at(1, 0).ch, 0x754c);
    assert_eq!(g.cursor_pos(), (2, 1));
}

#[test]
fn decode_utf8_handles_invalid_and_truncated_input() {
    assert_eq!(decode_utf8(b"A"), (0x41, 1));
    assert_eq!(decode_utf8(&[0x80]), (0xFFFD, 1));
    assert_eq!(decode_utf8(&[0xc3, 0xa9]), (0xe9, 2));
    assert_eq!(decode_utf8(&[0xc3]), (0xFFFD, 1));
    assert_eq!(decode_utf8(&[0xe2, 0x80]), (0xFFFD, 1));
    assert_eq!(decode_utf8(&[0xf0, 0x9f, 0x98, 0x80]), (0x1F600, 4));
    assert_eq!(decode_utf8(&[0xf8, 0x80]), (0xFFFD, 1));
}

#[test]
fn full_screen_scroll_moves_top_line_into_scrollback() {
    let mut g = Grid::new(3, 2, [0; 3], [0; 3]);
    g.write_bytes(b"ab\r\ncd\r\nef");
    assert_eq!(g.scrollback_len(), 1);
    assert_eq!(g.get_all_text(), "cd\nef");
    g.scroll_offset = 1;
    assert_eq!(g.cell_at_scroll(0, 0).ch, 'a' as u32);
    assert_eq!(g.cell_at_scroll(1, 1).ch, 'd' as u32);
}

#[test]
fn scroll_region_keeps_lines_outside() {
    let mut g = Grid::new(2, 4, [0; 3], [0; 3]);
    g.write_bytes(b"a\r\nb\r\nc\r\nd");
    g.set_scroll_region(1, 3);
    g.scroll_up_n(1);
    assert_eq!(g.get_all_text(), "a\nc\n\nd");
    assert_eq!(g.scrollback_len(), 0);
    g.insert_lines(1);
    assert_eq!(g.get_all_text(), "a\n\nc\nd");
}

#[test]
fn insert_and_delete_chars_shift_the_line() {
    let mut g = Grid::new(5, 1, [0; 3], [0; 3]);
    g.write_bytes(b"abcd");
    g.set_cursor(0, 1);
    g.insert_chars(2);
    assert_eq!(g.get_all_text(), "a  bc");
    g.delete_chars(3);
    assert_eq!(g.get_all_text(), "ac");
}

#[test]
fn resize_keeps_top_left_content_and_clamps_cursor() {
    let mut g = Grid::new(4, 3, [0; 3], [0; 3]);
    g.write_bytes(b"abc\r\nefg\r\nij");
    g.resize(2, 2);
    assert_eq!(g.get_all_text(), "ab\nef");
    assert_eq!(g.cursor_pos(), (1, 1));
    g.resize(0, 0);
    assert_eq!((g.cols, g.rows), (1, 1));
}

#[test]
fn tab_stops_every_eight_columns() {
    let mut g = Grid::new(20, 1, [0; 3], [0; 3]);
    g.tab();
    assert_eq!(g.cursor_pos(), (8, 0));
    g.tab();
    assert_eq!(g.cursor_pos(), (16, 0));
    g.tab();
    assert_eq!(g.cursor_pos(), (19, 0));
}

#[test]
fn rgb_pen_sets_flag_bit() {
    let mut g = Grid::new(2, 1, [0; 3], [0; 3]);
    g.set_fg_rgb(0x12, 0x34, 0x56);
    g.set_bold(true);
    g.write_bytes(b"x");
    assert_eq!(g.cell_at(0, 0).fg, 0x8012_3456);
    assert_eq!(g.cell_at(0, 0).attrs, 0x01);
    g.set_bold(false);
    g.reset_attrs();
    g.write_bytes(b"y");
    assert_eq!(g.cell_at(0, 1).fg, 0);
}
