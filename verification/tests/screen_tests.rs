use swan_kernel::drivers::tty::io;
use swan_kernel::screen::{can_advance, writes_fit, BUFFER_CELLS};
use swan_kernel::tty::{Color, Writer};

fn cells_of(w: &Writer) -> Vec<(u8, Color)> {
    (0..BUFFER_CELLS).map(|i| w.cell(i)).collect()
}

#[test]
fn writer_starts_blank_at_home() {
    let w = Writer::init();
    assert_eq!(w.get_cursor(), (0, 0));
    assert_eq!(w.color, Color::LightGray);
    for i in 0..BUFFER_CELLS {
        assert_eq!(w.cell(i), (b' ', Color::LightGray));
    }
}

#[test]
fn write_byte_places_byte_and_advances() {
    let mut w = Writer::init();
    w.write_byte(b'A');
    assert_eq!(w.cell(0), (b'A', Color::LightGray));
    assert_eq!(w.cell(1), (b' ', Color::LightGray));
    assert_eq!(w.get_cursor(), (1, 0));
}

#[test]
fn write_byte_uses_current_color() {
    let mut w = Writer::init();
    w.color = Color::Red;
    w.write_byte(b'B');
    w.color = Color::Green;
    w.write_byte(b'C');
    assert_eq!(w.cell(0), (b'B', Color::Red));
    assert_eq!(w.cell(1), (b'C', Color::Green));
}

#[test]
fn newline_moves_to_next_row() {
    let mut w = Writer::init();
    w.write_string("ab\ncd");
    assert_eq!(w.cell(0), (b'a', Color::LightGray));
    assert_eq!(w.cell(1), (b'b', Color::LightGray));
    assert_eq!(w.cell(2), (b' ', Color::LightGray));
    assert_eq!(w.cell(80), (b'c', Color::LightGray));
    assert_eq!(w.cell(81), (b'd', Color::LightGray));
    assert_eq!(w.get_cursor(), (2, 1));
}

#[test]
fn zero_byte_is_ignored() {
    let mut w = Writer::init();
    w.write_byte(0);
    assert_eq!(w.get_cursor(), (0, 0));
    assert_eq!(w.cell(0), (b' ', Color::LightGray));
}

#[test]
fn byte_at_column_80_starts_next_row_and_is_dropped() {
    let mut w = Writer::init();
    w.cursor_xy(80, 3);
    let before = cells_of(&w);
    w.write_byte(b'X');
    assert_eq!(w.get_cursor(), (0, 4));
    assert_eq!(cells_of(&w), before);
}

#[test]
fn full_row_wraps_dropping_one_byte() {
    let mut w = Writer::init();
    let line: String = std::iter::repeat('x').take(80).collect();
    w.write_string(&line);
    assert_eq!(w.get_cursor(), (80, 0));
    w.write_string("yz");
    assert_eq!(w.get_cursor(), (1, 1));
    assert_eq!(w.cell(79), (b'x', Color::LightGray));
    assert_eq!(w.cell(80), (b'z', Color::LightGray));
}

#[test]
fn bytes_past_row_25_are_ignored() {
    let mut w = Writer::init();
    w.cursor_xy(3, 26);
    let before = cells_of(&w);
    w.write_byte(b'X');
    w.write_byte(b'\n');
    assert_eq!(w.get_cursor(), (3, 26));
    assert_eq!(cells_of(&w), before);
}

#[test]
fn newlines_stop_below_the_last_row() {
    let mut w = Writer::init();
    let newlines: String = std::iter::repeat('\n').take(30).collect();
    w.write_string(&newlines);
    assert_eq!(w.get_cursor(), (0, 26));
    w.write_string("text");
    assert_eq!(w.get_cursor(), (0, 26));
}

#[test]
fn last_row_is_row_24() {
    let mut w = Writer::init();
    w.cursor_xy(79, 24);
    w.write_byte(b'Q');
    assert_eq!(w.cell(24 * 80 + 79), (b'Q', Color::LightGray));
    assert_eq!(w.get_cursor(), (80, 24));
}

#[test]
fn cursor_xy_and_cursor_move() {
    let mut w = Writer::init();
    w.cursor_xy(5, 2);
    assert_eq!(w.get_cursor(), (5, 2));
    w.cursor_move(3);
    assert_eq!(w.get_cursor(), (8, 2));
    w.write_byte(b'k');
    assert_eq!(w.cell(2 * 80 + 8), (b'k', Color::LightGray));
}

#[test]
fn writing_in_two_parts_is_writing_the_whole() {
    let mut whole = Writer::init();
    whole.write_string("hello\nworld, again");
    let mut parts = Writer::init();
    parts.write_string("hello\nwor");
    parts.write_string("ld, again");
    assert_eq!(whole.get_cursor(), parts.get_cursor());
    assert_eq!(cells_of(&whole), cells_of(&parts));
}

#[test]
fn multibyte_characters_are_written_as_bytes() {
    let mut w = Writer::init();
    w.write_string("é");
    assert_eq!(w.cell(0), (0xC3, Color::LightGray));
    assert_eq!(w.cell(1), (0xA9, Color::LightGray));
    assert_eq!(w.get_cursor(), (2, 0));
}

#[test]
fn color_codes() {
    assert_eq!(Color::Black.code(), 0);
    assert_eq!(Color::Blue.code(), 1);
    assert_eq!(Color::Green.code(), 2);
    assert_eq!(Color::Cyan.code(), 3);
    assert_eq!(Color::Red.code(), 4);
    assert_eq!(Color::Magenta.code(), 5);
    assert_eq!(Color::Brown.code(), 6);
    assert_eq!(Color::LightGray.code(), 7);
    assert_eq!(Color::DarkGray.code(), 8);
}

#[test]
fn console_writes_like_the_writer() {
    let mut c = io::Console::new();
    assert_eq!(c.get_cursor(), (0, 0));
    io::write_string(&mut c, "hi\n");
    c.color = io::Color::Cyan;
    io::write_byte(&mut c, b'!');
    assert_eq!(c.cell(0), (b'h', io::Color::LightGray));
    assert_eq!(c.cell(1), (b'i', io::Color::LightGray));
    assert_eq!(c.cell(80), (b'!', io::Color::Cyan));
    assert_eq!(c.get_cursor(), (1, 1));
}

#[test]
fn console_cursor_and_print() {
    let mut c = io::Console::new();
    io::cursor_xy(&mut c, 10, 5);
    io::cursor_move(&mut c, 2);
    assert_eq!(c.get_cursor(), (12, 5));
    io::_print(&mut c, "BREAKPOINT");
    assert_eq!(c.cell(5 * 80 + 12), (b'B', io::Color::LightGray));
    assert_eq!(c.cell(5 * 80 + 21), (b'T', io::Color::LightGray));
    assert_eq!(c.get_cursor(), (22, 5));
}

#[test]
fn writes_fit_detects_writes_off_the_grid() {
    assert!(writes_fit((0, 0), b"abc"));
    assert!(writes_fit((0, 24), b"abc\n"));
    assert!(!writes_fit((0, 24), b"abc\nd"));
    assert!(!writes_fit((0, 25), b"a"));
    assert!(writes_fit((0, 25), b"\n\nxyz"));
    assert!(!writes_fit((81, 3), b"a"));
    assert!(writes_fit((81, 3), b"\0"));
    assert!(can_advance((5, 0), usize::MAX - 5));
    assert!(!can_advance((5, 0), usize::MAX - 4));
}
