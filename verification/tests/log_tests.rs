use swan_kernel::log::log;
use swan_kernel::tty::{Color, Writer};

#[test]
fn log_line_has_coloured_tag() {
    let mut w = Writer::init();
    let serial = log(&mut w, "[OK]", Color::Green, "heap ready");
    assert_eq!(serial, "[OK] heap ready");
    for (i, b) in "[OK]".bytes().enumerate() {
        assert_eq!(w.cell(i), (b, Color::Green));
    }
    assert_eq!(w.cell(4), (b' ', Color::LightGray));
    for (i, b) in "heap ready".bytes().enumerate() {
        assert_eq!(w.cell(5 + i), (b, Color::LightGray));
    }
    assert_eq!(w.get_cursor(), (0, 1));
    assert_eq!(w.color, Color::LightGray);
}

#[test]
fn log_keeps_writer_colour() {
    let mut w = Writer::init();
    w.color = Color::Cyan;
    log(&mut w, "[ERROR]", Color::Red, "x");
    assert_eq!(w.color, Color::Cyan);
    assert_eq!(w.cell(0), (b'[', Color::Red));
    assert_eq!(w.cell(8), (b'x', Color::Cyan));
    assert_eq!(w.cell(7), (b' ', Color::Cyan));
}
