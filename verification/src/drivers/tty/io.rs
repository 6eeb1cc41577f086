//! The console driver: a text screen, its cursor and the colour of the
//! text, written through free functions on the console state.
use vstd::prelude::*;
use vstd::string::StringSliceAdditionalSpecFns;
use crate::screen::{TextBuffer, write_faults, next_cursor, next_cells, cursor_after, cells_after, writes_within, cell_index, places_cell, BUFFER_CELLS};

verus! {

/// The colours a cell can be written in.
#[derive(Clone, Copy, Debug, PartialEq, Eq, Structural)]
pub enum Color {
    Black,
    Blue,
    Green,
    Cyan,
    Red,
    Magenta,
    Brown,
    LightGray,
    DarkGray,
}

/// The state of the console: its screen and the colour of the text.
pub struct Console {
    screen: TextBuffer<Color>,
    pub color: Color,
}

impl Console {
    /// The console's screen covers 25 rows of 80 cells.
    pub closed spec fn wf(&self) -> bool {
        self.screen.wf()
    }

    /// The cells of the screen, row after row.
    pub closed spec fn cells(&self) -> Seq<(u8, Color)> {
        self.screen.cells()
    }

    /// The cursor: column, then row.
    pub closed spec fn cursor(&self) -> (usize, usize) {
        self.screen.cursor()
    }

    /// The colour in which text is written.
    pub closed spec fn text_color(&self) -> Color {
        self.color
    }

    /// The console as the kernel starts it: a blank screen, the cursor at
    /// the top left corner, light gray text.
    pub fn new() -> (r: Self)
        ensures
            r.wf(),
            r.cells() == Seq::new(BUFFER_CELLS as nat, |i: int| (32u8, Color::LightGray)),
            r.cursor() == (0usize, 0usize),
            r.text_color() == Color::LightGray,
    {
        Console { screen: TextBuffer::new((32u8, Color::LightGray)), color: Color::LightGray }
    }

    /// The cell at `index`, counting row after row.
    pub fn cell(&self, index: usize) -> (r: (u8, Color))
        requires
            self.wf(),
            index < BUFFER_CELLS,
        ensures
            r == self.cells()[index as int],
    {
        self.screen.cell(index)
    }

    /// The cursor: column, then row.
    pub fn get_cursor(&self) -> (r: (usize, usize))
        ensures
            r == self.cursor(),
    {
        self.screen.get_cursor()
    }
}

/// Puts the console's cursor at column `x` of row `y`.
pub fn cursor_xy(console: &mut Console, x: usize, y: usize)
    ensures
        old(console).wf() ==> final(console).wf(),
        final(console).cursor() == (x, y),
        final(console).cells() == old(console).cells(),
        final(console).text_color() == old(console).text_color(),
{
    console.screen.set_cursor(x, y);
}

/// Moves the console's cursor `offset` columns to the right.
pub fn cursor_move(console: &mut Console, offset: usize)
    requires
        old(console).cursor().0 + offset <= usize::MAX,
    ensures
        old(console).wf() ==> final(console).wf(),
        final(console).cursor() == ((old(console).cursor().0 + offset) as usize, old(console).cursor().1),
        final(console).cells() == old(console).cells(),
        final(console).text_color() == old(console).text_color(),
{
    console.screen.advance(offset);
}

/// Writes `byte` at the cursor in the console's text colour.
pub fn write_byte(console: &mut Console, byte: u8)
    requires
        old(console).wf(),
        !write_faults(old(console).cursor(), byte),
    ensures
        final(console).wf(),
        final(console).cursor() == next_cursor(old(console).cursor(), byte),
        final(console).cells() == next_cells(old(console).cells(), old(console).cursor(), byte, old(console).text_color()),
        final(console).text_color() == old(console).text_color(),
{
    let color = console.color;
    console.screen.write(byte, color);
}

/// Writes the UTF-8 bytes of `string` one by one in the text colour.
pub fn write_string(console: &mut Console, string: &str)
    requires
        old(console).wf(),
        writes_within(old(console).cursor(), string.spec_bytes()),
    ensures
        final(console).wf(),
        final(console).cursor() == cursor_after(old(console).cursor(), string.spec_bytes()),
        final(console).cells() == cells_after(old(console).cells(), old(console).cursor(), string.spec_bytes(), old(console).text_color()),
        final(console).text_color() == old(console).text_color(),
{
    let color = console.color;
    console.screen.write_all(string.as_bytes(), color);
}

/// Prints text that needs no formatting: writes it as `write_string` does.
pub fn _print(console: &mut Console, text: &str)
    requires
        old(console).wf(),
        writes_within(old(console).cursor(), text.spec_bytes()),
    ensures
        final(console).wf(),
        final(console).cursor() == cursor_after(old(console).cursor(), text.spec_bytes()),
        final(console).cells() == cells_after(old(console).cells(), old(console).cursor(), text.spec_bytes(), old(console).text_color()),
        final(console).text_color() == old(console).text_color(),
{
    write_string(console, text);
}

/// The colour of the kernel's writer with the same name.
pub open spec fn as_writer_color(c: Color) -> crate::tty::Color {
    match c {
        Color::Black => crate::tty::Color::Black,
        Color::Blue => crate::tty::Color::Blue,
        Color::Green => crate::tty::Color::Green,
        Color::Cyan => crate::tty::Color::Cyan,
        Color::Red => crate::tty::Color::Red,
        Color::Magenta => crate::tty::Color::Magenta,
        Color::Brown => crate::tty::Color::Brown,
        Color::LightGray => crate::tty::Color::LightGray,
        Color::DarkGray => crate::tty::Color::DarkGray,
    }
}

/// The console's cells with the writer's colours.
pub open spec fn as_writer_cells(cells: Seq<(u8, Color)>) -> Seq<(u8, crate::tty::Color)> {
    cells.map_values(|cell: (u8, Color)| (cell.0, as_writer_color(cell.1)))
}

/// A console and the kernel's writer that show the same screen and write
/// the same bytes in the same colour from the same cursor show the same
/// screen afterwards: both follow the same rules, byte by byte.
pub proof fn lemma_console_writes_as_writer(cells: Seq<(u8, Color)>, cursor: (usize, usize), bytes: Seq<u8>, color: Color)
    requires
        cells.len() == BUFFER_CELLS,
        writes_within(cursor, bytes),
    ensures
        cells_after(cells, cursor, bytes, color).len() == BUFFER_CELLS,
        as_writer_cells(cells_after(cells, cursor, bytes, color))
            == cells_after(as_writer_cells(cells), cursor, bytes, as_writer_color(color)),
    decreases bytes.len(),
{
    if bytes.len() > 0 {
        let earlier = bytes.drop_last();
        assert(writes_within(cursor, earlier)) by {
            assert forall|i: int| 0 <= i < earlier.len() implies !write_faults(#[trigger] cursor_after(cursor, earlier.take(i)), earlier[i]) by {
                assert(earlier.take(i) =~= bytes.take(i));
                assert(!write_faults(cursor_after(cursor, bytes.take(i)), bytes[i]));
            }
        }
        lemma_console_writes_as_writer(cells, cursor, earlier, color);
        let k = bytes.len() - 1;
        assert(bytes.take(k) =~= earlier);
        let at = cursor_after(cursor, earlier);
        assert(!write_faults(at, bytes[k]));
        let before = cells_after(cells, cursor, earlier, color);
        if places_cell(at, bytes.last()) {
            assert(0 <= cell_index(at) < BUFFER_CELLS);
            assert(as_writer_cells(before.update(cell_index(at), (bytes.last(), color)))
                =~= as_writer_cells(before).update(cell_index(at), (bytes.last(), as_writer_color(color))));
        }
    }
}

} // verus!
