//! The kernel's text writer: a screen of coloured cells, a cursor and the
//! colour in which the next bytes are written.
use vstd::prelude::*;
use vstd::string::StringSliceAdditionalSpecFns;
use crate::screen::{TextBuffer, write_faults, next_cursor, next_cells, cursor_after, cells_after, writes_within, BUFFER_CELLS};

verus! {

/// The colours a cell can be written in.
#[derive(Clone, Copy, Debug, PartialEq, Eq, Structural)]
pub enum Color {
    Black,
    Blue,
    Green,
    Cyan,
    Red,
    Magenta,
    Brown,
    LightGray,
    DarkGray,
}

/// The attribute byte of each colour on the VGA text screen.
pub open spec fn color_code(color: Color) -> u8 {
    match color {
        Color::Black => 0,
        Color::Blue => 1,
        Color::Green => 2,
        Color::Cyan => 3,
        Color::Red => 4,
        Color::Magenta => 5,
        Color::Brown => 6,
        Color::LightGray => 7,
        Color::DarkGray => 8,
    }
}

impl Color {
    /// The attribute byte of this colour.
    pub fn code(&self) -> (r: u8)
        ensures
            r == color_code(*self),
    {
        match self {
            Color::Black => 0,
            Color::Blue => 1,
            Color::Green => 2,
            Color::Cyan => 3,
            Color::Red => 4,
            Color::Magenta => 5,
            Color::Brown => 6,
            Color::LightGray => 7,
            Color::DarkGray => 8,
        }
    }
}

/// The cell a fresh screen holds everywhere: a space in light gray.
pub open spec fn blank_cell() -> (u8, Color) {
    (32u8, Color::LightGray)
}

/// A writer on the text screen.
pub struct Writer {
    buffer: TextBuffer<Color>,
    pub color: Color,
}

impl Writer {
    /// The writer's screen covers 25 rows of 80 cells.
    pub closed spec fn wf(&self) -> bool {
        self.buffer.wf()
    }

    /// The cells of the screen, row after row.
    pub closed spec fn cells(&self) -> Seq<(u8, Color)> {
        self.buffer.cells()
    }

    /// The colour in which bytes are written.
    pub closed spec fn current_color(&self) -> Color {
        self.color
    }

    /// The cursor: column, then row.
    pub closed spec fn cursor(&self) -> (usize, usize) {
        self.buffer.cursor()
    }

    /// A writer on a blank screen, with the cursor at the top left corner,
    /// writing in light gray.
    pub fn init() -> (r: Self)
        ensures
            r.wf(),
            r.cells() == Seq::new(BUFFER_CELLS as nat, |i: int| blank_cell()),
            r.cursor() == (0usize, 0usize),
            r.current_color() == Color::LightGray,
    {
        Self { color: Color::LightGray, buffer: TextBuffer::new((32u8, Color::LightGray)) }
    }

    /// The cell at `index`, counting row after row.
    pub fn cell(&self, index: usize) -> (r: (u8, Color))
        requires
            self.wf(),
            index < BUFFER_CELLS,
        ensures
            r == self.cells()[index as int],
    {
        self.buffer.cell(index)
    }

    /// The cursor: column, then row.
    pub fn get_cursor(&self) -> (r: (usize, usize))
        ensures
            r == self.cursor(),
    {
        self.buffer.get_cursor()
    }

    /// The colour of the bytes written next.
    pub fn get_color(&self) -> (r: Color)
        ensures
            r == self.current_color(),
    {
        self.color
    }

    /// Makes `color` the colour of the bytes written next.
    pub fn set_color(&mut self, color: Color)
        ensures
            old(self).wf() ==> final(self).wf(),
            final(self).current_color() == color,
            final(self).cursor() == old(self).cursor(),
            final(self).cells() == old(self).cells(),
    {
        self.color = color;
    }

    /// Puts the cursor at column `x` of row `y`.
    pub fn cursor_xy(&mut self, x: usize, y: usize)
        ensures
            old(self).wf() ==> final(self).wf(),
            final(self).cursor() == (x, y),
            final(self).cells() == old(self).cells(),
            final(self).current_color() == old(self).current_color(),
    {
        self.buffer.set_cursor(x, y);
    }

    /// Moves the cursor `offset` columns to the right.
    pub fn cursor_move(&mut self, offset: usize)
        requires
            old(self).cursor().0 + offset <= usize::MAX,
        ensures
            old(self).wf() ==> final(self).wf(),
            final(self).cursor() == ((old(self).cursor().0 + offset) as usize, old(self).cursor().1),
            final(self).cells() == old(self).cells(),
            final(self).current_color() == old(self).current_color(),
    {
        self.buffer.advance(offset);
    }

    /// Writes `byte` at the cursor in the writer's colour.
    pub fn write_byte(&mut self, byte: u8)
        requires
            old(self).wf(),
            !write_faults(old(self).cursor(), byte),
        ensures
            final(self).wf(),
            final(self).cursor() == next_cursor(old(self).cursor(), byte),
            final(self).cells() == next_cells(old(self).cells(), old(self).cursor(), byte, old(self).current_color()),
            final(self).current_color() == old(self).current_color(),
    {
        let color = self.color;
        self.buffer.write(byte, color);
    }

    /// Writes the UTF-8 bytes of `string` one by one in the writer's colour.
    pub fn write_string(&mut self, string: &str)
        requires
            old(self).wf(),
            writes_within(old(self).cursor(), string.spec_bytes()),
        ensures
            final(self).wf(),
            final(self).cursor() == cursor_after(old(self).cursor(), string.spec_bytes()),
            final(self).cells() == cells_after(old(self).cells(), old(self).cursor(), string.spec_bytes(), old(self).current_color()),
            final(self).current_color() == old(self).current_color(),
    {
        let color = self.color;
        self.buffer.write_all(string.as_bytes(), color);
    }
}

} // verus!
