//! The VGA text-mode screen: a grid of 25 rows of 80 cells, each cell a
//! byte and a colour, and the cursor rules by which bytes are placed on it.
//!
//! Both the kernel's `Writer` and the console driver share these rules.  A
//! cursor is a pair (column, row).  A byte is placed as follows:
//!  * a zero byte, or any byte once the row is past 25, is ignored;
//!  * a newline, or any byte while the column is 80, moves the cursor to the
//!    start of the next row and is not placed;
//!  * any other byte is stored at (column, row) and the column advances.
//! A byte that falls under the last rule while the row is 25 or the column
//! is past 80 would land outside the grid: such a write is not allowed.
use vstd::prelude::*;

verus! {

/// Number of cells in a row.
pub const BUFFER_WIDTH: usize = 80;

/// Number of rows on the screen.
pub const BUFFER_HEIGHT: usize = 25;

/// Number of cells on the screen.
pub const BUFFER_CELLS: usize = 2000;

/// The newline byte.
pub const NEWLINE: u8 = 10;

/// Whether `byte` is stored in a cell when written at `cursor`.
pub open spec fn places_cell(cursor: (usize, usize), byte: u8) -> bool {
    &&& byte != 0
    &&& cursor.1 <= 25
    &&& byte != NEWLINE
    &&& cursor.0 != 80
}

/// Whether writing `byte` at `cursor` would address a cell outside the grid.
pub open spec fn write_faults(cursor: (usize, usize), byte: u8) -> bool {
    places_cell(cursor, byte) && (cursor.1 >= 25 || cursor.0 > 80)
}

/// Index, in row-major order, of the cell under `cursor`.
pub open spec fn cell_index(cursor: (usize, usize)) -> int {
    cursor.1 * 80 + cursor.0
}

/// The cursor after writing `byte` at `cursor`.
pub open spec fn next_cursor(cursor: (usize, usize), byte: u8) -> (usize, usize) {
    if byte == 0 || cursor.1 > 25 {
        cursor
    } else if byte == NEWLINE || cursor.0 == 80 {
        (0, (cursor.1 + 1) as usize)
    } else {
        ((cursor.0 + 1) as usize, cursor.1)
    }
}

/// The cells after writing `byte` in `color` at `cursor`.
pub open spec fn next_cells<C>(cells: Seq<(u8, C)>, cursor: (usize, usize), byte: u8, color: C) -> Seq<(u8, C)> {
    if places_cell(cursor, byte) {
        cells.update(cell_index(cursor), (byte, color))
    } else {
        cells
    }
}

/// The cursor after writing `bytes` one by one, starting at `cursor`.
pub open spec fn cursor_after(cursor: (usize, usize), bytes: Seq<u8>) -> (usize, usize)
    decreases bytes.len(),
{
    if bytes.len() == 0 {
        cursor
    } else {
        next_cursor(cursor_after(cursor, bytes.drop_last()), bytes.last())
    }
}

/// The cells after writing `bytes` one by one in `color`, starting at `cursor`.
pub open spec fn cells_after<C>(cells: Seq<(u8, C)>, cursor: (usize, usize), bytes: Seq<u8>, color: C) -> Seq<(u8, C)>
    decreases bytes.len(),
{
    if bytes.len() == 0 {
        cells
    } else {
        let earlier = bytes.drop_last();
        next_cells(cells_after(cells, cursor, earlier, color), cursor_after(cursor, earlier), bytes.last(), color)
    }
}

/// Whether writing `bytes` one by one from `cursor` never addresses a cell
/// outside the grid.
pub open spec fn writes_within(cursor: (usize, usize), bytes: Seq<u8>) -> bool {
    forall|i: int| 0 <= i < bytes.len() ==> !write_faults(#[trigger] cursor_after(cursor, bytes.take(i)), bytes[i])
}

/// Whether a cursor lies where the writing rules can bring it from the home
/// position: column at most 80, row at most 26.
pub open spec fn cursor_in_bounds(cursor: (usize, usize)) -> bool {
    cursor.0 <= 80 && cursor.1 <= 26
}

/// Writing a concatenation is writing its two parts in turn: the cursor,
/// the cells and the absence of faults all compose.
pub proof fn lemma_write_concat<C>(cells: Seq<(u8, C)>, cursor: (usize, usize), a: Seq<u8>, b: Seq<u8>, color: C)
    ensures
        cursor_after(cursor, a + b) == cursor_after(cursor_after(cursor, a), b),
        cells_after(cells, cursor, a + b, color) == cells_after(cells_after(cells, cursor, a, color), cursor_after(cursor, a), b, color),
        writes_within(cursor, a + b) <==> (writes_within(cursor, a) && writes_within(cursor_after(cursor, a), b)),
    decreases b.len(),
{
    if b.len() == 0 {
        assert(a + b =~= a);
    } else {
        let b0 = b.drop_last();
        lemma_write_concat(cells, cursor, a, b0, color);
        assert((a + b).drop_last() =~= a + b0);
        assert((a + b).last() == b.last());
    }
    lemma_writes_within_concat(cursor, a, b);
}

/// The cursor after a prefix of a concatenation.
proof fn lemma_cursor_after_prefix(cursor: (usize, usize), a: Seq<u8>, b: Seq<u8>, i: int)
    requires
        0 <= i <= b.len(),
    ensures
        cursor_after(cursor, (a + b).take(a.len() + i)) == cursor_after(cursor_after(cursor, a), b.take(i)),
    decreases i,
{
    if i == 0 {
        assert((a + b).take(a.len() as int) =~= a);
        assert(b.take(0) =~= Seq::<u8>::empty());
    } else {
        lemma_cursor_after_prefix(cursor, a, b, i - 1);
        assert((a + b).take(a.len() + i).drop_last() =~= (a + b).take(a.len() + i - 1));
        assert(b.take(i).drop_last() =~= b.take(i - 1));
    }
}

proof fn lemma_writes_within_concat(cursor: (usize, usize), a: Seq<u8>, b: Seq<u8>)
    ensures
        writes_within(cursor, a + b) <==> (writes_within(cursor, a) && writes_within(cursor_after(cursor, a), b)),
{
    let ab = a + b;
    if writes_within(cursor, ab) {
        assert forall|i: int| 0 <= i < a.len() implies !write_faults(#[trigger] cursor_after(cursor, a.take(i)), a[i]) by {
            assert(ab.take(i) =~= a.take(i));
            assert(ab[i] == a[i]);
            assert(!write_faults(cursor_after(cursor, ab.take(i)), ab[i]));
        }
        assert forall|i: int| 0 <= i < b.len() implies !write_faults(#[trigger] cursor_after(cursor_after(cursor, a), b.take(i)), b[i]) by {
            lemma_cursor_after_prefix(cursor, a, b, i);
            assert(ab[a.len() + i] == b[i]);
            assert(!write_faults(cursor_after(cursor, ab.take(a.len() + i)), ab[a.len() + i]));
        }
    }
    if writes_within(cursor, a) && writes_within(cursor_after(cursor, a), b) {
        assert forall|i: int| 0 <= i < ab.len() implies !write_faults(#[trigger] cursor_after(cursor, ab.take(i)), ab[i]) by {
            if i < a.len() {
                assert(ab.take(i) =~= a.take(i));
                assert(ab[i] == a[i]);
                assert(!write_faults(cursor_after(cursor, a.take(i)), a[i]));
            } else {
                let j = i - a.len();
                lemma_cursor_after_prefix(cursor, a, b, j);
                assert(ab[i] == b[j]);
                assert(!write_faults(cursor_after(cursor_after(cursor, a), b.take(j)), b[j]));
            }
        }
    }
}

/// A cursor that starts in bounds stays in bounds, whatever is written.
pub proof fn lemma_cursor_stays_in_bounds(cursor: (usize, usize), bytes: Seq<u8>)
    requires
        cursor_in_bounds(cursor),
    ensures
        cursor_in_bounds(cursor_after(cursor, bytes)),
    decreases bytes.len(),
{
    if bytes.len() > 0 {
        lemma_cursor_stays_in_bounds(cursor, bytes.drop_last());
    }
}

/// Whether the cursor can be moved `offset` columns without overflow.
pub fn can_advance(cursor: (usize, usize), offset: usize) -> (r: bool)
    ensures
        r == (cursor.0 + offset <= usize::MAX),
{
    offset <= usize::MAX - cursor.0
}

/// Whether writing `bytes` one by one from `cursor` stays within the grid.
pub fn writes_fit(cursor: (usize, usize), bytes: &[u8]) -> (r: bool)
    ensures
        r == writes_within(cursor, bytes@),
{
    let mut at = cursor;
    let mut i: usize = 0;
    while i < bytes.len()
        invariant
            i <= bytes@.len(),
            at == cursor_after(cursor, bytes@.take(i as int)),
            forall|j: int| 0 <= j < i ==> !write_faults(#[trigger] cursor_after(cursor, bytes@.take(j)), bytes@[j]),
        decreases bytes@.len() - i,
    {
        let byte = bytes[i];
        let places = byte != 0 && at.1 <= 25 && byte != NEWLINE && at.0 != 80;
        if places && (at.1 >= 25 || at.0 > 80) {
            return false;
        }
        proof {
            let next = bytes@.take(i + 1);
            assert(next.drop_last() =~= bytes@.take(i as int));
            assert(next.last() == byte);
        }
        if byte == 0 || at.1 > 25 {
        } else if byte == NEWLINE || at.0 == 80 {
            at = (0, at.1 + 1);
        } else {
            at = (at.0 + 1, at.1);
        }
        i = i + 1;
    }
    true
}

/// A screen of 25 rows of 80 cells with a cursor, where `C` is the colour
/// type of the cells.
pub struct TextBuffer<C: Copy> {
    cells: Vec<(u8, C)>,
    cursor: (usize, usize),
}

impl<C: Copy> TextBuffer<C> {
    /// The cells cover the whole screen.
    pub closed spec fn wf(&self) -> bool {
        self.cells.len() == BUFFER_CELLS
    }

    /// The cells, row after row.
    pub closed spec fn cells(&self) -> Seq<(u8, C)> {
        self.cells@
    }

    /// The cursor: column, then row.
    pub closed spec fn cursor(&self) -> (usize, usize) {
        self.cursor
    }

    /// A screen whose every cell holds `blank`, with the cursor at the
    /// top left corner.
    pub fn new(blank: (u8, C)) -> (r: Self)
        ensures
            r.wf(),
            r.cells() == Seq::new(BUFFER_CELLS as nat, |i: int| blank),
            r.cursor() == (0usize, 0usize),
    {
        let mut cells: Vec<(u8, C)> = Vec::new();
        let mut i: usize = 0;
        while i < BUFFER_CELLS
            invariant
                i <= BUFFER_CELLS,
                cells@ == Seq::new(i as nat, |j: int| blank),
            decreases BUFFER_CELLS - i,
        {
            cells.push(blank);
            i = i + 1;
            assert(cells@ =~= Seq::new(i as nat, |j: int| blank));
        }
        TextBuffer { cells, cursor: (0, 0) }
    }

    /// The cell at `index`, counting row after row.
    pub fn cell(&self, index: usize) -> (r: (u8, C))
        requires
            self.wf(),
            index < BUFFER_CELLS,
        ensures
            r == self.cells()[index as int],
    {
        self.cells[index]
    }

    /// The cursor.
    pub fn get_cursor(&self) -> (r: (usize, usize))
        ensures
            r == self.cursor(),
    {
        self.cursor
    }

    /// Puts the cursor at column `x` of row `y`.
    pub fn set_cursor(&mut self, x: usize, y: usize)
        ensures
            old(self).wf() ==> final(self).wf(),
            final(self).cursor() == (x, y),
            final(self).cells() == old(self).cells(),
    {
        self.cursor = (x, y);
    }

    /// Moves the cursor `offset` columns to the right.
    pub fn advance(&mut self, offset: usize)
        requires
            old(self).cursor().0 + offset <= usize::MAX,
        ensures
            old(self).wf() ==> final(self).wf(),
            final(self).cursor() == ((old(self).cursor().0 + offset) as usize, old(self).cursor().1),
            final(self).cells() == old(self).cells(),
    {
        self.cursor.0 = self.cursor.0 + offset;
    }

    /// Writes `byte` in `color` at the cursor, by the rules of this module.
    pub fn write(&mut self, byte: u8, color: C)
        requires
            old(self).wf(),
            !write_faults(old(self).cursor(), byte),
        ensures
            final(self).wf(),
            final(self).cursor() == next_cursor(old(self).cursor(), byte),
            final(self).cells() == next_cells(old(self).cells(), old(self).cursor(), byte, color),
    {
        if byte == 0 || self.cursor.1 > 25 {
            return;
        } else if byte == NEWLINE || self.cursor.0 == 80 {
            self.cursor.0 = 0;
            self.cursor.1 = self.cursor.1 + 1;
            return;
        }
        let index = self.cursor.1 * BUFFER_WIDTH + self.cursor.0;
        self.cells.set(index, (byte, color));
        self.cursor.0 = self.cursor.0 + 1;
    }

    /// Writes `bytes` one by one in `color`.
    pub fn write_all(&mut self, bytes: &[u8], color: C)
        requires
            old(self).wf(),
            writes_within(old(self).cursor(), bytes@),
        ensures
            final(self).wf(),
            final(self).cursor() == cursor_after(old(self).cursor(), bytes@),
            final(self).cells() == cells_after(old(self).cells(), old(self).cursor(), bytes@, color),
    {
        let ghost start = self.cursor();
        let ghost start_cells = self.cells();
        let mut i: usize = 0;
        while i < bytes.len()
            invariant
                i <= bytes@.len(),
                self.wf(),
                writes_within(start, bytes@),
                self.cursor() == cursor_after(start, bytes@.take(i as int)),
                self.cells() == cells_after(start_cells, start, bytes@.take(i as int), color),
            decreases bytes@.len() - i,
        {
            proof {
                assert(!write_faults(cursor_after(start, bytes@.take(i as int)), bytes@[i as int]));
                let next = bytes@.take(i + 1);
                assert(next.drop_last() =~= bytes@.take(i as int));
                assert(next.last() == bytes@[i as int]);
            }
            self.write(bytes[i], color);
            i = i + 1;
        }
        proof {
            assert(bytes@.take(i as int) =~= bytes@);
        }
    }
}

} // verus!
