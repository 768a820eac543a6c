//! A grid of character cells with a cursor, and the editing operations of a VT terminal.

use vstd::prelude::*;

use crate::terminal::cell::{blank_cell, Cell, CellModel};
use crate::terminal::cursor::{default_cursor, Cursor};
use crate::terminal::rendition::{default_rendition, Rendition};

verus! {

#[derive(Debug, Clone, Copy, PartialEq, Eq, Structural)]
pub struct FramebufferSize {
    pub columns: u16,
    pub rows: u16,
}

/// A grid of cells, row by row, with a cursor and the rendition that new text gets.
#[derive(Debug, Clone, PartialEq, Eq)]
pub struct Framebuffer {
    pub size: FramebufferSize,
    pub cursor: Cursor,
    pub rendition: Rendition,
    cells: Vec<Vec<Cell>>,
    wrap_pending: bool,
}

/// The value of a framebuffer.
pub struct FramebufferModel {
    pub size: FramebufferSize,
    pub cursor: Cursor,
    pub rendition: Rendition,
    /// The cells, row by row.
    pub cells: Seq<Seq<CellModel>>,
    /// Whether the next character goes to the start of the next line (the cursor stands past
    /// the last column).
    pub wrap_pending: bool,
}

pub open spec fn cells_view(cells: Seq<Cell>) -> Seq<CellModel> {
    cells.map_values(|c: Cell| c@)
}

pub open spec fn row_view(row: Vec<Cell>) -> Seq<CellModel> {
    cells_view(row@)
}

pub open spec fn grid_view(cells: Seq<Vec<Cell>>) -> Seq<Seq<CellModel>> {
    cells.map_values(|row: Vec<Cell>| row_view(row))
}

impl View for Framebuffer {
    type V = FramebufferModel;

    closed spec fn view(&self) -> FramebufferModel {
        FramebufferModel {
            size: self.size,
            cursor: self.cursor,
            rendition: self.rendition,
            cells: grid_view(self.cells@),
            wrap_pending: self.wrap_pending,
        }
    }
}

/// A row of `n` blank cells.
pub open spec fn blank_row(n: nat, rendition: Rendition) -> Seq<CellModel> {
    Seq::new(n, |_i: int| blank_cell(rendition))
}

/// `rows` rows of `columns` blank cells.
pub open spec fn blank_grid(columns: nat, rows: nat, rendition: Rendition) -> Seq<Seq<CellModel>> {
    Seq::new(rows, |_i: int| blank_row(columns, rendition))
}

/// `row` with its cells from `from` up to `to` blanked.
pub open spec fn blank_span(row: Seq<CellModel>, from: int, to: int, rendition: Rendition) -> Seq<CellModel> {
    Seq::new(row.len(), |c: int| if from <= c < to { blank_cell(rendition) } else { row[c] })
}

/// A well-formed framebuffer: `rows` rows of `columns` cells, and the cursor on the grid (at
/// 0 along a dimension of size 0).
pub open spec fn framebuffer_wf(m: FramebufferModel) -> bool {
    &&& m.cells.len() == m.size.rows
    &&& forall|r: int| 0 <= r < m.cells.len() ==> #[trigger] m.cells[r].len() == m.size.columns
    &&& if m.size.columns > 0 { m.cursor.column < m.size.columns } else { m.cursor.column == 0 }
    &&& if m.size.rows > 0 { m.cursor.row < m.size.rows } else { m.cursor.row == 0 }
}

/// The last column or row of a dimension of size `n`, or 0.
pub open spec fn last_index(n: u16) -> u16 {
    if n == 0 { 0 } else { (n - 1) as u16 }
}

pub open spec fn spec_new(columns: u16, rows: u16) -> FramebufferModel {
    FramebufferModel {
        size: FramebufferSize { columns, rows },
        cursor: default_cursor(),
        rendition: default_rendition(),
        cells: blank_grid(columns as nat, rows as nat, default_rendition()),
        wrap_pending: false,
    }
}

pub open spec fn spec_resize(m: FramebufferModel, columns: u16, rows: u16) -> FramebufferModel {
    FramebufferModel {
        size: FramebufferSize { columns, rows },
        cursor: Cursor { column: 0, row: 0, visible: m.cursor.visible },
        rendition: m.rendition,
        cells: Seq::new(
            rows as nat,
            |r: int|
                Seq::new(
                    columns as nat,
                    |c: int|
                        if r < m.size.rows && c < m.size.columns {
                            m.cells[r][c]
                        } else {
                            blank_cell(default_rendition())
                        },
                ),
        ),
        wrap_pending: false,
    }
}

pub open spec fn spec_clear(m: FramebufferModel) -> FramebufferModel {
    FramebufferModel {
        cells: blank_grid(m.size.columns as nat, m.size.rows as nat, m.rendition),
        cursor: Cursor { column: 0, row: 0, visible: m.cursor.visible },
        wrap_pending: false,
        ..m
    }
}

/// The framebuffer with the cells of the cursor's row from `from` up to `to` blanked.
pub open spec fn blank_in_cursor_row(m: FramebufferModel, from: int, to: int) -> FramebufferModel {
    if from < to {
        FramebufferModel {
            cells: m.cells.update(m.cursor.row as int, blank_span(m.cells[m.cursor.row as int], from, to, m.rendition)),
            ..m
        }
    } else {
        m
    }
}

pub open spec fn spec_clear_line_from_cursor(m: FramebufferModel) -> FramebufferModel {
    blank_in_cursor_row(m, m.cursor.column as int, m.size.columns as int)
}

pub open spec fn spec_clear_line_to_cursor(m: FramebufferModel) -> FramebufferModel {
    blank_in_cursor_row(m, 0, m.cursor.column + 1)
}

pub open spec fn spec_clear_line(m: FramebufferModel) -> FramebufferModel {
    blank_in_cursor_row(m, 0, m.size.columns as int)
}

pub open spec fn spec_clear_screen_from_cursor(m: FramebufferModel) -> FramebufferModel {
    let m1 = spec_clear_line_from_cursor(m);
    FramebufferModel {
        cells: Seq::new(
            m1.cells.len(),
            |r: int| if r > m.cursor.row { blank_row(m.size.columns as nat, m.rendition) } else { m1.cells[r] },
        ),
        ..m1
    }
}

pub open spec fn spec_clear_screen_to_cursor(m: FramebufferModel) -> FramebufferModel {
    let m1 = FramebufferModel {
        cells: Seq::new(
            m.cells.len(),
            |r: int| if r < m.cursor.row { blank_row(m.size.columns as nat, m.rendition) } else { m.cells[r] },
        ),
        ..m
    };
    spec_clear_line_to_cursor(m1)
}

/// The grid moved up by `lines` rows (at most all of them), with blank rows coming in at the
/// bottom.
pub open spec fn spec_scroll_up(m: FramebufferModel, lines: u16) -> FramebufferModel {
    let l = if lines < m.size.rows { lines } else { m.size.rows };
    FramebufferModel {
        cells: m.cells.skip(l as int) + Seq::new(l as nat, |_i: int| blank_row(m.size.columns as nat, m.rendition)),
        ..m
    }
}

pub open spec fn spec_set_cursor(m: FramebufferModel, column: u16, row: u16) -> FramebufferModel {
    FramebufferModel {
        cursor: Cursor {
            column: if column < last_index(m.size.columns) { column } else { last_index(m.size.columns) },
            row: if row < last_index(m.size.rows) { row } else { last_index(m.size.rows) },
            visible: m.cursor.visible,
        },
        wrap_pending: false,
        ..m
    }
}

pub open spec fn spec_advance_column(m: FramebufferModel) -> FramebufferModel {
    if m.cursor.column + 1 >= m.size.columns {
        FramebufferModel {
            cursor: Cursor { column: last_index(m.size.columns), ..m.cursor },
            wrap_pending: true,
            ..m
        }
    } else {
        FramebufferModel { cursor: Cursor { column: (m.cursor.column + 1) as u16, ..m.cursor }, ..m }
    }
}

pub open spec fn spec_line_feed(m: FramebufferModel) -> FramebufferModel {
    let m1 = FramebufferModel { wrap_pending: false, ..m };
    if m.cursor.row + 1 >= m.size.rows {
        spec_scroll_up(m1, 1)
    } else {
        FramebufferModel { cursor: Cursor { row: (m.cursor.row + 1) as u16, ..m.cursor }, ..m1 }
    }
}

pub open spec fn spec_backspace(m: FramebufferModel) -> FramebufferModel {
    FramebufferModel {
        cursor: Cursor { column: if m.cursor.column == 0 { 0 } else { (m.cursor.column - 1) as u16 }, ..m.cursor },
        wrap_pending: false,
        ..m
    }
}

/// Writing `text` at the cursor: first to the next line if a wrap is pending, then into the
/// cursor's cell with the current rendition, then one column on.
pub open spec fn spec_put(m: FramebufferModel, text: Seq<char>) -> FramebufferModel {
    if m.size.columns == 0 || m.size.rows == 0 {
        m
    } else {
        let m1 = if m.wrap_pending {
            spec_line_feed(FramebufferModel { cursor: Cursor { column: 0, ..m.cursor }, ..m })
        } else {
            m
        };
        let r = m1.cursor.row as int;
        let c = m1.cursor.column as int;
        let m2 = FramebufferModel {
            cells: m1.cells.update(r, m1.cells[r].update(c, CellModel { text, rendition: m1.rendition })),
            ..m1
        };
        spec_advance_column(m2)
    }
}

/// How many lines an insertion or deletion of `count` lines at the cursor affects.
pub open spec fn affected_lines(m: FramebufferModel, count: u16) -> nat {
    let room = if m.cursor.row < m.size.rows { m.size.rows - m.cursor.row } else { 0 };
    if count < room { count as nat } else { room as nat }
}

pub open spec fn spec_insert_lines(m: FramebufferModel, count: u16) -> FramebufferModel {
    let k = affected_lines(m, count) as int;
    let row = m.cursor.row as int;
    if k == 0 {
        m
    } else {
        FramebufferModel {
            cells: m.cells.take(row) + Seq::new(k as nat, |_i: int| blank_row(m.size.columns as nat, m.rendition))
                + m.cells.subrange(row, m.size.rows - k),
            ..m
        }
    }
}

pub open spec fn spec_delete_lines(m: FramebufferModel, count: u16) -> FramebufferModel {
    let k = affected_lines(m, count) as int;
    let row = m.cursor.row as int;
    if k == 0 {
        m
    } else {
        FramebufferModel {
            cells: m.cells.take(row) + m.cells.subrange(row + k, m.size.rows as int)
                + Seq::new(k as nat, |_i: int| blank_row(m.size.columns as nat, m.rendition)),
            ..m
        }
    }
}

pub open spec fn spec_erase_characters(m: FramebufferModel, count: u16) -> FramebufferModel {
    let end = if m.cursor.column + count < m.size.columns { m.cursor.column + count } else { m.size.columns as int };
    blank_in_cursor_row(m, m.cursor.column as int, end)
}

/// Erasing `count` characters blanks, in the current rendition, exactly the cells of the
/// cursor's row from the cursor's column up to `count` cells on (no further than the end of
/// the row); every other cell, the cursor, the size and the rendition stay as they were.
pub proof fn lemma_erase_characters_cells(m: FramebufferModel, count: u16)
    requires
        framebuffer_wf(m),
        m.cursor.column < m.size.columns && count > 0 ==> m.cursor.row < m.size.rows,
    ensures
        ({
            let m2 = spec_erase_characters(m, count);
            &&& m2.size == m.size
            &&& m2.cursor == m.cursor
            &&& m2.rendition == m.rendition
            &&& m2.wrap_pending == m.wrap_pending
            &&& framebuffer_wf(m2)
            &&& forall|r: int, c: int|
                0 <= r < m.size.rows && 0 <= c < m.size.columns ==> #[trigger] m2.cells[r][c] == if r
                    == m.cursor.row && m.cursor.column <= c < m.cursor.column + count {
                    blank_cell(m.rendition)
                } else {
                    m.cells[r][c]
                }
        }),
{
    let m2 = spec_erase_characters(m, count);
    let end = if m.cursor.column + count < m.size.columns { m.cursor.column + count } else { m.size.columns as int };
    if m.cursor.column < end {
        let row = m.cursor.row as int;
        assert(m.cells[row].len() == m.size.columns);
        assert forall|r: int, c: int| 0 <= r < m.size.rows && 0 <= c < m.size.columns implies #[trigger] m2.cells[r][c]
            == if r == m.cursor.row && m.cursor.column <= c < m.cursor.column + count {
            blank_cell(m.rendition)
        } else {
            m.cells[r][c]
        } by {
            if r == row {
                assert(m2.cells[r] == blank_span(m.cells[row], m.cursor.column as int, end, m.rendition));
            }
        }
        assert forall|r: int| 0 <= r < m2.cells.len() implies #[trigger] m2.cells[r].len() == m2.size.columns by {
            assert(m.cells[r].len() == m.size.columns);
        }
    } else {
        assert forall|r: int, c: int| 0 <= r < m.size.rows && 0 <= c < m.size.columns implies #[trigger] m2.cells[r][c]
            == if r == m.cursor.row && m.cursor.column <= c < m.cursor.column + count {
            blank_cell(m.rendition)
        } else {
            m.cells[r][c]
        } by {
            if r == m.cursor.row && m.cursor.column <= c < m.cursor.column + count {
                assert(c < end);
            }
        }
    }
}

fn make_blank_row(columns: u16, rendition: Rendition) -> (v: Vec<Cell>)
    ensures
        row_view(v) == blank_row(columns as nat, rendition),
{
    let mut v: Vec<Cell> = Vec::new();
    let mut i: u16 = 0;
    while i < columns
        invariant
            i <= columns,
            v@.len() == i,
            row_view(v) == blank_row(i as nat, rendition),
        decreases columns - i,
    {
        let ghost before = v@;
        let cell = Cell::blank(rendition);
        v.push(cell);
        proof {
            assert forall|j: int| 0 <= j < i + 1 implies #[trigger] row_view(v)[j] == blank_cell(rendition) by {
                if j < i {
                    assert(v@[j] == before[j]);
                    assert(cells_view(before)[j] == blank_row(i as nat, rendition)[j]);
                }
            }
        }
        i = i + 1;
        assert(row_view(v) =~= blank_row(i as nat, rendition));
    }
    v
}

fn make_blank_grid(columns: u16, rows: u16, rendition: Rendition) -> (v: Vec<Vec<Cell>>)
    ensures
        grid_view(v@) == blank_grid(columns as nat, rows as nat, rendition),
{
    let mut v: Vec<Vec<Cell>> = Vec::new();
    let mut i: u16 = 0;
    while i < rows
        invariant
            i <= rows,
            v@.len() == i,
            grid_view(v@) == blank_grid(columns as nat, i as nat, rendition),
        decreases rows - i,
    {
        let row = make_blank_row(columns, rendition);
        let ghost before = v@;
        v.push(row);
        proof {
            assert forall|j: int| 0 <= j < i + 1 implies #[trigger] grid_view(v@)[j] == blank_row(columns as nat, rendition) by {
                if j < i {
                    assert(grid_view(v@)[j] == row_view(before[j]));
                    assert(grid_view(before)[j] == blank_grid(columns as nat, i as nat, rendition)[j]);
                }
            }
        }
        i = i + 1;
        assert(grid_view(v@) =~= blank_grid(columns as nat, i as nat, rendition));
    }
    v
}

impl Framebuffer {
    pub fn new(columns: u16, rows: u16) -> (r: Self)
        ensures
            r@ == spec_new(columns, rows),
            framebuffer_wf(r@),
    {
        let cells = make_blank_grid(columns, rows, Rendition::default());
        Framebuffer {
            size: FramebufferSize { columns, rows },
            cursor: Cursor::default(),
            rendition: Rendition::default(),
            cells,
            wrap_pending: false,
        }
    }

    /// The size of the grid.
    pub fn size(&self) -> (s: FramebufferSize)
        ensures
            s == self@.size,
    {
        self.size
    }

    /// The cursor.
    pub fn cursor(&self) -> (c: Cursor)
        ensures
            c == self@.cursor,
    {
        self.cursor
    }

    /// The rendition that new text gets.
    pub fn rendition(&self) -> (r: Rendition)
        ensures
            r == self@.rendition,
    {
        self.rendition
    }

    /// Whether the next character wraps to a new line first.
    pub fn wrap_pending(&self) -> (b: bool)
        ensures
            b == self@.wrap_pending,
    {
        self.wrap_pending
    }

    pub fn cell(&self, column: u16, row: u16) -> (r: Option<&Cell>)
        requires
            framebuffer_wf(self@),
        ensures
            (column < self@.size.columns && row < self@.size.rows) == r is Some,
            r matches Some(c) ==> c@ == self@.cells[row as int][column as int],
    {
        if column < self.size.columns && row < self.size.rows {
            assert(self@.cells[row as int] == row_view(self.cells@[row as int]));
            assert(self.cells@[row as int]@.len() == self.size.columns);
            Some(&self.cells[row as usize][column as usize])
        } else {
            None
        }
    }

    pub fn row(&self, row: u16) -> (r: Option<&[Cell]>)
        requires
            framebuffer_wf(self@),
        ensures
            (row < self@.size.rows) == r is Some,
            r matches Some(cells) ==> cells_view(cells@) == self@.cells[row as int],
    {
        if row >= self.size.rows {
            return None;
        }
        assert(self@.cells[row as int] == row_view(self.cells@[row as int]));
        Some(self.cells[row as usize].as_slice())
    }

    pub fn set_cursor(&mut self, column: u16, row: u16)
        ensures
            final(self)@ == spec_set_cursor(old(self)@, column, row),
    {
        let last_column: u16 = if self.size.columns == 0 { 0 } else { self.size.columns - 1 };
        let last_row: u16 = if self.size.rows == 0 { 0 } else { self.size.rows - 1 };
        self.cursor.column = if column < last_column { column } else { last_column };
        self.cursor.row = if row < last_row { row } else { last_row };
        self.wrap_pending = false;
    }

    pub fn advance_column(&mut self)
        requires
            framebuffer_wf(old(self)@),
        ensures
            final(self)@ == spec_advance_column(old(self)@),
    {
        if self.cursor.column + 1 >= self.size.columns {
            self.cursor.column = if self.size.columns == 0 { 0 } else { self.size.columns - 1 };
            self.wrap_pending = true;
        } else {
            self.cursor.column = self.cursor.column + 1;
        }
    }

    pub fn backspace(&mut self)
        ensures
            final(self)@ == spec_backspace(old(self)@),
    {
        self.wrap_pending = false;
        self.cursor.column = if self.cursor.column == 0 { 0 } else { self.cursor.column - 1 };
    }

    /// Replaces row `row` with `line`.
    fn replace_row(&mut self, row: usize, line: Vec<Cell>)
        requires
            row < old(self).cells@.len(),
        ensures
            final(self)@ == (FramebufferModel { cells: old(self)@.cells.update(row as int, row_view(line)), ..old(self)@ }),
    {
        let ghost before = self.cells@;
        self.cells.set(row, line);
        assert(grid_view(self.cells@) =~= grid_view(before).update(row as int, row_view(line)));
    }

    /// Blanks the cells of row `row` from `from` up to `to`.
    fn blank_span_in_row(&mut self, row: usize, from: usize, to: usize)
        requires
            framebuffer_wf(old(self)@),
            row < old(self)@.size.rows,
            from <= to <= old(self)@.size.columns,
        ensures
            final(self)@ == (FramebufferModel {
                cells: old(self)@.cells.update(
                    row as int,
                    blank_span(old(self)@.cells[row as int], from as int, to as int, old(self)@.rendition),
                ),
                ..old(self)@
            }),
    {
        let ghost m = self@;
        let mut line: Vec<Cell> = Vec::new();
        self.cells.set_and_swap(row, &mut line);
        assert(row_view(line) == m.cells[row as int]);
        let ghost original = row_view(line);
        let rendition = self.rendition;
        let mut c: usize = from;
        assert(row_view(line) =~= blank_span(original, from as int, from as int, rendition));
        while c < to
            invariant
                from <= c <= to,
                to <= original.len(),
                line@.len() == original.len(),
                row_view(line) == blank_span(original, from as int, c as int, rendition),
            decreases to - c,
        {
            let ghost before = line@;
            line.set(c, Cell::blank(rendition));
            proof {
                assert forall|j: int| 0 <= j < original.len() implies #[trigger] row_view(line)[j] == blank_span(original, from as int, c + 1, rendition)[j] by {
                    if j != c {
                        assert(line@[j] == before[j]);
                        assert(cells_view(before)[j] == blank_span(original, from as int, c as int, rendition)[j]);
                    }
                }
            }
            c = c + 1;
            assert(row_view(line) =~= blank_span(original, from as int, c as int, rendition));
        }
        let ghost emptied = self.cells@;
        self.cells.set_and_swap(row, &mut line);
        assert(grid_view(self.cells@) =~= m.cells.update(row as int, blank_span(original, from as int, to as int, rendition))) by {
            assert forall|r: int| 0 <= r < m.cells.len() && r != row implies #[trigger] grid_view(self.cells@)[r] == m.cells[r] by {
                assert(self.cells@[r] == emptied[r]);
            }
        }
    }

    /// Blanks the cells of the cursor's row from `from` up to `to`, if any.
    fn blank_cursor_row(&mut self, from: u16, to: u16)
        requires
            framebuffer_wf(old(self)@),
            to <= old(self)@.size.columns,
            from < to ==> old(self)@.cursor.row < old(self)@.size.rows,
        ensures
            final(self)@ == blank_in_cursor_row(old(self)@, from as int, to as int),
            framebuffer_wf(final(self)@),
    {
        if from < to {
            self.blank_span_in_row(self.cursor.row as usize, from as usize, to as usize);
        }
    }

    pub fn clear_line_from_cursor(&mut self)
        requires
            framebuffer_wf(old(self)@),
            old(self)@.cursor.column < old(self)@.size.columns ==> old(self)@.cursor.row < old(self)@.size.rows,
        ensures
            final(self)@ == spec_clear_line_from_cursor(old(self)@),
            framebuffer_wf(final(self)@),
    {
        self.blank_cursor_row(self.cursor.column, self.size.columns);
    }

    pub fn clear_line_to_cursor(&mut self)
        requires
            framebuffer_wf(old(self)@),
            old(self)@.size.columns > 0,
            old(self)@.size.rows > 0,
        ensures
            final(self)@ == spec_clear_line_to_cursor(old(self)@),
            framebuffer_wf(final(self)@),
    {
        self.blank_cursor_row(0, self.cursor.column + 1);
    }

    pub fn clear_line(&mut self)
        requires
            framebuffer_wf(old(self)@),
            old(self)@.size.columns > 0 ==> old(self)@.size.rows > 0,
        ensures
            final(self)@ == spec_clear_line(old(self)@),
            framebuffer_wf(final(self)@),
    {
        self.blank_cursor_row(0, self.size.columns);
    }

    pub fn erase_characters(&mut self, count: u16)
        requires
            framebuffer_wf(old(self)@),
            old(self)@.cursor.column + count <= u16::MAX,
            old(self)@.cursor.column < old(self)@.size.columns && count > 0 ==> old(self)@.cursor.row < old(self)@.size.rows,
        ensures
            final(self)@ == spec_erase_characters(old(self)@, count),
            framebuffer_wf(final(self)@),
    {
        let start = self.cursor.column;
        let end = if start + count < self.size.columns { start + count } else { self.size.columns };
        self.blank_cursor_row(start, end);
    }

    /// Blanks whole rows from `from` up to `to`.
    fn blank_rows(&mut self, from: u16, to: u16)
        requires
            framebuffer_wf(old(self)@),
            from <= to <= old(self)@.size.rows,
        ensures
            final(self)@ == (FramebufferModel {
                cells: Seq::new(
                    old(self)@.cells.len(),
                    |r: int| if from <= r < to { blank_row(old(self)@.size.columns as nat, old(self)@.rendition) } else { old(self)@.cells[r] },
                ),
                ..old(self)@
            }),
            framebuffer_wf(final(self)@),
    {
        let ghost m = self@;
        let mut r: u16 = from;
        assert(self@.cells =~= Seq::new(
            m.cells.len(),
            |i: int| if from <= i < r { blank_row(m.size.columns as nat, m.rendition) } else { m.cells[i] },
        ));
        while r < to
            invariant
                framebuffer_wf(m),
                from <= r <= to <= m.size.rows,
                self.size == m.size,
                self.rendition == m.rendition,
                self@ == (FramebufferModel {
                    cells: Seq::new(
                        m.cells.len(),
                        |i: int| if from <= i < r { blank_row(m.size.columns as nat, m.rendition) } else { m.cells[i] },
                    ),
                    ..m
                }),
                self.cells@.len() == m.cells.len(),
            decreases to - r,
        {
            let line = make_blank_row(self.size.columns, self.rendition);
            self.replace_row(r as usize, line);
            r = r + 1;
            assert(self@.cells =~= Seq::new(
                m.cells.len(),
                |i: int| if from <= i < r { blank_row(m.size.columns as nat, m.rendition) } else { m.cells[i] },
            ));
        }
    }

    pub fn clear_screen_from_cursor(&mut self)
        requires
            framebuffer_wf(old(self)@),
            old(self)@.cursor.column < old(self)@.size.columns ==> old(self)@.cursor.row < old(self)@.size.rows,
        ensures
            final(self)@ == spec_clear_screen_from_cursor(old(self)@),
            framebuffer_wf(final(self)@),
    {
        let ghost m = self@;
        self.clear_line_from_cursor();
        let ghost m1 = self@;
        if self.cursor.row < self.size.rows {
            self.blank_rows(self.cursor.row + 1, self.size.rows);
        }
        assert(self@.cells =~= spec_clear_screen_from_cursor(m).cells);
    }

    pub fn clear_screen_to_cursor(&mut self)
        requires
            framebuffer_wf(old(self)@),
            old(self)@.size.columns > 0,
            old(self)@.size.rows > 0,
        ensures
            final(self)@ == spec_clear_screen_to_cursor(old(self)@),
            framebuffer_wf(final(self)@),
    {
        let ghost m = self@;
        self.blank_rows(0, self.cursor.row);
        assert(self@.cells =~= Seq::new(
            m.cells.len(),
            |r: int| if r < m.cursor.row { blank_row(m.size.columns as nat, m.rendition) } else { m.cells[r] },
        ));
        self.clear_line_to_cursor();
    }

    pub fn clear(&mut self)
        requires
            framebuffer_wf(old(self)@),
        ensures
            final(self)@ == spec_clear(old(self)@),
            framebuffer_wf(final(self)@),
    {
        self.cells = make_blank_grid(self.size.columns, self.size.rows, self.rendition);
        self.cursor = Cursor { column: 0, row: 0, visible: self.cursor.visible };
        self.wrap_pending = false;
    }

    pub fn scroll_up(&mut self, lines: u16)
        requires
            framebuffer_wf(old(self)@),
        ensures
            final(self)@ == spec_scroll_up(old(self)@, lines),
            framebuffer_wf(final(self)@),
    {
        let ghost m = self@;
        let l: u16 = if lines < self.size.rows { lines } else { self.size.rows };
        let mut k: u16 = 0;
        assert(m.cells.skip(0) + Seq::new(0, |_i: int| blank_row(m.size.columns as nat, m.rendition)) =~= m.cells);
        while k < l
            invariant
                framebuffer_wf(m),
                k <= l <= m.size.rows,
                self.size == m.size,
                self.rendition == m.rendition,
                self.cursor == m.cursor,
                self.wrap_pending == m.wrap_pending,
                self.cells@.len() == m.cells.len(),
                grid_view(self.cells@) == m.cells.skip(k as int) + Seq::new(k as nat, |_i: int| blank_row(m.size.columns as nat, m.rendition)),
            decreases l - k,
        {
            let ghost before = self.cells@;
            let _ = self.cells.remove(0);
            let line = make_blank_row(self.size.columns, self.rendition);
            self.cells.push(line);
            k = k + 1;
            assert(grid_view(self.cells@) =~= grid_view(before).drop_first().push(blank_row(m.size.columns as nat, m.rendition)));
            assert(grid_view(self.cells@) =~= m.cells.skip(k as int) + Seq::new(k as nat, |_i: int| blank_row(m.size.columns as nat, m.rendition)));
        }
    }

    pub fn line_feed(&mut self)
        requires
            framebuffer_wf(old(self)@),
        ensures
            final(self)@ == spec_line_feed(old(self)@),
            framebuffer_wf(final(self)@),
    {
        self.wrap_pending = false;
        if self.cursor.row + 1 >= self.size.rows {
            self.scroll_up(1);
        } else {
            self.cursor.row = self.cursor.row + 1;
        }
    }

    pub fn put(&mut self, text: String)
        requires
            framebuffer_wf(old(self)@),
        ensures
            final(self)@ == spec_put(old(self)@, text@),
            framebuffer_wf(final(self)@),
    {
        if self.size.columns == 0 || self.size.rows == 0 {
            return;
        }
        if self.wrap_pending {
            self.cursor.column = 0;
            self.line_feed();
        }
        let ghost m1 = self@;
        let row = self.cursor.row as usize;
        let column = self.cursor.column as usize;
        let mut line: Vec<Cell> = Vec::new();
        self.cells.set_and_swap(row, &mut line);
        assert(row_view(line) == m1.cells[row as int]);
        let ghost original = line@;
        let cell = Cell { text, rendition: self.rendition };
        line.set(column, cell);
        assert(row_view(line) =~= m1.cells[row as int].update(column as int, cell@));
        let ghost emptied = self.cells@;
        self.cells.set_and_swap(row, &mut line);
        assert(grid_view(self.cells@) =~= m1.cells.update(row as int, m1.cells[row as int].update(column as int, cell@))) by {
            assert forall|r: int| 0 <= r < m1.cells.len() && r != row implies #[trigger] grid_view(self.cells@)[r] == m1.cells[r] by {
                assert(self.cells@[r] == emptied[r]);
            }
        }
        self.advance_column();
    }

    pub fn insert_lines(&mut self, count: u16)
        requires
            framebuffer_wf(old(self)@),
        ensures
            final(self)@ == spec_insert_lines(old(self)@, count),
            framebuffer_wf(final(self)@),
    {
        let ghost m = self@;
        let room: u16 = if self.cursor.row < self.size.rows { self.size.rows - self.cursor.row } else { 0 };
        let k: u16 = if count < room { count } else { room };
        if k == 0 {
            return;
        }
        let row = self.cursor.row as usize;
        let rows = self.size.rows as usize;
        let ghost blanks = |j: nat| Seq::new(j, |_i: int| blank_row(m.size.columns as nat, m.rendition));
        let mut j: u16 = 0;
        assert(grid_view(self.cells@) =~= m.cells.take(row as int) + blanks(0) + m.cells.subrange(row as int, rows as int));
        while j < k
            invariant
                j <= k,
                k as int <= rows - row,
                row < rows,
                rows == m.size.rows,
                self.size == m.size,
                self.rendition == m.rendition,
                self.cursor == m.cursor,
                self.wrap_pending == m.wrap_pending,
                m.cells.len() == rows,
                self.cells@.len() == rows,
                blanks == (|j: nat| Seq::new(j, |_i: int| blank_row(m.size.columns as nat, m.rendition))),
                grid_view(self.cells@) == m.cells.take(row as int) + blanks(j as nat) + m.cells.subrange(row as int, rows - j),
            decreases k - j,
        {
            let ghost before = grid_view(self.cells@);
            let _ = self.cells.remove(rows - 1);
            let ghost removed = grid_view(self.cells@);
            assert(removed =~= before.remove(rows - 1));
            let line = make_blank_row(self.size.columns, self.rendition);
            self.cells.insert(row, line);
            assert(grid_view(self.cells@) =~= removed.insert(row as int, blank_row(m.size.columns as nat, m.rendition)));
            j = j + 1;
            assert(grid_view(self.cells@) =~= m.cells.take(row as int) + blanks(j as nat) + m.cells.subrange(row as int, rows - j));
        }
    }

    pub fn delete_lines(&mut self, count: u16)
        requires
            framebuffer_wf(old(self)@),
        ensures
            final(self)@ == spec_delete_lines(old(self)@, count),
            framebuffer_wf(final(self)@),
    {
        let ghost m = self@;
        let room: u16 = if self.cursor.row < self.size.rows { self.size.rows - self.cursor.row } else { 0 };
        let k: u16 = if count < room { count } else { room };
        if k == 0 {
            return;
        }
        let row = self.cursor.row as usize;
        let rows = self.size.rows as usize;
        let ghost blanks = |j: nat| Seq::new(j, |_i: int| blank_row(m.size.columns as nat, m.rendition));
        let mut j: u16 = 0;
        assert(grid_view(self.cells@) =~= m.cells.take(row as int) + m.cells.subrange(row as int, rows as int) + blanks(0));
        while j < k
            invariant
                j <= k,
                k as int <= rows - row,
                row < rows,
                rows == m.size.rows,
                self.size == m.size,
                self.rendition == m.rendition,
                self.cursor == m.cursor,
                self.wrap_pending == m.wrap_pending,
                m.cells.len() == rows,
                self.cells@.len() == rows,
                blanks == (|j: nat| Seq::new(j, |_i: int| blank_row(m.size.columns as nat, m.rendition))),
                grid_view(self.cells@) == m.cells.take(row as int) + m.cells.subrange(row + j, rows as int) + blanks(j as nat),
            decreases k - j,
        {
            let ghost before = grid_view(self.cells@);
            let _ = self.cells.remove(row);
            let ghost removed = grid_view(self.cells@);
            assert(removed =~= before.remove(row as int));
            let line = make_blank_row(self.size.columns, self.rendition);
            self.cells.push(line);
            assert(grid_view(self.cells@) =~= removed.push(blank_row(m.size.columns as nat, m.rendition)));
            j = j + 1;
            assert(grid_view(self.cells@) =~= m.cells.take(row as int) + m.cells.subrange(row + j, rows as int) + blanks(j as nat));
        }
    }

    pub fn resize(&mut self, columns: u16, rows: u16)
        requires
            framebuffer_wf(old(self)@),
        ensures
            final(self)@ == spec_resize(old(self)@, columns, rows),
            framebuffer_wf(final(self)@),
    {
        let ghost m = self@;
        let ghost target = spec_resize(m, columns, rows).cells;
        let mut grid: Vec<Vec<Cell>> = Vec::new();
        let mut r: u16 = 0;
        while r < rows
            invariant
                r <= rows,
                self@ == m,
                framebuffer_wf(m),
                target == spec_resize(m, columns, rows).cells,
                grid@.len() == r,
                forall|i: int| 0 <= i < r ==> #[trigger] grid_view(grid@)[i] == target[i],
            decreases rows - r,
        {
            let mut line: Vec<Cell> = Vec::new();
            let mut c: u16 = 0;
            while c < columns
                invariant
                    c <= columns,
                    r < rows,
                    self@ == m,
                    framebuffer_wf(m),
                    target == spec_resize(m, columns, rows).cells,
                    line@.len() == c,
                    forall|i: int| 0 <= i < c ==> #[trigger] cells_view(line@)[i] == target[r as int][i],
                decreases columns - c,
            {
                let cell = if r < self.size.rows && c < self.size.columns {
                    assert(self@.cells[r as int] == row_view(self.cells@[r as int]));
                    self.cells[r as usize][c as usize].duplicate()
                } else {
                    Cell::default()
                };
                let ghost before = line@;
                line.push(cell);
                proof {
                    assert forall|i: int| 0 <= i < c + 1 implies #[trigger] cells_view(line@)[i] == target[r as int][i] by {
                        if i < c {
                            assert(line@[i] == before[i]);
                            assert(cells_view(before)[i] == target[r as int][i]);
                        }
                    }
                }
                c = c + 1;
            }
            assert(row_view(line) =~= target[r as int]);
            let ghost before = grid@;
            grid.push(line);
            proof {
                assert forall|i: int| 0 <= i < r + 1 implies #[trigger] grid_view(grid@)[i] == target[i] by {
                    if i < r {
                        assert(grid@[i] == before[i]);
                        assert(grid_view(before)[i] == target[i]);
                    }
                }
            }
            r = r + 1;
        }
        assert(grid_view(grid@) =~= target);
        let visible = self.cursor.visible;
        self.size = FramebufferSize { columns, rows };
        self.cursor = Cursor { column: 0, row: 0, visible };
        self.cells = grid;
        self.wrap_pending = false;
    }
}


/// Writing, moving the cursor, scrolling, clearing and inserting or deleting lines never
/// change the size of a framebuffer, and keep it well formed.
pub proof fn lemma_editing_keeps_size(m: FramebufferModel, text: Seq<char>, n: u16, column: u16, row: u16)
    requires
        framebuffer_wf(m),
    ensures
        spec_put(m, text).size == m.size,
        spec_line_feed(m).size == m.size,
        spec_scroll_up(m, n).size == m.size,
        spec_set_cursor(m, column, row).size == m.size,
        spec_advance_column(m).size == m.size,
        spec_backspace(m).size == m.size,
        spec_clear(m).size == m.size,
        spec_clear_line(m).size == m.size,
        spec_clear_line_from_cursor(m).size == m.size,
        spec_clear_line_to_cursor(m).size == m.size,
        spec_clear_screen_from_cursor(m).size == m.size,
        spec_clear_screen_to_cursor(m).size == m.size,
        spec_insert_lines(m, n).size == m.size,
        spec_delete_lines(m, n).size == m.size,
        spec_erase_characters(m, n).size == m.size,
        spec_scroll_up(m, n).cells.len() == m.cells.len(),
        spec_put(m, text).cells.len() == m.cells.len(),
{
}

} // verus!
