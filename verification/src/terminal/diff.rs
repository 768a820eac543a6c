//! The cells that changed between two framebuffers.

use vstd::prelude::*;

use crate::terminal::cell::{Cell, CellModel};
use crate::terminal::cursor::Cursor;
use crate::terminal::framebuffer::{framebuffer_wf, Framebuffer};

verus! {

/// One changed cell: where it is and what it now holds.
#[derive(Debug, Clone, PartialEq, Eq)]
pub struct CellUpdate {
    pub column: u16,
    pub row: u16,
    pub cell: Cell,
}

/// The value of a cell update.
pub struct CellUpdateModel {
    pub column: u16,
    pub row: u16,
    pub cell: CellModel,
}

impl View for CellUpdate {
    type V = CellUpdateModel;

    open spec fn view(&self) -> CellUpdateModel {
        CellUpdateModel { column: self.column, row: self.row, cell: self.cell@ }
    }
}

/// The changed cells, in row-major order, and the cursor of the newer framebuffer.
#[derive(Debug, Clone, PartialEq, Eq)]
pub struct TerminalDiff {
    pub changed_cells: usize,
    pub updates: Vec<CellUpdate>,
    pub cursor: Cursor,
}

pub open spec fn updates_view(updates: Seq<CellUpdate>) -> Seq<CellUpdateModel> {
    updates.map_values(|u: CellUpdate| u@)
}

/// The updates of row `row` among its first `count` columns: each cell that differs.
pub open spec fn row_updates(previous: Seq<CellModel>, current: Seq<CellModel>, row: u16, count: nat) -> Seq<CellUpdateModel>
    decreases count,
{
    if count == 0 {
        seq![]
    } else {
        let c = (count - 1) as int;
        row_updates(previous, current, row, (count - 1) as nat) + if previous[c] != current[c] {
            seq![CellUpdateModel { column: c as u16, row, cell: current[c] }]
        } else {
            seq![]
        }
    }
}

/// The updates of the first `rows` rows, each over its first `columns` columns.
pub open spec fn grid_updates(previous: Seq<Seq<CellModel>>, current: Seq<Seq<CellModel>>, columns: nat, rows: nat) -> Seq<CellUpdateModel>
    decreases rows,
{
    if rows == 0 {
        seq![]
    } else {
        let r = (rows - 1) as int;
        grid_updates(previous, current, columns, (rows - 1) as nat) + row_updates(previous[r], current[r], r as u16, columns)
    }
}

/// A framebuffer compared with itself has no changed cell.
pub proof fn lemma_diff_of_same_is_empty(cells: Seq<Seq<CellModel>>, columns: nat, rows: nat)
    ensures
        grid_updates(cells, cells, columns, rows).len() == 0,
    decreases rows,
{
    if rows > 0 {
        lemma_diff_of_same_is_empty(cells, columns, (rows - 1) as nat);
        lemma_row_of_same_is_empty(cells[rows - 1], (rows - 1) as u16, columns);
    }
}

proof fn lemma_row_of_same_is_empty(cells: Seq<CellModel>, row: u16, count: nat)
    ensures
        row_updates(cells, cells, row, count).len() == 0,
    decreases count,
{
    if count > 0 {
        lemma_row_of_same_is_empty(cells, row, (count - 1) as nat);
    }
}

/// The updates of a row over its first `count` columns are exactly its changed cells there, in
/// order of column: each names row `row`, a column below `count` where the two rows differ,
/// and the newer row's cell there; and every column below `count` where they differ has one.
pub proof fn lemma_row_updates_exact(previous: Seq<CellModel>, current: Seq<CellModel>, row: u16, count: nat)
    requires
        count <= previous.len(),
        count <= current.len(),
        count <= 0x10000,
    ensures
        ({
            let us = row_updates(previous, current, row, count);
            &&& forall|k: int|
                0 <= k < us.len() ==> (#[trigger] us[k]).row == row && us[k].column < count && previous[us[k].column as int]
                    != current[us[k].column as int] && us[k].cell == current[us[k].column as int]
            &&& forall|c: int|
                0 <= c < count && #[trigger] previous[c] != current[c] ==> exists|k: int|
                    0 <= k < us.len() && (#[trigger] us[k]).column == c
            &&& forall|k1: int, k2: int| 0 <= k1 < k2 < us.len() ==> (#[trigger] us[k1]).column < (#[trigger] us[k2]).column
        }),
    decreases count,
{
    if count > 0 {
        let c = (count - 1) as int;
        lemma_row_updates_exact(previous, current, row, (count - 1) as nat);
        let before = row_updates(previous, current, row, (count - 1) as nat);
        let us = row_updates(previous, current, row, count);
        if previous[c] != current[c] {
            let u = CellUpdateModel { column: c as u16, row, cell: current[c] };
            assert(us == before + seq![u]);
            assert(u.column == c);
            assert forall|k: int| 0 <= k < us.len() implies (#[trigger] us[k]).row == row && us[k].column < count
                && previous[us[k].column as int] != current[us[k].column as int] && us[k].cell
                == current[us[k].column as int] by {
                if k < before.len() {
                    assert(us[k] == before[k]);
                }
            }
            assert forall|d: int| 0 <= d < count && #[trigger] previous[d] != current[d] implies exists|k: int|
                0 <= k < us.len() && (#[trigger] us[k]).column == d by {
                if d < c {
                    let k = choose|k: int| 0 <= k < before.len() && (#[trigger] before[k]).column == d;
                    assert(us[k] == before[k]);
                } else {
                    assert(us[before.len() as int] == u);
                }
            }
            assert forall|k1: int, k2: int| 0 <= k1 < k2 < us.len() implies (#[trigger] us[k1]).column
                < (#[trigger] us[k2]).column by {
                assert(us[k1] == before[k1]);
                if k2 < before.len() {
                    assert(us[k2] == before[k2]);
                }
            }
        } else {
            assert(us =~= before);
            assert forall|d: int| 0 <= d < count && #[trigger] previous[d] != current[d] implies exists|k: int|
                0 <= k < us.len() && (#[trigger] us[k]).column == d by {
                let k = choose|k: int| 0 <= k < before.len() && (#[trigger] before[k]).column == d;
            }
        }
    }
}

/// The updates of a grid over its first `rows` rows and `columns` columns are exactly its
/// changed cells there, in row-major order: each names a cell in that range where the two
/// grids differ and holds the newer grid's cell there; and every such changed cell has one.
pub proof fn lemma_grid_updates_exact(previous: Seq<Seq<CellModel>>, current: Seq<Seq<CellModel>>, columns: nat, rows: nat)
    requires
        rows <= previous.len(),
        rows <= current.len(),
        rows <= 0x10000,
        columns <= 0x10000,
        forall|r: int| 0 <= r < rows ==> columns <= (#[trigger] previous[r]).len() && columns <= current[r].len(),
    ensures
        ({
            let us = grid_updates(previous, current, columns, rows);
            &&& forall|k: int|
                0 <= k < us.len() ==> (#[trigger] us[k]).row < rows && us[k].column < columns
                    && previous[us[k].row as int][us[k].column as int] != current[us[k].row as int][us[k].column as int]
                    && us[k].cell == current[us[k].row as int][us[k].column as int]
            &&& forall|r: int, c: int|
                0 <= r < rows && 0 <= c < columns && #[trigger] previous[r][c] != current[r][c] ==> exists|k: int|
                    0 <= k < us.len() && (#[trigger] us[k]).row == r && us[k].column == c
            &&& forall|k1: int, k2: int|
                0 <= k1 < k2 < us.len() ==> (#[trigger] us[k1]).row < (#[trigger] us[k2]).row || (us[k1].row == us[k2].row
                    && us[k1].column < us[k2].column)
        }),
    decreases rows,
{
    if rows > 0 {
        let r = (rows - 1) as int;
        lemma_grid_updates_exact(previous, current, columns, (rows - 1) as nat);
        lemma_row_updates_exact(previous[r], current[r], r as u16, columns);
        let before = grid_updates(previous, current, columns, (rows - 1) as nat);
        let tail = row_updates(previous[r], current[r], r as u16, columns);
        let us = grid_updates(previous, current, columns, rows);
        assert(us == before + tail);
        assert((r as u16) as int == r);
        assert forall|k: int| 0 <= k < us.len() implies (#[trigger] us[k]).row < rows && us[k].column < columns
            && previous[us[k].row as int][us[k].column as int] != current[us[k].row as int][us[k].column as int]
            && us[k].cell == current[us[k].row as int][us[k].column as int] by {
            if k < before.len() {
                assert(us[k] == before[k]);
            } else {
                assert(us[k] == tail[k - before.len()]);
            }
        }
        assert forall|r2: int, c: int|
            0 <= r2 < rows && 0 <= c < columns && #[trigger] previous[r2][c] != current[r2][c] implies exists|k: int|
            0 <= k < us.len() && (#[trigger] us[k]).row == r2 && us[k].column == c by {
            if r2 < r {
                let k = choose|k: int| 0 <= k < before.len() && (#[trigger] before[k]).row == r2 && before[k].column == c;
                assert(us[k] == before[k]);
            } else {
                assert(previous[r][c] != current[r][c]);
                let k = choose|k: int| 0 <= k < tail.len() && (#[trigger] tail[k]).column == c;
                assert(us[before.len() + k] == tail[k]);
            }
        }
        assert forall|k1: int, k2: int| 0 <= k1 < k2 < us.len() implies (#[trigger] us[k1]).row < (#[trigger] us[k2]).row
            || (us[k1].row == us[k2].row && us[k1].column < us[k2].column) by {
            if k2 < before.len() {
                assert(us[k1] == before[k1] && us[k2] == before[k2]);
            } else if k1 < before.len() {
                assert(us[k1] == before[k1]);
                assert(us[k2] == tail[k2 - before.len()]);
            } else {
                assert(us[k1] == tail[k1 - before.len()]);
                assert(us[k2] == tail[k2 - before.len()]);
            }
        }
    }
}

pub fn diff_framebuffers(previous: &Framebuffer, current: &Framebuffer) -> (d: TerminalDiff)
    requires
        framebuffer_wf(previous@),
        framebuffer_wf(current@),
    ensures
        updates_view(d.updates@) == grid_updates(
            previous@.cells,
            current@.cells,
            if previous@.size.columns < current@.size.columns { previous@.size.columns as nat } else { current@.size.columns as nat },
            if previous@.size.rows < current@.size.rows { previous@.size.rows as nat } else { current@.size.rows as nat },
        ),
        d.changed_cells == d.updates@.len(),
        d.cursor == current@.cursor,
        forall|k: int|
            0 <= k < d.updates@.len() ==> {
                let u = (#[trigger] d.updates@[k])@;
                &&& u.column < previous@.size.columns && u.column < current@.size.columns
                &&& u.row < previous@.size.rows && u.row < current@.size.rows
                &&& u.cell == current@.cells[u.row as int][u.column as int]
                &&& previous@.cells[u.row as int][u.column as int] != u.cell
            },
{
    let mut updates: Vec<CellUpdate> = Vec::new();
    let ps = previous.size();
    let cs = current.size();
    let columns: u16 = if ps.columns < cs.columns { ps.columns } else { cs.columns };
    let rows: u16 = if ps.rows < cs.rows { ps.rows } else { cs.rows };
    let ghost p = previous@.cells;
    let ghost q = current@.cells;
    let mut row: u16 = 0;
    while row < rows
        invariant
            row <= rows,
            rows <= previous@.size.rows,
            rows <= current@.size.rows,
            columns <= previous@.size.columns,
            columns <= current@.size.columns,
            framebuffer_wf(previous@),
            framebuffer_wf(current@),
            p == previous@.cells,
            q == current@.cells,
            updates_view(updates@) == grid_updates(p, q, columns as nat, row as nat),
        decreases rows - row,
    {
        let ghost start = updates_view(updates@);
        let mut column: u16 = 0;
        while column < columns
            invariant
                column <= columns,
                row < rows,
                rows <= previous@.size.rows,
                rows <= current@.size.rows,
                columns <= previous@.size.columns,
                columns <= current@.size.columns,
                framebuffer_wf(previous@),
                framebuffer_wf(current@),
                p == previous@.cells,
                q == current@.cells,
                updates_view(updates@) == start + row_updates(p[row as int], q[row as int], row, column as nat),
            decreases columns - column,
        {
            let old_cell = previous.cell(column, row);
            let new_cell = current.cell(column, row);
            match (old_cell, new_cell) {
                (Some(a), Some(b)) => {
                    if !a.same_as(b) {
                        let ghost before = updates@;
                        let update = CellUpdate { column, row, cell: b.duplicate() };
                        updates.push(update);
                        assert(updates_view(updates@) =~= updates_view(before).push(update@));
                    }
                },
                _ => {},
            }
            column = column + 1;
            assert(updates_view(updates@) =~= start + row_updates(p[row as int], q[row as int], row, column as nat));
        }
        row = row + 1;
        assert(updates_view(updates@) =~= grid_updates(p, q, columns as nat, row as nat));
    }
    proof {
        lemma_grid_updates_exact(p, q, columns as nat, rows as nat);
        assert forall|k: int| 0 <= k < updates@.len() implies {
            let u = (#[trigger] updates@[k])@;
            &&& u.column < previous@.size.columns && u.column < current@.size.columns
            &&& u.row < previous@.size.rows && u.row < current@.size.rows
            &&& u.cell == current@.cells[u.row as int][u.column as int]
            &&& previous@.cells[u.row as int][u.column as int] != u.cell
        } by {
            assert(updates_view(updates@)[k] == updates@[k]@);
        }
    }
    let changed_cells = updates.len();
    TerminalDiff { changed_cells, updates, cursor: current.cursor() }
}

} // verus!
