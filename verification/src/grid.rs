//! Cells of the grid: the frame, the landed cells, and what moving, turning
//! and clearing rows do to them.

use vstd::prelude::*;
use crate::piece::Piece;

verus! {

/// Whether `cell` belongs to the frame of the grid: the two side walls in
/// columns -1 and 10, rows -4 to 19, and the floor in row 20, columns 0 to 9.
pub open spec fn is_wall(cell: (int, int)) -> bool {
    ||| (cell.0 == -1 || cell.0 == 10) && -4 <= cell.1 <= 19
    ||| cell.1 == 20 && 0 <= cell.0 <= 9
}

/// `cell` moved by `by`.
pub open spec fn shifted(cell: (int, int), by: (int, int)) -> (int, int) {
    (cell.0 + by.0, cell.1 + by.1)
}

/// `cell` after a quarter turn about `pivot`: what lay one column to the
/// right of the pivot lies one row below it afterwards.
pub open spec fn turned(cell: (int, int), pivot: (int, int)) -> (int, int) {
    (pivot.0 - (cell.1 - pivot.1), pivot.1 + (cell.0 - pivot.0))
}

/// Every cell of `cells` moved by `by`.
pub open spec fn shift_all(cells: Seq<(int, int)>, by: (int, int)) -> Seq<(int, int)> {
    Seq::new(cells.len(), |k: int| shifted(cells[k], by))
}

/// Every cell of `cells` after a quarter turn about `pivot`.
pub open spec fn turn_all(cells: Seq<(int, int)>, pivot: (int, int)) -> Seq<(int, int)> {
    Seq::new(cells.len(), |k: int| turned(cells[k], pivot))
}

/// The cells of the landed pieces, piece by piece.
pub open spec fn field_cells(playfield: Seq<Piece>) -> Seq<Seq<(int, int)>> {
    Seq::new(playfield.len(), |i: int| playfield[i].cells())
}

/// Whether some landed piece holds `cell`.
pub open spec fn field_has(field: Seq<Seq<(int, int)>>, cell: (int, int)) -> bool {
    exists|i: int, j: int| 0 <= i < field.len() && 0 <= j < field[i].len() && field[i][j] == cell
}

/// Whether one of `cells` is in the frame or in a landed piece.
pub open spec fn any_blocked(field: Seq<Seq<(int, int)>>, cells: Seq<(int, int)>) -> bool {
    exists|k: int| 0 <= k < cells.len() && (is_wall(cells[k]) || field_has(field, cells[k]))
}

/// Whether some landed cell lies above row 0, in the hidden rows.
pub open spec fn above_top(field: Seq<Seq<(int, int)>>) -> bool {
    exists|i: int, j: int| 0 <= i < field.len() && 0 <= j < field[i].len() && field[i][j].1 < 0
}

/// The test "this cell is not in row `line`".
pub open spec fn off_row(line: int) -> spec_fn((int, int)) -> bool {
    |cell: (int, int)| cell.1 != line
}

/// `cells` without those in row `line`.
pub open spec fn strip_cells(cells: Seq<(int, int)>, line: int) -> Seq<(int, int)> {
    cells.filter(off_row(line))
}

/// The landed cells without those in row `line`, piece by piece.
pub open spec fn strip_field(field: Seq<Seq<(int, int)>>, line: int) -> Seq<Seq<(int, int)>> {
    Seq::new(field.len(), |i: int| strip_cells(field[i], line))
}

/// `cell` one row further down if it lies in row `if_above` or above it.
pub open spec fn lowered(cell: (int, int), if_above: int) -> (int, int) {
    if cell.1 <= if_above {
        (cell.0, cell.1 + 1)
    } else {
        cell
    }
}

/// Every cell of `cells` that lies in row `if_above` or above it, one row further down.
pub open spec fn lower_cells(cells: Seq<(int, int)>, if_above: int) -> Seq<(int, int)> {
    Seq::new(cells.len(), |k: int| lowered(cells[k], if_above))
}

/// The landed cells with those in row `if_above` or above it one row further down.
pub open spec fn lower_field(field: Seq<Seq<(int, int)>>, if_above: int) -> Seq<Seq<(int, int)>> {
    Seq::new(field.len(), |i: int| lower_cells(field[i], if_above))
}

/// The landed cells after row `line` was cleared: its cells are gone, and
/// what lay above it lies one row further down.
pub open spec fn clear_row(field: Seq<Seq<(int, int)>>, line: int) -> Seq<Seq<(int, int)>> {
    lower_field(strip_field(field, line), line)
}

/// Whether all ten columns of `row` hold a landed cell.
pub open spec fn row_full(field: Seq<Seq<(int, int)>>, row: int) -> bool {
    forall|col: int| 0 <= col <= 9 ==> field_has(field, (col, row))
}

/// The landed cells after one pass over the rows from `row` down to row 19:
/// each row that was full in `snapshot`, the cells before the pass, is
/// cleared in turn.
pub open spec fn cleared_from(
    field: Seq<Seq<(int, int)>>,
    snapshot: Seq<Seq<(int, int)>>,
    row: int,
) -> Seq<Seq<(int, int)>>
    decreases 20 - row,
{
    if row > 19 {
        field
    } else if row_full(snapshot, row) {
        cleared_from(clear_row(field, row), snapshot, row + 1)
    } else {
        cleared_from(field, snapshot, row + 1)
    }
}

/// How many of the rows from `row` down to row 19 are full.
pub open spec fn full_rows_from(field: Seq<Seq<(int, int)>>, row: int) -> nat
    decreases 20 - row,
{
    if row > 19 {
        0
    } else if row_full(field, row) {
        1 + full_rows_from(field, row + 1)
    } else {
        full_rows_from(field, row + 1)
    }
}

/// No more rows are full than there are rows.
pub proof fn lemma_full_rows_bound(field: Seq<Seq<(int, int)>>, row: int)
    requires
        -4 <= row <= 20,
    ensures
        full_rows_from(field, row) <= 20 - row,
    decreases 20 - row,
{
    if row <= 19 {
        lemma_full_rows_bound(field, row + 1);
    }
}

} // verus!
