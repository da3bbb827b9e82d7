//! The scan of the key matrix, one decision at a time. A scan reads the
//! cells column by column, from the cell where the last scan stopped to the
//! end of that column, then every other column in full, wrapping round
//! once. It stops at the first cell whose key changed for good.
//!
//! Selecting a column, waiting and reading a row line are done by the
//! owner of the pins, who hands back what it read.

use vstd::prelude::*;

verus! {

/// A position in the key matrix.
#[derive(Debug, Clone, Copy, PartialEq, Eq, Structural)]
pub struct ScanPos {
    pub row: usize,
    pub col: usize,
}

/// What the owner of the pins does next.
#[derive(Debug, Clone, Copy, PartialEq, Eq, Structural)]
pub enum ScanStep {
    /// Read the row line of this cell and ask the debouncer. Where `select`
    /// is set the cell is the first of its column in this scan: the column
    /// is selected and given time to settle before the line is read.
    Sample { row: usize, col: usize, select: bool },
    /// The key of this cell changed: store its level, release all columns
    /// and report the event. The scan is over.
    Report { row: usize, col: usize, pressed: bool },
    /// Every cell was read and no key changed: release all columns. The
    /// scan is over.
    Idle,
}

/// The position lies inside a matrix of `rows` by `cols`.
pub open spec fn in_matrix(pos: ScanPos, rows: int, cols: int) -> bool {
    pos.row < rows && pos.col < cols
}

/// The cell `at` is read by the scan that resumes at `start`: both lie
/// inside the matrix, and in the column of `start` the rows above it are
/// left out.
pub open spec fn in_scan(start: ScanPos, at: ScanPos, rows: int, cols: int) -> bool {
    &&& in_matrix(start, rows, cols)
    &&& in_matrix(at, rows, cols)
    &&& at.col == start.col ==> at.row >= start.row
}

/// The column scanned after `col`: the next one, or the first after the
/// last.
pub open spec fn next_column(col: int, cols: int) -> int {
    if col + 1 < cols {
        col + 1
    } else {
        0
    }
}

/// The cell `at` is the last one of the scan that resumes at `start`: the
/// bottom cell of the column before the column of `start`.
pub open spec fn is_last(start: ScanPos, at: ScanPos, rows: int, cols: int) -> bool {
    at.row + 1 == rows && next_column(at.col as int, cols) == start.col
}

/// The cell read after `at`: the one below it, or the top cell of the next
/// column.
pub open spec fn next_cell(at: ScanPos, rows: int, cols: int) -> ScanPos {
    if at.row + 1 < rows {
        ScanPos { row: (at.row + 1) as usize, col: at.col }
    } else {
        ScanPos { row: 0, col: next_column(at.col as int, cols) as usize }
    }
}

/// Number of columns that the scan resuming at `start` takes up before
/// the column `col`.
pub open spec fn columns_before(start: ScanPos, col: int, cols: int) -> int {
    if col >= start.col {
        col - start.col
    } else {
        col + cols - start.col
    }
}

/// Number of cells that the scan resuming at `start` reads before `at`.
pub open spec fn scan_rank(start: ScanPos, at: ScanPos, rows: int, cols: int) -> int {
    columns_before(start, at.col as int, cols) * rows + at.row - start.row
}

/// Number of cells that a whole scan resuming at `start` reads.
pub open spec fn scan_length(start: ScanPos, rows: int, cols: int) -> int {
    cols * rows - start.row
}

impl ScanPos {
    /// The position in row `row` and column `col`.
    pub fn new(row: usize, col: usize) -> (pos: ScanPos)
        ensures
            pos.row == row,
            pos.col == col,
    {
        ScanPos { row, col }
    }
}

/// Begins the scan that resumes at `start`. The first cell read is `start`
/// itself, in a freshly selected column. Where `start` is not inside the
/// matrix there is nothing to read: the scan is over at once and the next
/// one resumes at the origin.
///
/// Returns the position at which the next scan resumes, and what to do.
pub fn scan_start(start: ScanPos, rows: usize, cols: usize) -> (out: (ScanPos, ScanStep))
    ensures
        in_matrix(start, rows as int, cols as int) ==> out == (
            start,
            ScanStep::Sample { row: start.row, col: start.col, select: true },
        ),
        !in_matrix(start, rows as int, cols as int) ==> out == (
            ScanPos { row: 0, col: 0 },
            ScanStep::Idle,
        ),
        in_matrix(start, rows as int, cols as int) ==> in_scan(
            start,
            start,
            rows as int,
            cols as int,
        ),
{
    if start.row < rows && start.col < cols {
        (start, ScanStep::Sample { row: start.row, col: start.col, select: true })
    } else {
        (ScanPos { row: 0, col: 0 }, ScanStep::Idle)
    }
}

/// Decides what follows the reading of the cell `at` in the scan that
/// resumed at `start`, given the level read (`pressed`) and whether the
/// debouncer took it for a change of the key (`debounced`).
///
/// A change ends the scan with a report, and the next scan resumes at this
/// very cell. Without a change the scan goes on to the next cell; a cell in
/// another column means that the old column is done, so all columns are
/// released before the new one is selected. After the last cell the scan
/// ends idle and the next one resumes at the origin. So it does for a cell
/// that is no part of the scan.
///
/// Returns the position at which the next scan resumes, and what to do.
pub fn scan_step(
    start: ScanPos,
    at: ScanPos,
    rows: usize,
    cols: usize,
    pressed: bool,
    debounced: bool,
) -> (out: (ScanPos, ScanStep))
    ensures
        !in_scan(start, at, rows as int, cols as int) ==> out == (
            ScanPos { row: 0, col: 0 },
            ScanStep::Idle,
        ),
        in_scan(start, at, rows as int, cols as int) && debounced ==> out == (
            at,
            ScanStep::Report { row: at.row, col: at.col, pressed },
        ),
        in_scan(start, at, rows as int, cols as int) && !debounced && is_last(
            start,
            at,
            rows as int,
            cols as int,
        ) ==> out == (ScanPos { row: 0, col: 0 }, ScanStep::Idle),
        in_scan(start, at, rows as int, cols as int) && !debounced && !is_last(
            start,
            at,
            rows as int,
            cols as int,
        ) ==> out == (
            start,
            ScanStep::Sample {
                row: next_cell(at, rows as int, cols as int).row,
                col: next_cell(at, rows as int, cols as int).col,
                select: next_cell(at, rows as int, cols as int).col != at.col,
            },
        ) && in_scan(start, next_cell(at, rows as int, cols as int), rows as int, cols as int),
{
    let inside: bool = start.row < rows && start.col < cols && at.row < rows && at.col < cols;
    if !inside || (at.col == start.col && at.row < start.row) {
        return (ScanPos { row: 0, col: 0 }, ScanStep::Idle);
    }
    if debounced {
        return (at, ScanStep::Report { row: at.row, col: at.col, pressed });
    }
    if at.row + 1 < rows {
        return (start, ScanStep::Sample { row: at.row + 1, col: at.col, select: false });
    }
    let col: usize = if at.col + 1 < cols { at.col + 1 } else { 0 };
    if col == start.col {
        (ScanPos { row: 0, col: 0 }, ScanStep::Idle)
    } else {
        (start, ScanStep::Sample { row: 0, col, select: col != at.col })
    }
}

/// A scan makes progress: each step that is not the last leads to a cell of
/// the scan that has exactly one more cell before it.
pub proof fn lemma_scan_advances(start: ScanPos, at: ScanPos, rows: usize, cols: usize)
    requires
        in_scan(start, at, rows as int, cols as int),
        !is_last(start, at, rows as int, cols as int),
    ensures
        in_scan(start, next_cell(at, rows as int, cols as int), rows as int, cols as int),
        scan_rank(start, next_cell(at, rows as int, cols as int), rows as int, cols as int)
            == scan_rank(start, at, rows as int, cols as int) + 1,
{
    let next = next_cell(at, rows as int, cols as int);
    let t = columns_before(start, at.col as int, cols as int);
    if at.row + 1 >= rows {
        assert(columns_before(start, next.col as int, cols as int) == t + 1);
        assert((t + 1) * rows == t * rows + rows) by (nonlinear_arith);
    }
}

/// A scan is finite and reads no cell twice: it begins at the cell where
/// it resumes, with no cell before it; every cell of the scan has fewer
/// cells before it than the scan has cells; the last cell is the one with
/// all others before it; and two cells with equally many before them are
/// the same cell.
pub proof fn lemma_scan_order(start: ScanPos, at: ScanPos, other: ScanPos, rows: usize, cols: usize)
    requires
        in_scan(start, at, rows as int, cols as int),
        in_scan(start, other, rows as int, cols as int),
    ensures
        scan_rank(start, start, rows as int, cols as int) == 0,
        0 <= scan_rank(start, at, rows as int, cols as int) < scan_length(
            start,
            rows as int,
            cols as int,
        ),
        is_last(start, at, rows as int, cols as int) <==> scan_rank(
            start,
            at,
            rows as int,
            cols as int,
        ) + 1 == scan_length(start, rows as int, cols as int),
        scan_rank(start, at, rows as int, cols as int) == scan_rank(
            start,
            other,
            rows as int,
            cols as int,
        ) ==> at == other,
{
    let t = columns_before(start, at.col as int, cols as int);
    let u = columns_before(start, other.col as int, cols as int);
    let r = rows as int;
    let c = cols as int;
    assert(0 * r == 0) by (nonlinear_arith);
    assert(0 <= t <= c - 1);
    assert(t >= 1 ==> t * r >= r) by (nonlinear_arith)
        requires
            r >= 0,
    ;
    assert(t * r <= (c - 1) * r) by (nonlinear_arith)
        requires
            t <= c - 1,
            r >= 0,
    ;
    assert((c - 1) * r == c * r - r) by (nonlinear_arith);
    assert(t < c - 1 ==> t * r + r <= (c - 1) * r) by (nonlinear_arith)
        requires
            r >= 0,
    ;
    assert(t * r + at.row == u * r + other.row ==> t == u) by (nonlinear_arith)
        requires
            0 <= at.row < r,
            0 <= other.row < r,
    ;
}

} // verus!
