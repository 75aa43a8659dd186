//! The grid walker: turns a table's physical rows and cells, with their
//! `colspan` / `rowspan`, into a dense matrix and the merge regions of the
//! output grid.
use vstd::prelude::*;

use crate::table::{all_proper, MergeRange, TableData};
use crate::text::{grid_view, strs};
use crate::tracker::{record_span, CellSpan, PendingMap, RowSpanTracker, MAX_TRACKED_COLUMN};

verus! {

/// Number of columns an XLSX worksheet can hold.
pub const XLSX_MAX_COLUMNS: usize = 16384;

/// A physical cell as the page shows it: its text, its `colspan` and
/// `rowspan` attributes as read, and whether it is hidden.
#[derive(Debug, Clone, PartialEq, Eq)]
pub struct SourceCell {
    pub text: String,
    pub colspan: u32,
    pub rowspan: u32,
    pub hidden: bool,
}

/// A physical row: its cells in order and whether it is hidden.
#[derive(Debug, Clone, PartialEq, Eq)]
pub struct SourceRow {
    pub cells: Vec<SourceCell>,
    pub hidden: bool,
}

/// A whole table, with the number of its rows that belong to the header.
#[derive(Debug, Clone, PartialEq, Eq)]
pub struct SourceTable {
    pub rows: Vec<SourceRow>,
    pub header_row_count: usize,
}

/// Why a table could not be turned into a matrix.
#[derive(Debug, Clone, Copy, PartialEq, Eq, Structural)]
pub enum ExtractError {
    /// The table has no row.
    EmptyTable,
    /// A row is wider than the target can address.
    ColumnLimit,
    /// Records are nested deeper than the allowed depth.
    TooDeep,
}

/// A span attribute, at least 1.
pub open spec fn at_least_one(n: u32) -> int {
    if n == 0 {
        1
    } else {
        n as int
    }
}

/// The text and spans of a cell, with each span at least 1.
pub fn get_cell_span(cell: &SourceCell) -> (r: CellSpan)
    ensures
        r.text@ == cell.text@,
        r.colspan == at_least_one(cell.colspan),
        r.rowspan == at_least_one(cell.rowspan),
{
    CellSpan {
        text: cell.text.clone(),
        colspan: if cell.colspan == 0 { 1 } else { cell.colspan },
        rowspan: if cell.rowspan == 0 { 1 } else { cell.rowspan },
    }
}

/// The state of the walk through one row: what is still pending, the current
/// output column, the texts emitted, and for each placed cell its
/// (first output column, colspan, rowspan, text).
pub struct RowScan {
    pub pending: PendingMap,
    pub col: int,
    pub out: Seq<Seq<char>>,
    pub spans: Seq<(int, int, int, Seq<char>)>,
}

/// `n` entries are pending at (`row`, `col`), (`row`, `col + 1`), ... and none
/// at (`row`, `col + n`).
pub open spec fn is_run(p: PendingMap, row: int, col: int, n: int) -> bool {
    &&& n >= 0
    &&& forall|j: int| 0 <= j < n ==> #[trigger] p.contains_key((row, col + j))
    &&& !p.contains_key((row, col + n))
}

pub open spec fn run_length(p: PendingMap, row: int, col: int) -> int {
    if exists|n: int| is_run(p, row, col, n) {
        choose|n: int| is_run(p, row, col, n)
    } else {
        0
    }
}

/// Takes every entry due at the current column of `row`, one after the other,
/// emitting each and moving one column right.
pub open spec fn drain(s: RowScan, row: int) -> RowScan {
    let n = run_length(s.pending, row, s.col);
    RowScan {
        pending: s.pending.remove_keys(
            Set::new(|k: (int, int)| k.0 == row && s.col <= k.1 < s.col + n),
        ),
        col: s.col + n,
        out: s.out + Seq::new(n as nat, |j: int| s.pending[(row, s.col + j)]),
        spans: s.spans,
    }
}

/// Emits a visible cell at the current column: its text, then an empty
/// string for each further column it spans; records what it owes the rows
/// below.
pub open spec fn place(s: RowScan, row: int, text: Seq<char>, colspan: int, rowspan: int) -> RowScan {
    RowScan {
        pending: record_span(s.pending, row, s.col, colspan, rowspan, text),
        col: s.col + colspan,
        out: s.out + seq![text] + Seq::new((colspan - 1) as nat, |j: int| Seq::<char>::empty()),
        spans: s.spans.push((s.col, colspan, rowspan, text)),
    }
}

/// One physical cell: drain first, then place it unless it is hidden and
/// hidden cells are excluded.
pub open spec fn step(s: RowScan, row: int, cell: SourceCell, exclude_hidden: bool) -> RowScan {
    let d = drain(s, row);
    if exclude_hidden && cell.hidden {
        d
    } else {
        place(d, row, cell.text@, at_least_one(cell.colspan), at_least_one(cell.rowspan))
    }
}

pub open spec fn scan_cells(
    s0: RowScan,
    row: int,
    cells: Seq<SourceCell>,
    exclude_hidden: bool,
) -> RowScan
    decreases cells.len(),
{
    if cells.len() == 0 {
        s0
    } else {
        step(scan_cells(s0, row, cells.drop_last(), exclude_hidden), row, cells.last(), exclude_hidden)
    }
}

pub open spec fn start_scan(p: PendingMap) -> RowScan {
    RowScan { pending: p, col: 0, out: Seq::empty(), spans: Seq::empty() }
}

/// The walk through a whole row: every cell in turn, then a final drain for
/// the cells that reach past the row's last physical cell.
pub open spec fn scan_row(p: PendingMap, row: int, cells: Seq<SourceCell>, exclude_hidden: bool) -> RowScan {
    drain(scan_cells(start_scan(p), row, cells, exclude_hidden), row)
}

pub open spec fn spans_view(v: Seq<(usize, CellSpan)>) -> Seq<(int, int, int, Seq<char>)> {
    v.map_values(
        |e: (usize, CellSpan)| (e.0 as int, e.1.colspan as int, e.1.rowspan as int, e.1.text@),
    )
}

proof fn lemma_run_unique(p: PendingMap, row: int, col: int, n: int)
    requires
        is_run(p, row, col, n),
    ensures
        run_length(p, row, col) == n,
{
    let m = run_length(p, row, col);
    assert(is_run(p, row, col, m));
    if m < n {
        assert(p.contains_key((row, col + m)));
    } else if m > n {
        assert(p.contains_key((row, col + n)));
    }
}

proof fn lemma_drain_moves_right(s: RowScan, row: int)
    ensures
        drain(s, row).col >= s.col,
{
    if exists|n: int| is_run(s.pending, row, s.col, n) {
        let n = choose|n: int| is_run(s.pending, row, s.col, n);
        assert(is_run(s.pending, row, s.col, n));
    }
}

proof fn lemma_scan_moves_right(s0: RowScan, row: int, cells: Seq<SourceCell>, ex: bool, i: int)
    requires
        0 <= i <= cells.len(),
    ensures
        scan_cells(s0, row, cells.take(i), ex).col <= scan_cells(s0, row, cells, ex).col,
    decreases cells.len(),
{
    if i == cells.len() {
        assert(cells.take(i) =~= cells);
    } else {
        let prev = cells.drop_last();
        assert(prev.take(i) =~= cells.take(i));
        lemma_scan_moves_right(s0, row, prev, ex, i);
        let t = scan_cells(s0, row, prev, ex);
        lemma_drain_moves_right(t, row);
    }
}

/// Drains the entries due at (`row_idx`, `col`) into `out`.
fn drain_pending(
    tracker: &mut RowSpanTracker,
    row_idx: u32,
    col: usize,
    out: &mut Vec<String>,
    Ghost(spans): Ghost<Seq<(int, int, int, Seq<char>)>>,
) -> (new_col: usize)
    requires
        col <= MAX_TRACKED_COLUMN + 1,
    ensures
        new_col <= MAX_TRACKED_COLUMN + 1,
        ({
            let d = drain(
                RowScan { pending: old(tracker)@, col: col as int, out: strs(old(out)@), spans },
                row_idx as int,
            );
            &&& final(tracker)@ == d.pending
            &&& new_col == d.col
            &&& strs(final(out)@) == d.out
        }),
{
    let ghost p0 = tracker@;
    let ghost out0 = strs(out@);
    let mut c = col;
    let mut more = true;
    while more
        invariant
            col <= c <= MAX_TRACKED_COLUMN + 1,
            tracker@ == p0.remove_keys(
                Set::new(|k: (int, int)| k.0 == row_idx && col <= k.1 < c),
            ),
            forall|j: int| col <= j < c ==> #[trigger] p0.contains_key((row_idx as int, j)),
            strs(out@) == out0 + Seq::new((c - col) as nat, |j: int| p0[(row_idx as int, col + j)]),
            !more ==> !p0.contains_key((row_idx as int, c as int)),
        decreases tracker.size() + (if more { 1int } else { 0int }),
    {
        let ghost before = tracker@;
        proof {
            tracker.lemma_addressable();
        }
        match tracker.pop(row_idx, c) {
            Some(text) => {
                proof {
                    assert(before.contains_key((row_idx as int, c as int)));
                    assert(p0.contains_key((row_idx as int, c as int)));
                }
                let ghost prev_out = strs(out@);
                out.push(text);
                proof {
                    assert(strs(out@) =~= prev_out.push(text@));
                    assert(strs(out@) =~= out0 + Seq::new(
                        (c + 1 - col) as nat,
                        |j: int| p0[(row_idx as int, col + j)],
                    ));
                    assert(tracker@ =~= p0.remove_keys(
                        Set::new(|k: (int, int)| k.0 == row_idx && col <= k.1 < c + 1),
                    ));
                    assert(c <= MAX_TRACKED_COLUMN) by {
                        assert(crate::tracker::addressable((row_idx as int, c as int)));
                    }
                }
                c = c + 1;
            },
            None => {
                more = false;
            },
        }
    }
    proof {
        let n = (c - col) as int;
        assert forall|j: int| 0 <= j < n implies #[trigger] p0.contains_key(
            (row_idx as int, col + j),
        ) by {
            assert(p0.contains_key((row_idx as int, col + j)));
        }
        assert(is_run(p0, row_idx as int, col as int, n));
        lemma_run_unique(p0, row_idx as int, col as int, n);
    }
    c
}


/// The texts of one output row, and for each placed cell its first output
/// column and its spans.
pub struct RowProcessResult {
    pub row_data: Vec<String>,
    pub cell_spans: Vec<(usize, CellSpan)>,
}

fn scan_row_cells(
    row: &SourceRow,
    row_idx: u32,
    tracker: &mut RowSpanTracker,
    exclude_hidden: bool,
    limit: usize,
) -> (r: Option<RowProcessResult>)
    requires
        limit <= MAX_TRACKED_COLUMN,
    ensures
        ({
            let s = scan_row(old(tracker)@, row_idx as int, row.cells@, exclude_hidden);
            match r {
                Some(res) => {
                    &&& s.col <= limit
                    &&& final(tracker)@ == s.pending
                    &&& strs(res.row_data@) == s.out
                    &&& spans_view(res.cell_spans@) == s.spans
                },
                None => s.col > limit,
            }
        }),
{
    let ghost cells = row.cells@;
    let ghost s0 = start_scan(tracker@);
    let ghost fin = scan_cells(s0, row_idx as int, cells, exclude_hidden);
    let mut row_data: Vec<String> = Vec::new();
    let mut cell_spans: Vec<(usize, CellSpan)> = Vec::new();
    let mut col: usize = 0;
    let mut i: usize = 0;
    proof {
        assert(cells.take(0) =~= Seq::<SourceCell>::empty());
        assert(strs(row_data@) =~= Seq::<Seq<char>>::empty());
        assert(spans_view(cell_spans@) =~= Seq::<(int, int, int, Seq<char>)>::empty());
    }
    while i < row.cells.len()
        invariant
            0 <= i <= row.cells.len(),
            cells == row.cells@,
            limit <= MAX_TRACKED_COLUMN,
            col <= limit,
            fin == scan_cells(s0, row_idx as int, cells, exclude_hidden),
            s0 == start_scan(old(tracker)@),
            ({
                let sc = scan_cells(s0, row_idx as int, cells.take(i as int), exclude_hidden);
                &&& tracker@ == sc.pending
                &&& col == sc.col
                &&& strs(row_data@) == sc.out
                &&& spans_view(cell_spans@) == sc.spans
            }),
        decreases row.cells.len() - i,
    {
        let ghost prev = scan_cells(s0, row_idx as int, cells.take(i as int), exclude_hidden);
        proof {
            assert(cells.take(i + 1).drop_last() =~= cells.take(i as int));
            assert(cells.take(i + 1).last() == cells[i as int]);
            lemma_scan_moves_right(s0, row_idx as int, cells, exclude_hidden, i + 1);
            lemma_drain_moves_right(fin, row_idx as int);
        }
        let ghost d = drain(prev, row_idx as int);
        let ghost next = scan_cells(s0, row_idx as int, cells.take(i + 1), exclude_hidden);
        proof {
            assert(next == step(prev, row_idx as int, cells[i as int], exclude_hidden));
            assert(next.col >= d.col);
        }
        let c1 = drain_pending(tracker, row_idx, col, &mut row_data, Ghost(prev.spans));
        if c1 > limit {
            return None;
        }
        col = c1;
        let cell = &row.cells[i];
        if exclude_hidden && cell.hidden {
        } else {
            let span = get_cell_span(cell);
            if (col as u64) + (span.colspan as u64) > limit as u64 {
                return None;
            }
            tracker.add(row_idx, col, &span);
            let ghost base = strs(row_data@);
            row_data.push(span.text.clone());
            proof {
                assert(strs(row_data@) =~= base + seq![span.text@]);
            }
            let mut k: u32 = 1;
            while k < span.colspan
                invariant
                    1 <= k <= span.colspan,
                    strs(row_data@) == base + seq![span.text@] + Seq::new(
                        (k - 1) as nat,
                        |j: int| Seq::<char>::empty(),
                    ),
                decreases span.colspan - k,
            {
                let ghost before = strs(row_data@);
                row_data.push(String::new());
                proof {
                    assert(strs(row_data@) =~= before.push(Seq::<char>::empty()));
                    assert(strs(row_data@) =~= base + seq![span.text@] + Seq::new(
                        k as nat,
                        |j: int| Seq::<char>::empty(),
                    ));
                }
                k = k + 1;
            }
            let cs = span.colspan;
            let ghost sp = spans_view(cell_spans@);
            cell_spans.push((col, span));
            proof {
                assert(spans_view(cell_spans@) =~= sp.push((col as int, cs as int, at_least_one(cell.rowspan), cell.text@)));
            }
            col = col + cs as usize;
        }
        i = i + 1;
    }
    proof {
        assert(cells.take(i as int) =~= cells);
    }
    let c2 = drain_pending(tracker, row_idx, col, &mut row_data, Ghost(spans_view(cell_spans@)));
    if c2 > limit {
        return None;
    }
    Some(RowProcessResult { row_data, cell_spans })
}

/// Walks one physical row: before each cell, and after the
/// last, the entries due at the current column are drained; a visible cell
/// is emitted with an empty string for each further column it spans, and
/// recorded for the rows its `rowspan` reaches. Fails when the row would be
/// wider than a pending entry can address.
pub fn process_row_cells(
    row: &SourceRow,
    row_idx: u32,
    tracker: &mut RowSpanTracker,
    exclude_hidden: bool,
) -> (r: Result<RowProcessResult, ExtractError>)
    ensures
        ({
            let s = scan_row(old(tracker)@, row_idx as int, row.cells@, exclude_hidden);
            match r {
                Ok(res) => {
                    &&& s.col <= MAX_TRACKED_COLUMN
                    &&& final(tracker)@ == s.pending
                    &&& strs(res.row_data@) == s.out
                    &&& spans_view(res.cell_spans@) == s.spans
                },
                Err(e) => e == ExtractError::ColumnLimit && s.col > MAX_TRACKED_COLUMN,
            }
        }),
{
    match scan_row_cells(row, row_idx, tracker, exclude_hidden, MAX_TRACKED_COLUMN) {
        Some(res) => Ok(res),
        None => Err(ExtractError::ColumnLimit),
    }
}

/// How many of the rows `row + 1 .. row + m - 1` exist and are shown.
pub open spec fn visible_rows(rows: Seq<SourceRow>, row: int, exclude_hidden: bool, m: int) -> int
    decreases m,
{
    if m <= 1 {
        0
    } else {
        visible_rows(rows, row, exclude_hidden, m - 1) + (if row + m - 1 < rows.len() && !(
        exclude_hidden && rows[row + m - 1].hidden) {
            1int
        } else {
            0int
        })
    }
}

proof fn lemma_visible_rows_past_end(rows: Seq<SourceRow>, row: int, ex: bool, m0: int, m: int)
    requires
        1 <= m0 <= m,
        row + m0 >= rows.len(),
    ensures
        visible_rows(rows, row, ex, m) == visible_rows(rows, row, ex, m0),
    decreases m - m0,
{
    if m > m0 {
        lemma_visible_rows_past_end(rows, row, ex, m0, m - 1);
    }
}

/// The rows a span reaches below its own are fewer than its rowspan and than
/// the rows left in the table.
pub proof fn lemma_visible_rows_bound(rows: Seq<SourceRow>, row: int, ex: bool, m: int)
    requires
        0 <= row < rows.len(),
    ensures
        0 <= visible_rows(rows, row, ex, m),
        visible_rows(rows, row, ex, m) <= rows.len() - row - 1,
        m >= 1 ==> visible_rows(rows, row, ex, m) <= m - 1,
    decreases m,
{
    if m > 1 {
        lemma_visible_rows_bound(rows, row, ex, m - 1);
    }
}

/// Counts the rows below `row_idx` that a `rowspan` covers, leaving out
/// hidden ones when they are excluded and stopping at the table's end.
pub fn count_visible_rows(rowspan: u32, row_idx: u32, exclude_hidden: bool, rows: &Vec<SourceRow>) -> (r: u32)
    requires
        row_idx < rows.len(),
    ensures
        r == visible_rows(rows@, row_idx as int, exclude_hidden, rowspan as int),
{
    proof {
        lemma_visible_rows_bound(rows@, row_idx as int, exclude_hidden, rowspan as int);
    }
    if rowspan <= 1 {
        return 0;
    }
    let mut count: u32 = 0;
    let mut r: u32 = 1;
    while r < rowspan && (row_idx as u64) + (r as u64) < rows.len() as u64
        invariant
            1 <= r <= rowspan,
            row_idx < rows.len(),
            count == visible_rows(rows@, row_idx as int, exclude_hidden, r as int),
            count <= r - 1,
        decreases rowspan - r,
    {
        let idx: usize = row_idx as usize + r as usize;
        let next = &rows[idx];
        if !exclude_hidden || !next.hidden {
            count = count + 1;
        }
        r = r + 1;
    }
    proof {
        if r < rowspan {
            lemma_visible_rows_past_end(rows@, row_idx as int, exclude_hidden, r as int, rowspan as int);
        }
    }
    count
}

/// The merge region of a cell placed at (`out_row`, `col`).
pub open spec fn merge_of(out_row: int, col: int, colspan: int, covered: int) -> MergeRange {
    MergeRange {
        first_row: out_row as u32,
        first_col: col as u16,
        last_row: (out_row + covered) as u32,
        last_col: (col + colspan - 1) as u16,
    }
}

/// A cell is merged when it spans several columns or reaches a shown row below.
pub open spec fn needs_merge(colspan: int, covered: int) -> bool {
    covered > 0 || colspan > 1
}

/// The merge regions of the cells placed in one output row.
pub open spec fn row_merges(
    spans: Seq<(int, int, int, Seq<char>)>,
    out_row: int,
    row: int,
    rows: Seq<SourceRow>,
    exclude_hidden: bool,
) -> Seq<MergeRange>
    decreases spans.len(),
{
    if spans.len() == 0 {
        Seq::empty()
    } else {
        let prev = row_merges(spans.drop_last(), out_row, row, rows, exclude_hidden);
        let sp = spans.last();
        let covered = visible_rows(rows, row, exclude_hidden, sp.2);
        if needs_merge(sp.1, covered) {
            prev.push(merge_of(out_row, sp.0, sp.1, covered))
        } else {
            prev
        }
    }
}

/// Appends the merge region of each cell of one output row that covers more
/// than one cell of the output grid.
pub fn compute_merge_ranges(
    cell_spans: &Vec<(usize, CellSpan)>,
    row_idx: u32,
    output_row_idx: u32,
    exclude_hidden: bool,
    rows: &Vec<SourceRow>,
    merge_ranges: &mut Vec<MergeRange>,
)
    requires
        row_idx < rows.len(),
        rows.len() <= u32::MAX,
        output_row_idx <= row_idx,
        forall|i: int|
            0 <= i < cell_spans.len() ==> 1 <= (#[trigger] cell_spans@[i]).1.colspan && cell_spans@[i].0
                + cell_spans@[i].1.colspan <= XLSX_MAX_COLUMNS,
    ensures
        final(merge_ranges)@ == old(merge_ranges)@ + row_merges(
            spans_view(cell_spans@),
            output_row_idx as int,
            row_idx as int,
            rows@,
            exclude_hidden,
        ),
{
    let ghost base = merge_ranges@;
    let ghost sv = spans_view(cell_spans@);
    let mut i: usize = 0;
    proof {
        assert(sv.take(0) =~= Seq::<(int, int, int, Seq<char>)>::empty());
        assert(base + Seq::<MergeRange>::empty() =~= base);
    }
    while i < cell_spans.len()
        invariant
            0 <= i <= cell_spans.len(),
            sv == spans_view(cell_spans@),
            row_idx < rows.len(),
            rows.len() <= u32::MAX,
            output_row_idx <= row_idx,
            forall|j: int|
                0 <= j < cell_spans.len() ==> 1 <= (#[trigger] cell_spans@[j]).1.colspan
                    && cell_spans@[j].0 + cell_spans@[j].1.colspan <= XLSX_MAX_COLUMNS,
            merge_ranges@ == base + row_merges(
                sv.take(i as int),
                output_row_idx as int,
                row_idx as int,
                rows@,
                exclude_hidden,
            ),
        decreases cell_spans.len() - i,
    {
        let col = cell_spans[i].0;
        let colspan = cell_spans[i].1.colspan;
        let rowspan = cell_spans[i].1.rowspan;
        let covered = count_visible_rows(rowspan, row_idx, exclude_hidden, rows);
        proof {
            lemma_visible_rows_bound(rows@, row_idx as int, exclude_hidden, rowspan as int);
            assert(sv.take(i + 1).drop_last() =~= sv.take(i as int));
            assert(sv.take(i + 1).last() == (col as int, colspan as int, rowspan as int, cell_spans@[i as int].1.text@));
        }
        let last_row = output_row_idx + covered;
        let last_col = (col + colspan as usize - 1) as u16;
        if last_row > output_row_idx || last_col as usize > col {
            merge_ranges.push(MergeRange::new(output_row_idx, col as u16, last_row, last_col));
        }
        i = i + 1;
    }
    proof {
        assert(sv.take(i as int) =~= sv);
    }
}

/// Each recorded span starts at a column of its own row, spans at least one
/// column and ends by column `col`.
pub open spec fn spans_fit(spans: Seq<(int, int, int, Seq<char>)>, col: int) -> bool {
    forall|j: int|
        0 <= j < spans.len() ==> 0 <= (#[trigger] spans[j]).0 && 1 <= spans[j].1 && spans[j].0
            + spans[j].1 <= col
}

proof fn lemma_scan_spans_fit(s0: RowScan, row: int, cells: Seq<SourceCell>, ex: bool)
    requires
        s0.col >= 0,
        spans_fit(s0.spans, s0.col),
    ensures
        spans_fit(scan_cells(s0, row, cells, ex).spans, scan_cells(s0, row, cells, ex).col),
        scan_cells(s0, row, cells, ex).col >= 0,
    decreases cells.len(),
{
    if cells.len() > 0 {
        let t = scan_cells(s0, row, cells.drop_last(), ex);
        lemma_scan_spans_fit(s0, row, cells.drop_last(), ex);
        lemma_drain_moves_right(t, row);
    }
}

proof fn lemma_row_spans_fit(p: PendingMap, row: int, cells: Seq<SourceCell>, ex: bool)
    ensures
        spans_fit(scan_row(p, row, cells, ex).spans, scan_row(p, row, cells, ex).col),
{
    let t = scan_cells(start_scan(p), row, cells, ex);
    lemma_scan_spans_fit(start_scan(p), row, cells, ex);
    lemma_drain_moves_right(t, row);
}

/// The state of the walk through a table: what is pending, the output rows,
/// their merge regions, and whether some row was wider than allowed.
pub struct TableScan {
    pub pending: PendingMap,
    pub rows: Seq<Seq<Seq<char>>>,
    pub merges: Seq<MergeRange>,
    pub overflow: bool,
}

/// The walk through the first `k` physical rows. A hidden row is skipped
/// entirely when hidden rows are excluded: it emits nothing and takes no
/// output row index.
pub open spec fn walk(rows: Seq<SourceRow>, exclude_hidden: bool, limit: int, k: int) -> TableScan
    decreases k,
{
    if k <= 0 {
        TableScan {
            pending: PendingMap::empty(),
            rows: Seq::empty(),
            merges: Seq::empty(),
            overflow: false,
        }
    } else {
        let t = walk(rows, exclude_hidden, limit, k - 1);
        let row = rows[k - 1];
        if exclude_hidden && row.hidden {
            t
        } else {
            let s = scan_row(t.pending, k - 1, row.cells@, exclude_hidden);
            TableScan {
                pending: s.pending,
                rows: t.rows.push(s.out),
                merges: t.merges + row_merges(s.spans, t.rows.len() as int, k - 1, rows, exclude_hidden),
                overflow: t.overflow || s.col > limit,
            }
        }
    }
}

proof fn lemma_walk_overflow_stays(rows: Seq<SourceRow>, ex: bool, limit: int, k: int, n: int)
    requires
        0 <= k <= n,
        walk(rows, ex, limit, k).overflow,
    ensures
        walk(rows, ex, limit, n).overflow,
    decreases n - k,
{
    if k < n {
        lemma_walk_overflow_stays(rows, ex, limit, k, n - 1);
    }
}

fn walk_table(table: &SourceTable, exclude_hidden: bool, limit: usize, with_merges: bool) -> (r: Option<
    (Vec<Vec<String>>, Vec<MergeRange>),
>)
    requires
        table.rows.len() <= u32::MAX,
        limit <= MAX_TRACKED_COLUMN,
        with_merges ==> limit <= XLSX_MAX_COLUMNS,
    ensures
        ({
            let w = walk(table.rows@, exclude_hidden, limit as int, table.rows.len() as int);
            match r {
                Some(res) => {
                    &&& !w.overflow
                    &&& grid_view(res.0@) == w.rows
                    &&& with_merges ==> res.1@ == w.merges
                    &&& !with_merges ==> res.1@.len() == 0
                },
                None => w.overflow,
            }
        }),
{
    let ghost rs = table.rows@;
    let mut tracker = RowSpanTracker::new();
    let mut out: Vec<Vec<String>> = Vec::new();
    let mut merges: Vec<MergeRange> = Vec::new();
    let mut i: usize = 0;
    proof {
        assert(grid_view(out@) =~= Seq::<Seq<Seq<char>>>::empty());
    }
    while i < table.rows.len()
        invariant
            0 <= i <= table.rows.len(),
            rs == table.rows@,
            table.rows.len() <= u32::MAX,
            limit <= MAX_TRACKED_COLUMN,
            with_merges ==> limit <= XLSX_MAX_COLUMNS,
            out.len() <= i,
            ({
                let w = walk(rs, exclude_hidden, limit as int, i as int);
                &&& !w.overflow
                &&& tracker@ == w.pending
                &&& grid_view(out@) == w.rows
                &&& with_merges ==> merges@ == w.merges
                &&& !with_merges ==> merges@.len() == 0
            }),
        decreases table.rows.len() - i,
    {
        let row = &table.rows[i];
        if exclude_hidden && row.hidden {
        } else {
            let ghost w = walk(rs, exclude_hidden, limit as int, i as int);
            match scan_row_cells(row, i as u32, &mut tracker, exclude_hidden, limit) {
                None => {
                    proof {
                        lemma_walk_overflow_stays(rs, exclude_hidden, limit as int, i + 1, rs.len() as int);
                    }
                    return None;
                },
                Some(res) => {
                    if with_merges {
                        let ghost s = scan_row(w.pending, i as int, row.cells@, exclude_hidden);
                        proof {
                            lemma_row_spans_fit(w.pending, i as int, row.cells@, exclude_hidden);
                            assert forall|j: int| 0 <= j < res.cell_spans.len() implies 1 <= (
                            #[trigger] res.cell_spans@[j]).1.colspan && res.cell_spans@[j].0
                                + res.cell_spans@[j].1.colspan <= XLSX_MAX_COLUMNS by {
                                assert(s.spans[j] == spans_view(res.cell_spans@)[j]);
                            }
                        }
                        compute_merge_ranges(
                            &res.cell_spans,
                            i as u32,
                            out.len() as u32,
                            exclude_hidden,
                            &table.rows,
                            &mut merges,
                        );
                    }
                    let ghost before = grid_view(out@);
                    out.push(res.row_data);
                    proof {
                        assert(grid_view(out@) =~= before.push(strs(res.row_data@)));
                    }
                },
            }
        }
        i = i + 1;
    }
    Some((out, merges))
}


/// Extracts the dense text matrix of a table (for targets without merged
/// cells). Hidden rows and cells are left out when `exclude_hidden` is set.
pub fn extract_table_data(table: &SourceTable, exclude_hidden: bool) -> (r: Result<
    Vec<Vec<String>>,
    ExtractError,
>)
    requires
        table.rows.len() <= u32::MAX,
    ensures
        table.rows.len() == 0 ==> r matches Err(ExtractError::EmptyTable),
        table.rows.len() > 0 ==> ({
            let w = walk(
                table.rows@,
                exclude_hidden,
                MAX_TRACKED_COLUMN as int,
                table.rows.len() as int,
            );
            match r {
                Ok(rows) => !w.overflow && grid_view(rows@) == w.rows,
                Err(e) => e == ExtractError::ColumnLimit && w.overflow,
            }
        }),
{
    if table.rows.len() == 0 {
        return Err(ExtractError::EmptyTable);
    }
    match walk_table(table, exclude_hidden, MAX_TRACKED_COLUMN, false) {
        Some((rows, _)) => Ok(rows),
        None => Err(ExtractError::ColumnLimit),
    }
}

/// Extracts the dense text matrix of a table together with its merge
/// regions in output coordinates, for an XLSX target: a row wider than a
/// worksheet is an error.
pub fn extract_table_data_with_merge(table: &SourceTable, exclude_hidden: bool) -> (r: Result<
    TableData,
    ExtractError,
>)
    requires
        table.rows.len() <= u32::MAX,
    ensures
        table.rows.len() == 0 ==> r matches Err(ExtractError::EmptyTable),
        table.rows.len() > 0 ==> ({
            let w = walk(
                table.rows@,
                exclude_hidden,
                XLSX_MAX_COLUMNS as int,
                table.rows.len() as int,
            );
            match r {
                Ok(data) => {
                    &&& !w.overflow
                    &&& grid_view(data.rows@) == w.rows
                    &&& data.merge_ranges@ == w.merges
                    &&& all_proper(data.merge_ranges@)
                    &&& data.header_row_count == table.header_row_count
                },
                Err(e) => e == ExtractError::ColumnLimit && w.overflow,
            }
        }),
{
    if table.rows.len() == 0 {
        return Err(ExtractError::EmptyTable);
    }
    proof {
        lemma_walk_merges_proper(
            table.rows@,
            exclude_hidden,
            XLSX_MAX_COLUMNS as int,
            table.rows.len() as int,
        );
    }
    match walk_table(table, exclude_hidden, XLSX_MAX_COLUMNS, true) {
        Some((rows, merge_ranges)) => Ok(
            TableData { rows, merge_ranges, header_row_count: table.header_row_count },
        ),
        None => Err(ExtractError::ColumnLimit),
    }
}

/// No cell spans more than one row or column.
pub open spec fn has_no_spans(rows: Seq<SourceRow>) -> bool {
    forall|i: int, j: int|
        0 <= i < rows.len() && 0 <= j < rows[i].cells@.len() ==> (#[trigger] rows[i].cells@[j]).colspan
            <= 1 && rows[i].cells@[j].rowspan <= 1
}

/// The texts of the cells that are shown, in order: every cell, or only the
/// visible ones when hidden cells are excluded.
pub open spec fn shown_texts(cells: Seq<SourceCell>, exclude_hidden: bool) -> Seq<Seq<char>>
    decreases cells.len(),
{
    if cells.len() == 0 {
        Seq::empty()
    } else {
        let prev = shown_texts(cells.drop_last(), exclude_hidden);
        if exclude_hidden && cells.last().hidden {
            prev
        } else {
            prev.push(cells.last().text@)
        }
    }
}

/// The shown texts of the shown rows, row by row: every row, or only the
/// visible ones when hidden rows are excluded.
pub open spec fn shown_literal(rows: Seq<SourceRow>, exclude_hidden: bool) -> Seq<Seq<Seq<char>>>
    decreases rows.len(),
{
    if rows.len() == 0 {
        Seq::empty()
    } else {
        let prev = shown_literal(rows.drop_last(), exclude_hidden);
        if exclude_hidden && rows.last().hidden {
            prev
        } else {
            prev.push(shown_texts(rows.last().cells@, exclude_hidden))
        }
    }
}

/// No entry is pending for `row`.
pub open spec fn nothing_due(p: PendingMap, row: int) -> bool {
    forall|k: (int, int)| #[trigger] p.contains_key(k) ==> k.0 != row
}

proof fn lemma_drain_nothing(s: RowScan, row: int)
    requires
        nothing_due(s.pending, row),
    ensures
        drain(s, row) == s,
{
    assert(!s.pending.contains_key((row, s.col)));
    assert(is_run(s.pending, row, s.col, 0));
    lemma_run_unique(s.pending, row, s.col, 0);
    assert(drain(s, row).pending =~= s.pending);
    assert(drain(s, row).out =~= s.out);
}

proof fn lemma_plain_row(p: PendingMap, row: int, cells: Seq<SourceCell>, ex: bool)
    requires
        nothing_due(p, row),
        forall|j: int| 0 <= j < cells.len() ==> (#[trigger] cells[j]).colspan <= 1 && cells[j].rowspan <= 1,
    ensures
        ({
            let s = scan_cells(start_scan(p), row, cells, ex);
            &&& s.pending == p
            &&& s.out == shown_texts(cells, ex)
            &&& s.col == s.out.len()
            &&& s.spans.len() == s.out.len()
            &&& forall|j: int|
                0 <= j < s.spans.len() ==> (#[trigger] s.spans[j]) == (j, 1int, 1int, s.out[j])
        }),
    decreases cells.len(),
{
    if cells.len() > 0 {
        let prev = cells.drop_last();
        lemma_plain_row(p, row, prev, ex);
        let t = scan_cells(start_scan(p), row, prev, ex);
        lemma_drain_nothing(t, row);
        let c = cells.last();
        if !(ex && c.hidden) {
            assert(record_span(t.pending, row, t.col, 1, 1, c.text@) == t.pending);
            let s = scan_cells(start_scan(p), row, cells, ex);
            assert(s.out =~= shown_texts(cells, ex)) by {
                assert(t.out + seq![c.text@] + Seq::new(0, |j: int| Seq::<char>::empty()) =~= t.out.push(c.text@));
            }
            assert forall|j: int| 0 <= j < s.spans.len() implies (#[trigger] s.spans[j]) == (j, 1int, 1int, s.out[j]) by {
                if j < t.spans.len() {
                    assert(s.spans[j] == t.spans[j]);
                    assert(s.out[j] == t.out[j]);
                }
            }
        }
    }
}

/// A row in which no cell spans more than one row or column, walked while no
/// entry is pending for it, emits exactly the texts of its shown cells, one
/// span (its column, 1, 1, its text) per shown cell, and leaves the pending
/// entries as they were.
pub proof fn lemma_plain_row_keeps_tracker(p: PendingMap, row: int, cells: Seq<SourceCell>, ex: bool)
    requires
        nothing_due(p, row),
        forall|j: int| 0 <= j < cells.len() ==> (#[trigger] cells[j]).colspan <= 1 && cells[j].rowspan <= 1,
    ensures
        ({
            let s = scan_row(p, row, cells, ex);
            &&& s.pending == p
            &&& s.out == shown_texts(cells, ex)
            &&& s.spans.len() == s.out.len()
            &&& forall|j: int|
                0 <= j < s.spans.len() ==> (#[trigger] s.spans[j]) == (j, 1int, 1int, s.out[j])
        }),
{
    lemma_plain_row(p, row, cells, ex);
    lemma_drain_nothing(scan_cells(start_scan(p), row, cells, ex), row);
}

proof fn lemma_single_cells_merge_nothing(
    spans: Seq<(int, int, int, Seq<char>)>,
    out_row: int,
    row: int,
    rows: Seq<SourceRow>,
    ex: bool,
)
    requires
        forall|j: int| 0 <= j < spans.len() ==> (#[trigger] spans[j]).1 == 1 && spans[j].2 == 1,
    ensures
        row_merges(spans, out_row, row, rows, ex).len() == 0,
    decreases spans.len(),
{
    if spans.len() > 0 {
        lemma_single_cells_merge_nothing(spans.drop_last(), out_row, row, rows, ex);
    }
}

/// A table in which no cell spans more than one row or column becomes
/// exactly the texts of its shown cells, row by row in row-major order (all
/// of them, or the visible ones of the visible rows when hidden ones are
/// excluded), with no merge region; it fails only when a shown row holds
/// more shown cells than the limit.
pub proof fn lemma_plain_table_is_literal(rows: Seq<SourceRow>, exclude_hidden: bool, limit: int, k: int)
    requires
        0 <= k <= rows.len(),
        has_no_spans(rows),
    ensures
        walk(rows, exclude_hidden, limit, k).rows == shown_literal(rows.take(k), exclude_hidden),
        walk(rows, exclude_hidden, limit, k).merges.len() == 0,
        walk(rows, exclude_hidden, limit, k).pending == PendingMap::empty(),
        walk(rows, exclude_hidden, limit, k).overflow <==> exists|i: int|
            0 <= i < k && !(exclude_hidden && rows[i].hidden) && #[trigger] shown_texts(
                rows[i].cells@,
                exclude_hidden,
            ).len() > limit,
    decreases k,
{
    if k == 0 {
        assert(rows.take(0) =~= Seq::<SourceRow>::empty());
    } else {
        lemma_plain_table_is_literal(rows, exclude_hidden, limit, k - 1);
        let t = walk(rows, exclude_hidden, limit, k - 1);
        let cells = rows[k - 1].cells@;
        assert(rows.take(k).drop_last() =~= rows.take(k - 1));
        assert(rows.take(k).last() == rows[k - 1]);
        let w = walk(rows, exclude_hidden, limit, k);
        if !(exclude_hidden && rows[k - 1].hidden) {
            assert forall|j: int| 0 <= j < cells.len() implies (#[trigger] cells[j]).colspan <= 1
                && cells[j].rowspan <= 1 by {
                assert(rows[k - 1].cells@[j] == cells[j]);
            }
            lemma_plain_row(PendingMap::empty(), k - 1, cells, exclude_hidden);
            let sc = scan_cells(start_scan(PendingMap::empty()), k - 1, cells, exclude_hidden);
            lemma_drain_nothing(sc, k - 1);
            lemma_single_cells_merge_nothing(sc.spans, t.rows.len() as int, k - 1, rows, exclude_hidden);
            assert(w.merges =~= t.merges + Seq::<MergeRange>::empty());
        }
        if w.overflow {
            if !t.overflow {
                assert(shown_texts(rows[k - 1].cells@, exclude_hidden).len() > limit);
            }
        }
        if exists|i: int|
            0 <= i < k && !(exclude_hidden && rows[i].hidden) && #[trigger] shown_texts(
                rows[i].cells@,
                exclude_hidden,
            ).len() > limit {
            let i = choose|i: int|
                0 <= i < k && !(exclude_hidden && rows[i].hidden) && #[trigger] shown_texts(
                    rows[i].cells@,
                    exclude_hidden,
                ).len() > limit;
            if i < k - 1 {
                assert(t.overflow);
            }
        }
    }
}

/// A cell with a `rowspan` of R > 1 owes each of the next R - 1 rows an entry
/// in every column it spans: its text in its first column, the empty string
/// in the others.
pub proof fn lemma_record_span_fills(
    p: PendingMap,
    row: int,
    col: int,
    colspan: int,
    rowspan: int,
    text: Seq<char>,
    r: int,
    c: int,
)
    requires
        rowspan > 1,
        row + 1 <= r < row + rowspan,
        r <= u32::MAX,
        col <= c < col + colspan,
    ensures
        record_span(p, row, col, colspan, rowspan, text).contains_key((r, c)),
        record_span(p, row, col, colspan, rowspan, text)[(r, c)] == if c == col {
            text
        } else {
            Seq::<char>::empty()
        },
{
}

proof fn lemma_visible_rows_all(rows: Seq<SourceRow>, row: int, m: int)
    requires
        1 <= m,
        row + m - 1 < rows.len(),
    ensures
        visible_rows(rows, row, false, m) == m - 1,
    decreases m,
{
    if m > 1 {
        lemma_visible_rows_all(rows, row, m - 1);
    }
}

/// With nothing left out, a cell whose rows all lie within the table gets a
/// merge region exactly when it spans more than one row or column; the
/// region then covers more than one cell.
pub proof fn lemma_merge_iff_span(
    rows: Seq<SourceRow>,
    out_row: int,
    row: int,
    col: int,
    colspan: int,
    rowspan: int,
    text: Seq<char>,
)
    requires
        1 <= colspan,
        1 <= rowspan,
        0 <= row,
        row + rowspan - 1 < rows.len(),
        0 <= out_row,
        out_row + rowspan - 1 <= u32::MAX,
        0 <= col,
        col + colspan <= XLSX_MAX_COLUMNS,
    ensures
        ({
            let covered = visible_rows(rows, row, false, rowspan);
            let m = row_merges(seq![(col, colspan, rowspan, text)], out_row, row, rows, false);
            &&& needs_merge(colspan, covered) <==> (colspan > 1 || rowspan > 1)
            &&& (colspan > 1 || rowspan > 1) ==> m == seq![merge_of(out_row, col, colspan, covered)]
                && merge_of(out_row, col, colspan, covered).is_proper()
            &&& !(colspan > 1 || rowspan > 1) ==> m.len() == 0
        }),
{
    lemma_visible_rows_all(rows, row, rowspan);
    let sp = seq![(col, colspan, rowspan, text)];
    assert(sp.drop_last() =~= Seq::<(int, int, int, Seq<char>)>::empty());
    let none = row_merges(Seq::<(int, int, int, Seq<char>)>::empty(), out_row, row, rows, false);
    assert(none == Seq::<MergeRange>::empty());
    let covered = visible_rows(rows, row, false, rowspan);
    let mg = merge_of(out_row, col, colspan, covered);
    assert(mg.first_row as int == out_row && mg.last_row as int == out_row + covered);
    assert(mg.first_col as int == col && mg.last_col as int == col + colspan - 1);
    if colspan > 1 || rowspan > 1 {
        assert(none.push(mg) =~= seq![mg]);
    }
}

/// How many of the rows `row + 1 .. row + m - 1` exist and are hidden.
pub open spec fn hidden_rows(rows: Seq<SourceRow>, row: int, m: int) -> int
    decreases m,
{
    if m <= 1 {
        0
    } else {
        hidden_rows(rows, row, m - 1) + (if row + m - 1 < rows.len() && rows[row + m - 1].hidden {
            1int
        } else {
            0int
        })
    }
}

/// Excluding hidden rows shrinks the rows a `rowspan` covers by exactly the
/// number of hidden rows it crosses; so by exactly one when it crosses one.
pub proof fn lemma_hidden_rows_shrink_span(rows: Seq<SourceRow>, row: int, m: int)
    ensures
        visible_rows(rows, row, true, m) == visible_rows(rows, row, false, m) - hidden_rows(rows, row, m),
        hidden_rows(rows, row, m) == 1 ==> visible_rows(rows, row, true, m) == visible_rows(
            rows,
            row,
            false,
            m,
        ) - 1,
    decreases m,
{
    if m > 1 {
        lemma_hidden_rows_shrink_span(rows, row, m - 1);
    }
}

/// How many of the first `k` rows are hidden.
pub open spec fn hidden_before(rows: Seq<SourceRow>, k: int) -> int
    decreases k,
{
    if k <= 0 {
        0
    } else {
        hidden_before(rows, k - 1) + if rows[k - 1].hidden {
            1int
        } else {
            0int
        }
    }
}

/// Each shown row takes the next output index: the row at source index `k`
/// is emitted at output index `k` when nothing is excluded, and at `k` less
/// the hidden rows above it when hidden rows are excluded.
pub proof fn lemma_output_row_index(rows: Seq<SourceRow>, limit: int, k: int)
    requires
        0 <= k <= rows.len(),
    ensures
        walk(rows, false, limit, k).rows.len() == k,
        walk(rows, true, limit, k).rows.len() == k - hidden_before(rows, k),
    decreases k,
{
    if k > 0 {
        lemma_output_row_index(rows, limit, k - 1);
    }
}


/// The walk emits at most one output row per physical row.
pub proof fn lemma_walk_rows_len(rows: Seq<SourceRow>, ex: bool, limit: int, k: int)
    requires
        0 <= k,
    ensures
        walk(rows, ex, limit, k).rows.len() <= k,
    decreases k,
{
    if k > 0 {
        lemma_walk_rows_len(rows, ex, limit, k - 1);
    }
}


proof fn lemma_row_merges_proper(
    spans: Seq<(int, int, int, Seq<char>)>,
    col_bound: int,
    out_row: int,
    row: int,
    rows: Seq<SourceRow>,
    ex: bool,
)
    requires
        spans_fit(spans, col_bound),
        col_bound <= XLSX_MAX_COLUMNS,
        0 <= out_row <= row < rows.len(),
        rows.len() <= u32::MAX,
    ensures
        all_proper(row_merges(spans, out_row, row, rows, ex)),
    decreases spans.len(),
{
    if spans.len() > 0 {
        let prev = spans.drop_last();
        assert(spans_fit(prev, col_bound)) by {
            assert forall|j: int| 0 <= j < prev.len() implies 0 <= (#[trigger] prev[j]).0 && 1
                <= prev[j].1 && prev[j].0 + prev[j].1 <= col_bound by {
                assert(prev[j] == spans[j]);
            }
        }
        lemma_row_merges_proper(prev, col_bound, out_row, row, rows, ex);
        let sp = spans.last();
        assert(spans[spans.len() - 1] == sp);
        let covered = visible_rows(rows, row, ex, sp.2);
        lemma_visible_rows_bound(rows, row, ex, sp.2);
        let m = merge_of(out_row, sp.0, sp.1, covered);
        assert(m.first_row as int == out_row && m.last_row as int == out_row + covered);
        assert(m.first_col as int == sp.0 && m.last_col as int == sp.0 + sp.1 - 1);
    }
}

/// A walk that stays within the worksheet's columns yields only well-formed
/// merge regions that cover more than one cell.
pub proof fn lemma_walk_merges_proper(rows: Seq<SourceRow>, ex: bool, limit: int, k: int)
    requires
        0 <= k <= rows.len(),
        rows.len() <= u32::MAX,
        limit <= XLSX_MAX_COLUMNS,
    ensures
        !walk(rows, ex, limit, k).overflow ==> all_proper(walk(rows, ex, limit, k).merges),
    decreases k,
{
    if k > 0 {
        lemma_walk_merges_proper(rows, ex, limit, k - 1);
        let t = walk(rows, ex, limit, k - 1);
        let row = rows[k - 1];
        if !(ex && row.hidden) && !walk(rows, ex, limit, k).overflow {
            let s = scan_row(t.pending, k - 1, row.cells@, ex);
            lemma_row_spans_fit(t.pending, k - 1, row.cells@, ex);
            lemma_walk_rows_len(rows, ex, limit, k - 1);
            lemma_row_merges_proper(s.spans, s.col, t.rows.len() as int, k - 1, rows, ex);
            let added = row_merges(s.spans, t.rows.len() as int, k - 1, rows, ex);
            assert forall|i: int| 0 <= i < t.merges.len() + added.len() implies (#[trigger] (t.merges
                + added)[i]).is_proper() by {
                if i < t.merges.len() {
                    assert((t.merges + added)[i] == t.merges[i]);
                } else {
                    assert((t.merges + added)[i] == added[i - t.merges.len()]);
                }
            }
        }
    }
}


proof fn lemma_visible_rows_same(rows: Seq<SourceRow>, rows2: Seq<SourceRow>, row: int, ex: bool, m: int)
    requires
        rows2.len() == rows.len(),
        0 <= row,
        forall|i: int| row + 1 <= i < row + m && 0 <= i < rows.len() ==> (#[trigger] rows2[i]).hidden == rows[i].hidden,
    ensures
        visible_rows(rows2, row, ex, m) == visible_rows(rows, row, ex, m),
    decreases m,
{
    if m > 1 {
        lemma_visible_rows_same(rows, rows2, row, ex, m - 1);
        if 0 <= row + m - 1 < rows.len() {
            assert(rows2[row + m - 1].hidden == rows[row + m - 1].hidden);
        }
    }
}

/// Hiding one more row that a `rowspan` crosses, with hidden rows excluded,
/// lowers the count of rows it covers by exactly one.
pub proof fn lemma_hiding_a_crossed_row(
    rows: Seq<SourceRow>,
    rows2: Seq<SourceRow>,
    row: int,
    m: int,
    k: int,
)
    requires
        rows2.len() == rows.len(),
        0 <= row,
        1 <= k < m,
        row + k < rows.len(),
        forall|i: int| 0 <= i < rows.len() && i != row + k ==> (#[trigger] rows2[i]).hidden == rows[i].hidden,
        !rows[row + k].hidden,
        rows2[row + k].hidden,
    ensures
        visible_rows(rows2, row, true, m) == visible_rows(rows, row, true, m) - 1,
    decreases m,
{
    if m - 1 > k {
        lemma_hiding_a_crossed_row(rows, rows2, row, m - 1, k);
        if row + m - 1 < rows.len() {
            assert(rows2[row + m - 1].hidden == rows[row + m - 1].hidden);
        }
    } else {
        lemma_visible_rows_same(rows, rows2, row, true, m - 1);
    }
}

} // verus!
