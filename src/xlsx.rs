//! Writing tables to XLSX workbooks through `rust_xlsxwriter`.
use rust_xlsxwriter::{Format, Workbook, Worksheet, XlsxError};
use vstd::prelude::*;

use crate::export::{determine_freeze_pane, report_progress, ExportError, ProgressSink};
use crate::grid::{ExtractError, XLSX_MAX_COLUMNS};
use crate::table::{MergeRange, TableData};

verus! {

#[verifier::external_type_specification]
#[verifier::external_body]
pub struct ExWorkbook(Workbook);

#[verifier::external_type_specification]
#[verifier::external_body]
pub struct ExWorksheet(Worksheet);

#[verifier::external_type_specification]
#[verifier::external_body]
pub struct ExFormat(Format);

#[verifier::external_type_specification]
#[verifier::external_body]
pub struct ExXlsxError(XlsxError);

/// The string cells a worksheet holds, by (row, column).
pub uninterp spec fn sheet_texts(ws: Worksheet) -> Map<(u32, u16), Seq<char>>;

/// The merged ranges a worksheet holds, in the order they were added, as
/// (first row, first column, last row, last column).
pub uninterp spec fn sheet_merges(ws: Worksheet) -> Seq<(u32, u16, u32, u16)>;

/// The cell a worksheet's panes are frozen at; (0, 0) for none.
pub uninterp spec fn sheet_freeze_cell(ws: Worksheet) -> (u32, u16);

/// A worksheet's name; empty until one is set.
pub uninterp spec fn sheet_name(ws: Worksheet) -> Seq<char>;

/// The worksheets a workbook holds, in order.
pub uninterp spec fn book_sheets(wb: Workbook) -> Seq<Worksheet>;

/// The cells of a merge region.
pub open spec fn in_region(k: (u32, u16), m: MergeRange) -> bool {
    m.first_row <= k.0 <= m.last_row && m.first_col <= k.1 <= m.last_col
}

pub open spec fn range_tuple(m: MergeRange) -> (u32, u16, u32, u16) {
    (m.first_row, m.first_col, m.last_row, m.last_col)
}

/// Relies on `Worksheet::new`: no cell, no merged range, no frozen pane, no name.
#[verifier::external_body]
fn new_worksheet() -> (r: Worksheet)
    ensures
        sheet_texts(r).is_empty(),
        sheet_merges(r).len() == 0,
        sheet_freeze_cell(r).0 == 0 && sheet_freeze_cell(r).1 == 0,
        sheet_name(r).len() == 0,
{
    Worksheet::new()
}

/// Relies on `Workbook::new`: no worksheet.
#[verifier::external_body]
fn new_workbook() -> (r: Workbook)
    ensures
        book_sheets(r).len() == 0,
{
    Workbook::new()
}

/// Relies on `Format::new`: the default cell format.
#[verifier::external_body]
fn default_format() -> Format {
    Format::new()
}

/// Relies on `Worksheet::write_string` (`store_string`): an empty string is
/// skipped and never fails; on success any other string is stored at its
/// cell, replacing what was there, and nothing else changes.
#[verifier::external_body]
fn sheet_write(ws: &mut Worksheet, row: u32, col: u16, text: &str) -> (r: Result<(), XlsxError>)
    ensures
        text@.len() == 0 ==> r is Ok && *final(ws) == *old(ws),
        r is Ok && text@.len() > 0 ==> sheet_texts(*final(ws)) == sheet_texts(*old(ws)).insert(
            (row, col),
            text@,
        ),
        r is Ok ==> sheet_merges(*final(ws)) == sheet_merges(*old(ws)),
        r is Ok ==> sheet_freeze_cell(*final(ws)) == sheet_freeze_cell(*old(ws)),
        r is Ok ==> sheet_name(*final(ws)) == sheet_name(*old(ws)),
{
    match ws.write_string(row, col, text) {
        Ok(_) => Ok(()),
        Err(e) => Err(e),
    }
}

/// Relies on `Worksheet::merge_range`: a single cell or a reversed range is
/// refused. On success the range is added to the merged ranges, its cells
/// are blanked but for the top-left one, which holds the text (blank too
/// when the text is empty), and nothing else changes.
#[verifier::external_body]
fn sheet_merge(ws: &mut Worksheet, m: &MergeRange, text: &str, format: &Format) -> (r: Result<
    (),
    XlsxError,
>)
    ensures
        (m.first_row == m.last_row && m.first_col == m.last_col) ==> r is Err,
        (m.first_row > m.last_row || m.first_col > m.last_col) ==> r is Err,
        r is Ok ==> sheet_merges(*final(ws)) == sheet_merges(*old(ws)).push(range_tuple(*m)),
        r is Ok ==> sheet_texts(*final(ws)) == if text@.len() > 0 {
            sheet_texts(*old(ws)).remove_keys(Set::new(|k: (u32, u16)| in_region(k, *m))).insert(
                (m.first_row, m.first_col),
                text@,
            )
        } else {
            sheet_texts(*old(ws)).remove_keys(Set::new(|k: (u32, u16)| in_region(k, *m)))
        },
        r is Ok ==> sheet_freeze_cell(*final(ws)) == sheet_freeze_cell(*old(ws)),
        r is Ok ==> sheet_name(*final(ws)) == sheet_name(*old(ws)),
{
    match ws.merge_range(m.first_row, m.first_col, m.last_row, m.last_col, text, format) {
        Ok(_) => Ok(()),
        Err(e) => Err(e),
    }
}

/// Relies on `Worksheet::set_freeze_panes`: on success the panes are frozen
/// at the cell, and nothing else changes.
#[verifier::external_body]
fn sheet_freeze(ws: &mut Worksheet, row: u32, col: u16) -> (r: Result<(), XlsxError>)
    ensures
        r is Ok ==> sheet_freeze_cell(*final(ws)) == (row, col),
        r is Ok ==> sheet_texts(*final(ws)) == sheet_texts(*old(ws)),
        r is Ok ==> sheet_merges(*final(ws)) == sheet_merges(*old(ws)),
        r is Ok ==> sheet_name(*final(ws)) == sheet_name(*old(ws)),
{
    match ws.set_freeze_panes(row, col) {
        Ok(_) => Ok(()),
        Err(e) => Err(e),
    }
}

/// Relies on `Worksheet::set_name`, which checks the name against Excel's
/// rules (an empty name is refused): on success the name is set, and
/// nothing else changes.
#[verifier::external_body]
fn sheet_set_name(ws: &mut Worksheet, name: &str) -> (r: Result<(), XlsxError>)
    ensures
        name@.len() == 0 ==> r is Err,
        r is Ok ==> sheet_name(*final(ws)) == name@,
        r is Ok ==> sheet_texts(*final(ws)) == sheet_texts(*old(ws)),
        r is Ok ==> sheet_merges(*final(ws)) == sheet_merges(*old(ws)),
        r is Ok ==> sheet_freeze_cell(*final(ws)) == sheet_freeze_cell(*old(ws)),
{
    match ws.set_name(name) {
        Ok(_) => Ok(()),
        Err(e) => Err(e),
    }
}

/// Relies on `Workbook::push_worksheet`: the worksheet is added last, named
/// "Sheet<n>" if it had no name, and otherwise unchanged.
#[verifier::external_body]
fn workbook_push(wb: &mut Workbook, ws: Worksheet)
    ensures
        book_sheets(*final(wb)).len() == book_sheets(*old(wb)).len() + 1,
        forall|i: int|
            0 <= i < book_sheets(*old(wb)).len() ==> #[trigger] book_sheets(*final(wb))[i]
                == book_sheets(*old(wb))[i],
        sheet_texts(book_sheets(*final(wb)).last()) == sheet_texts(ws),
        sheet_merges(book_sheets(*final(wb)).last()) == sheet_merges(ws),
        sheet_freeze_cell(book_sheets(*final(wb)).last()) == sheet_freeze_cell(ws),
        sheet_name(ws).len() > 0 ==> sheet_name(book_sheets(*final(wb)).last()) == sheet_name(ws),
{
    wb.push_worksheet(ws)
}

/// Relies on `Workbook::save_to_buffer`: the xlsx file's bytes.
#[verifier::external_body]
fn workbook_bytes(wb: &mut Workbook) -> Result<Vec<u8>, XlsxError> {
    wb.save_to_buffer()
}

/// Relies on `XlsxError`'s `Display`: its message.
#[verifier::external_body]
fn xlsx_message(e: &XlsxError) -> String {
    e.to_string()
}

fn xlsx_failure(e: XlsxError) -> (r: ExportError)
    ensures
        r is Xlsx,
{
    ExportError::Xlsx(xlsx_message(&e))
}

/// Every row fits in a worksheet's columns.
pub open spec fn rows_within_columns(rows: Seq<Vec<String>>) -> bool {
    forall|i: int| 0 <= i < rows.len() ==> (#[trigger] rows[i])@.len() <= XLSX_MAX_COLUMNS
}

fn check_columns(rows: &Vec<Vec<String>>) -> (r: bool)
    ensures
        r == rows_within_columns(rows@),
{
    let mut i: usize = 0;
    while i < rows.len()
        invariant
            0 <= i <= rows.len(),
            forall|k: int| 0 <= k < i ==> (#[trigger] rows@[k])@.len() <= XLSX_MAX_COLUMNS,
        decreases rows.len() - i,
    {
        if rows[i].len() > XLSX_MAX_COLUMNS {
            return false;
        }
        i = i + 1;
    }
    true
}

/// The text a merge region shows: that of its top-left cell, or the empty
/// string when the cell is outside the rows.
pub open spec fn anchor_text(rows: Seq<Vec<String>>, m: MergeRange) -> Seq<char> {
    if (m.first_row as int) < rows.len() && (m.first_col as int) < rows[m.first_row as int]@.len() {
        rows[m.first_row as int]@[m.first_col as int]@
    } else {
        Seq::empty()
    }
}

/// The text of a merge region's top-left cell (see `anchor_text`).
pub fn merge_anchor_text(rows: &Vec<Vec<String>>, m: &MergeRange) -> (r: String)
    ensures
        r@ == anchor_text(rows@, *m),
{
    let r = m.first_row as usize;
    let c = m.first_col as usize;
    if r < rows.len() && c < rows[r].len() {
        rows[r][c].clone()
    } else {
        String::new()
    }
}

/// The freeze pane set: the caller's unless it is the top-left corner, else
/// one below the header rows if there are any, else none.
pub open spec fn applied_freeze(user_config: Option<(u32, u16)>, header_row_count: int) -> Option<
    (u32, u16),
> {
    match user_config {
        Some(c) => if c.0 > 0 || c.1 > 0 {
            Some(c)
        } else {
            None
        },
        None => if header_row_count > 0 {
            Some((header_row_count as u32, 0u16))
        } else {
            None
        },
    }
}

/// The freeze pane actually set: the chosen one (see
/// `determine_freeze_pane`) unless it is at the top-left corner.
pub fn applied_freeze_pane(user_config: Option<(u32, u16)>, header_row_count: usize) -> (r: Option<
    (u32, u16),
>)
    requires
        header_row_count <= u32::MAX,
    ensures
        r == applied_freeze(user_config, header_row_count as int),
{
    match determine_freeze_pane(user_config, header_row_count) {
        Some((row, col)) => if row > 0 || col > 0 {
            Some((row, col))
        } else {
            None
        },
        None => None,
    }
}

/// What one worksheet receives for a table: each cell written as a string
/// (never a formula), each merge region with its top-left text, and the
/// freeze pane; `rows` is the table's row count, for progress.
pub struct SheetPlan {
    pub cells: Vec<(u32, u16, String)>,
    pub merges: Vec<(MergeRange, String)>,
    pub freeze: Option<(u32, u16)>,
    pub rows: u32,
}

/// The cells of row `i`, left to right.
pub open spec fn row_cells(i: int, row: Seq<String>) -> Seq<(u32, u16, Seq<char>)> {
    Seq::new(row.len(), |j: int| (i as u32, j as u16, row[j]@))
}

/// Every cell of the rows, in row-major order, with its row, column and text.
pub open spec fn cell_writes(rows: Seq<Vec<String>>) -> Seq<(u32, u16, Seq<char>)>
    decreases rows.len(),
{
    if rows.len() == 0 {
        Seq::empty()
    } else {
        cell_writes(rows.drop_last()) + row_cells(rows.len() - 1, rows.last()@)
    }
}

/// Each merge region with the text it shows.
pub open spec fn merge_writes(rows: Seq<Vec<String>>, ms: Seq<MergeRange>) -> Seq<(MergeRange, Seq<char>)> {
    Seq::new(ms.len(), |k: int| (ms[k], anchor_text(rows, ms[k])))
}

pub open spec fn cells_view(v: Seq<(u32, u16, String)>) -> Seq<(u32, u16, Seq<char>)> {
    v.map_values(|c: (u32, u16, String)| (c.0, c.1, c.2@))
}

pub open spec fn merges_view(v: Seq<(MergeRange, String)>) -> Seq<(MergeRange, Seq<char>)> {
    v.map_values(|m: (MergeRange, String)| (m.0, m.1@))
}

/// The plan of a worksheet for a table: every cell, every merge region with
/// its top-left text, and the freeze pane to set. Fails exactly when a row
/// is wider than a worksheet.
pub fn plan_sheet(table: &TableData, freeze_pane: Option<(u32, u16)>) -> (r: Result<SheetPlan, ExportError>)
    requires
        table.rows@.len() <= u32::MAX,
        table.header_row_count <= u32::MAX,
    ensures
        match r {
            Ok(p) => {
                &&& rows_within_columns(table.rows@)
                &&& cells_view(p.cells@) == cell_writes(table.rows@)
                &&& merges_view(p.merges@) == merge_writes(table.rows@, table.merge_ranges@)
                &&& p.freeze == applied_freeze(freeze_pane, table.header_row_count as int)
                &&& p.rows == table.rows@.len()
            },
            Err(e) => e == ExportError::Extract(ExtractError::ColumnLimit) && !rows_within_columns(
                table.rows@,
            ),
        },
{
    if !check_columns(&table.rows) {
        return Err(ExportError::Extract(ExtractError::ColumnLimit));
    }
    let ghost rows = table.rows@;
    let mut cells: Vec<(u32, u16, String)> = Vec::new();
    let mut i: usize = 0;
    proof {
        assert(rows.take(0) =~= Seq::<Vec<String>>::empty());
        assert(cells_view(cells@) =~= Seq::<(u32, u16, Seq<char>)>::empty());
    }
    while i < table.rows.len()
        invariant
            0 <= i <= table.rows.len(),
            rows == table.rows@,
            rows.len() <= u32::MAX,
            rows_within_columns(rows),
            cells_view(cells@) == cell_writes(rows.take(i as int)),
        decreases table.rows.len() - i,
    {
        let row = &table.rows[i];
        let ghost base = cells_view(cells@);
        let mut j: usize = 0;
        proof {
            assert(base + row_cells(i as int, row@.take(0)) =~= base);
        }
        while j < row.len()
            invariant
                0 <= j <= row.len(),
                i < rows.len(),
                rows.len() <= u32::MAX,
                row@.len() <= XLSX_MAX_COLUMNS,
                cells_view(cells@) == base + row_cells(i as int, row@.take(j as int)),
            decreases row.len() - j,
        {
            let ghost before = cells_view(cells@);
            cells.push((i as u32, j as u16, row[j].clone()));
            proof {
                assert(cells_view(cells@) =~= before.push((i as u32, j as u16, row@[j as int]@)));
                assert(row_cells(i as int, row@.take(j + 1)) =~= row_cells(i as int, row@.take(j as int)).push(
                    (i as u32, j as u16, row@[j as int]@),
                ));
                assert(cells_view(cells@) =~= base + row_cells(i as int, row@.take(j + 1)));
            }
            j = j + 1;
        }
        proof {
            assert(row@.take(j as int) =~= row@);
            assert(rows.take(i + 1).drop_last() =~= rows.take(i as int));
            assert(rows.take(i + 1).last() == rows[i as int]);
        }
        i = i + 1;
    }
    proof {
        assert(rows.take(i as int) =~= rows);
    }
    let mut merges: Vec<(MergeRange, String)> = Vec::new();
    let mut k: usize = 0;
    while k < table.merge_ranges.len()
        invariant
            0 <= k <= table.merge_ranges.len(),
            merges_view(merges@) == merge_writes(table.rows@, table.merge_ranges@.take(k as int)),
        decreases table.merge_ranges.len() - k,
    {
        let m = table.merge_ranges[k];
        let text = merge_anchor_text(&table.rows, &m);
        let ghost before = merges_view(merges@);
        merges.push((m, text));
        proof {
            assert(m == table.merge_ranges@[k as int]);
            assert(merges_view(merges@) =~= before.push((m, anchor_text(table.rows@, m))));
            assert(merges_view(merges@) =~= merge_writes(table.rows@, table.merge_ranges@.take(k + 1)));
        }
        k = k + 1;
    }
    proof {
        assert(table.merge_ranges@.take(k as int) =~= table.merge_ranges@);
    }
    let freeze = applied_freeze_pane(freeze_pane, table.header_row_count);
    Ok(SheetPlan { cells, merges, freeze, rows: table.rows.len() as u32 })
}

/// The string cells after writing `writes` in order onto `m`: an empty text
/// is skipped, any other is stored at its cell.
pub open spec fn apply_cells(m: Map<(u32, u16), Seq<char>>, writes: Seq<(u32, u16, Seq<char>)>) -> Map<
    (u32, u16),
    Seq<char>,
>
    decreases writes.len(),
{
    if writes.len() == 0 {
        m
    } else {
        let prev = apply_cells(m, writes.drop_last());
        let w = writes.last();
        if w.2.len() > 0 {
            prev.insert((w.0, w.1), w.2)
        } else {
            prev
        }
    }
}

/// The string cells after merging each region in order: the region's cells
/// are blanked, and its top-left cell holds its text unless that is empty.
pub open spec fn apply_merges(m: Map<(u32, u16), Seq<char>>, merges: Seq<(MergeRange, Seq<char>)>) -> Map<
    (u32, u16),
    Seq<char>,
>
    decreases merges.len(),
{
    if merges.len() == 0 {
        m
    } else {
        let prev = apply_merges(m, merges.drop_last());
        let g = merges.last();
        let cleared = prev.remove_keys(Set::new(|k: (u32, u16)| in_region(k, g.0)));
        if g.1.len() > 0 {
            cleared.insert((g.0.first_row, g.0.first_col), g.1)
        } else {
            cleared
        }
    }
}

/// What a fresh worksheet holds once a plan is written: the string cells,
/// the merged ranges and the frozen cell.
pub open spec fn sheet_holds(
    ws: Worksheet,
    cells: Seq<(u32, u16, Seq<char>)>,
    merges: Seq<(MergeRange, Seq<char>)>,
    freeze: Option<(u32, u16)>,
) -> bool {
    &&& sheet_texts(ws) == apply_merges(apply_cells(Map::empty(), cells), merges)
    &&& sheet_merges(ws) == merges.map_values(|g: (MergeRange, Seq<char>)| range_tuple(g.0))
    &&& sheet_freeze_cell(ws) == match freeze {
        Some(f) => f,
        None => (0u32, 0u16),
    }
}

/// Hands a plan to a worksheet, in order: the cells, the merge regions,
/// the freeze pane. Progress is reported as each row's last cell is
/// written (every tenth row and the last), from the start to the end of
/// this sheet's share of the first 80 percent. On success a fresh worksheet
/// holds exactly the plan.
fn write_sheet<P: ProgressSink>(
    ws: &mut Worksheet,
    plan: &SheetPlan,
    sink: &mut P,
    strict: bool,
    sheet_idx: u64,
    sheet_count: u64,
) -> (r: Result<(), ExportError>)
    requires
        sheet_idx < sheet_count <= u32::MAX,
        sheet_texts(*old(ws)).is_empty(),
        sheet_merges(*old(ws)).len() == 0,
        sheet_freeze_cell(*old(ws)) == (0u32, 0u16),
    ensures
        r matches Err(e) ==> (e is Xlsx || (e is Progress && strict)),
        r is Ok ==> sheet_holds(*final(ws), cells_view(plan.cells@), merges_view(plan.merges@), plan.freeze),
        r is Ok ==> sheet_name(*final(ws)) == sheet_name(*old(ws)),
{
    let ghost cv = cells_view(plan.cells@);
    let ghost mv = merges_view(plan.merges@);
    let ghost name0 = sheet_name(*ws);
    let total = plan.rows;
    let count = plan.cells.len();
    let mut k: usize = 0;
    proof {
        assert(apply_cells(Map::empty(), cv.take(0)) =~= sheet_texts(*ws)) by {
            assert(cv.take(0) =~= Seq::<(u32, u16, Seq<char>)>::empty());
        }
    }
    while k < count
        invariant
            0 <= k <= count,
            count == plan.cells@.len(),
            cv == cells_view(plan.cells@),
            sheet_idx < sheet_count <= u32::MAX,
            sheet_texts(*ws) == apply_cells(Map::empty(), cv.take(k as int)),
            sheet_merges(*ws).len() == 0,
            sheet_freeze_cell(*ws) == (0u32, 0u16),
            sheet_name(*ws) == name0,
        decreases count - k,
    {
        let (row, col, text) = (plan.cells[k].0, plan.cells[k].1, &plan.cells[k].2);
        match sheet_write(ws, row, col, text.as_str()) {
            Ok(()) => {},
            Err(e) => {
                return Err(xlsx_failure(e));
            },
        }
        proof {
            assert(cv.take(k + 1).drop_last() =~= cv.take(k as int));
            assert(cv.take(k + 1).last() == cv[k as int]);
            assert(cv[k as int] == (row, col, text@));
        }
        let row_done = k + 1 == count || plan.cells[k + 1].0 != row;
        if row_done && total > 0 && (row % 10 == 0 || row == total - 1) {
            assert((sheet_idx as int) * (total as int) <= 0xFFFF_FFFF * 0xFFFF_FFFF) by (nonlinear_arith)
                requires
                    sheet_idx <= 0xFFFF_FFFF,
                    total <= 0xFFFF_FFFF,
            ;
            assert((sheet_count as int) * (total as int) <= 0xFFFF_FFFF * 0xFFFF_FFFF) by (nonlinear_arith)
                requires
                    sheet_count <= 0xFFFF_FFFF,
                    total <= 0xFFFF_FFFF,
            ;
            let done: u128 = (sheet_idx as u128) * (total as u128) + (row as u128) + 1;
            match report_progress(sink, 80 * done, (sheet_count as u128) * (total as u128), strict) {
                Ok(()) => {},
                Err(e) => {
                    return Err(e);
                },
            }
        }
        k = k + 1;
    }
    proof {
        assert(cv.take(k as int) =~= cv);
        assert(apply_merges(sheet_texts(*ws), mv.take(0)) == sheet_texts(*ws)) by {
            assert(mv.take(0) =~= Seq::<(MergeRange, Seq<char>)>::empty());
        }
    }
    let ghost cells_done = sheet_texts(*ws);
    let format = default_format();
    let mut m: usize = 0;
    while m < plan.merges.len()
        invariant
            0 <= m <= plan.merges.len(),
            mv == merges_view(plan.merges@),
            sheet_texts(*ws) == apply_merges(cells_done, mv.take(m as int)),
            sheet_merges(*ws) == mv.take(m as int).map_values(|g: (MergeRange, Seq<char>)| range_tuple(g.0)),
            sheet_freeze_cell(*ws) == (0u32, 0u16),
            sheet_name(*ws) == name0,
        decreases plan.merges.len() - m,
    {
        let ghost before = sheet_merges(*ws);
        match sheet_merge(ws, &plan.merges[m].0, plan.merges[m].1.as_str(), &format) {
            Ok(()) => {},
            Err(e) => {
                return Err(xlsx_failure(e));
            },
        }
        proof {
            assert(mv.take(m + 1).drop_last() =~= mv.take(m as int));
            assert(mv.take(m + 1).last() == mv[m as int]);
            assert(mv[m as int] == (plan.merges@[m as int].0, plan.merges@[m as int].1@));
            assert(sheet_merges(*ws) =~= mv.take(m + 1).map_values(|g: (MergeRange, Seq<char>)| range_tuple(g.0)));
        }
        m = m + 1;
    }
    proof {
        assert(mv.take(m as int) =~= mv);
    }
    match plan.freeze {
        Some((row, col)) => match sheet_freeze(ws, row, col) {
            Ok(()) => {},
            Err(e) => {
                return Err(xlsx_failure(e));
            },
        },
        None => {},
    }
    Ok(())
}

/// A workbook holding one worksheet for a table: the worksheet holds exactly
/// `plan_sheet(table_data, freeze_pane)`. A row wider than a worksheet fails
/// before anything is written; otherwise the encoder decides, and in strict
/// mode so does the progress sink.
pub fn xlsx_workbook<P: ProgressSink>(
    table_data: &TableData,
    sink: &mut P,
    strict: bool,
    freeze_pane: Option<(u32, u16)>,
) -> (r: Result<Workbook, ExportError>)
    requires
        table_data.rows@.len() <= u32::MAX,
        table_data.header_row_count <= u32::MAX,
    ensures
        !rows_within_columns(table_data.rows@) ==> r is Err,
        !rows_within_columns(table_data.rows@) && !strict ==> r matches Err(
            ExportError::Extract(ExtractError::ColumnLimit),
        ),
        r matches Err(ExportError::Extract(e)) ==> e == ExtractError::ColumnLimit && !rows_within_columns(
            table_data.rows@,
        ),
        r matches Err(ExportError::Progress(_)) ==> strict,
        r matches Ok(wb) ==> rows_within_columns(table_data.rows@) && book_sheets(wb).len() == 1
            && sheet_holds(
            book_sheets(wb)[0],
            cell_writes(table_data.rows@),
            merge_writes(table_data.rows@, table_data.merge_ranges@),
            applied_freeze(freeze_pane, table_data.header_row_count as int),
        ),
{
    report_progress(sink, 0, 1, strict)?;
    let plan = plan_sheet(table_data, freeze_pane)?;
    let mut ws = new_worksheet();
    proof {
        assert(sheet_texts(ws) =~= Map::<(u32, u16), Seq<char>>::empty());
    }
    write_sheet(&mut ws, &plan, sink, strict, 0, 1)?;
    let mut wb = new_workbook();
    workbook_push(&mut wb, ws);
    proof {
        assert(book_sheets(wb)[0] == book_sheets(wb).last());
    }
    Ok(wb)
}

/// Generates a one-sheet XLSX file from a table: the workbook it encodes is
/// `xlsx_workbook`'s, whose worksheet holds exactly `plan_sheet(table_data,
/// freeze_pane)`.
pub fn generate_xlsx_bytes<P: ProgressSink>(
    table_data: &TableData,
    sink: &mut P,
    strict: bool,
    freeze_pane: Option<(u32, u16)>,
) -> (r: Result<Vec<u8>, ExportError>)
    requires
        table_data.rows@.len() <= u32::MAX,
        table_data.header_row_count <= u32::MAX,
    ensures
        !rows_within_columns(table_data.rows@) ==> r is Err,
        !rows_within_columns(table_data.rows@) && !strict ==> r == Err::<Vec<u8>, ExportError>(
            ExportError::Extract(ExtractError::ColumnLimit),
        ),
        r matches Err(ExportError::Extract(e)) ==> e == ExtractError::ColumnLimit && !rows_within_columns(
            table_data.rows@,
        ),
        r matches Err(ExportError::Progress(_)) ==> strict,
        r matches Ok(b) ==> rows_within_columns(table_data.rows@) && b@.len() > 0,
{
    let mut wb = xlsx_workbook(table_data, sink, strict, freeze_pane)?;
    report_progress(sink, 90, 1, strict)?;
    let bytes = match workbook_bytes(&mut wb) {
        Ok(b) => b,
        Err(e) => {
            return Err(xlsx_failure(e));
        },
    };
    if bytes.len() == 0 {
        return Err(ExportError::NoData);
    }
    Ok(bytes)
}

/// Some sheet's table has a row wider than a worksheet.
pub open spec fn some_sheet_too_wide(sheets: Seq<(String, TableData)>) -> bool {
    exists|i: int| 0 <= i < sheets.len() && !rows_within_columns(#[trigger] sheets[i].1.rows@)
}

/// A workbook with one worksheet per (name, table), in order: sheet `i` is
/// named `sheets_data[i].0` and holds exactly `plan_sheet(sheets_data[i].1,
/// freeze_pane)`. All plans are made before anything is written, so a table
/// too wide for a worksheet fails first.
pub fn xlsx_multi_workbook<P: ProgressSink>(
    sheets_data: &Vec<(String, TableData)>,
    sink: &mut P,
    strict: bool,
    freeze_pane: Option<(u32, u16)>,
) -> (r: Result<Workbook, ExportError>)
    requires
        sheets_data@.len() <= u32::MAX,
        forall|i: int|
            0 <= i < sheets_data@.len() ==> (#[trigger] sheets_data@[i]).1.rows@.len() <= u32::MAX
                && sheets_data@[i].1.header_row_count <= u32::MAX,
    ensures
        sheets_data@.len() == 0 ==> r matches Err(ExportError::NoData),
        some_sheet_too_wide(sheets_data@) ==> r is Err,
        some_sheet_too_wide(sheets_data@) && !strict ==> r matches Err(
            ExportError::Extract(ExtractError::ColumnLimit),
        ),
        r matches Err(ExportError::Extract(e)) ==> e == ExtractError::ColumnLimit && some_sheet_too_wide(
            sheets_data@,
        ),
        r matches Err(ExportError::Progress(_)) ==> strict,
        r matches Ok(wb) ==> !some_sheet_too_wide(sheets_data@) && book_sheets(wb).len()
            == sheets_data@.len() && forall|i: int|
            0 <= i < sheets_data@.len() ==> {
                let t = #[trigger] sheets_data@[i].1;
                &&& sheet_name(book_sheets(wb)[i]) == sheets_data@[i].0@
                &&& sheet_holds(
                    book_sheets(wb)[i],
                    cell_writes(t.rows@),
                    merge_writes(t.rows@, t.merge_ranges@),
                    applied_freeze(freeze_pane, t.header_row_count as int),
                )
            },
{
    if sheets_data.len() == 0 {
        return Err(ExportError::NoData);
    }
    report_progress(sink, 0, 1, strict)?;
    let count = sheets_data.len();
    let mut plans: Vec<SheetPlan> = Vec::new();
    let mut s: usize = 0;
    while s < count
        invariant
            0 <= s <= count,
            count == sheets_data@.len(),
            plans@.len() == s,
            forall|i: int|
                0 <= i < sheets_data@.len() ==> (#[trigger] sheets_data@[i]).1.rows@.len() <= u32::MAX
                    && sheets_data@[i].1.header_row_count <= u32::MAX,
            forall|i: int| 0 <= i < s ==> rows_within_columns(#[trigger] sheets_data@[i].1.rows@),
            forall|i: int|
                0 <= i < s ==> {
                    let t = #[trigger] sheets_data@[i].1;
                    &&& cells_view(plans@[i].cells@) == cell_writes(t.rows@)
                    &&& merges_view(plans@[i].merges@) == merge_writes(t.rows@, t.merge_ranges@)
                    &&& plans@[i].freeze == applied_freeze(freeze_pane, t.header_row_count as int)
                },
        decreases count - s,
    {
        let plan = plan_sheet(&sheets_data[s].1, freeze_pane)?;
        plans.push(plan);
        s = s + 1;
    }
    let mut wb = new_workbook();
    let mut t: usize = 0;
    while t < count
        invariant
            0 <= t <= count,
            count == sheets_data@.len(),
            count == plans@.len(),
            count <= u32::MAX,
            !some_sheet_too_wide(sheets_data@),
            book_sheets(wb).len() == t,
            forall|i: int|
                0 <= i < count ==> {
                    let tb = #[trigger] sheets_data@[i].1;
                    &&& cells_view(plans@[i].cells@) == cell_writes(tb.rows@)
                    &&& merges_view(plans@[i].merges@) == merge_writes(tb.rows@, tb.merge_ranges@)
                    &&& plans@[i].freeze == applied_freeze(freeze_pane, tb.header_row_count as int)
                },
            forall|i: int|
                0 <= i < t ==> {
                    let tb = #[trigger] sheets_data@[i].1;
                    &&& sheet_name(book_sheets(wb)[i]) == sheets_data@[i].0@
                    &&& sheet_holds(
                        book_sheets(wb)[i],
                        cell_writes(tb.rows@),
                        merge_writes(tb.rows@, tb.merge_ranges@),
                        applied_freeze(freeze_pane, tb.header_row_count as int),
                    )
                },
        decreases count - t,
    {
        let mut ws = new_worksheet();
        proof {
            assert(sheet_texts(ws) =~= Map::<(u32, u16), Seq<char>>::empty());
        }
        let name = sheets_data[t].0.as_str();
        match sheet_set_name(&mut ws, name) {
            Ok(()) => {},
            Err(e) => {
                return Err(xlsx_failure(e));
            },
        }
        write_sheet(&mut ws, &plans[t], sink, strict, t as u64, count as u64)?;
        let ghost before = book_sheets(wb);
        workbook_push(&mut wb, ws);
        proof {
            let tb = sheets_data@[t as int].1;
            assert(sheets_data@[t as int] == sheets_data@[t as int]);
            assert forall|i: int| 0 <= i < t + 1 implies {
                let tb = #[trigger] sheets_data@[i].1;
                &&& sheet_name(book_sheets(wb)[i]) == sheets_data@[i].0@
                &&& sheet_holds(
                    book_sheets(wb)[i],
                    cell_writes(tb.rows@),
                    merge_writes(tb.rows@, tb.merge_ranges@),
                    applied_freeze(freeze_pane, tb.header_row_count as int),
                )
            } by {
                if i < t {
                    assert(book_sheets(wb)[i] == before[i]);
                } else {
                    assert(book_sheets(wb)[i] == book_sheets(wb).last());
                }
            }
        }
        t = t + 1;
    }
    Ok(wb)
}

/// Generates an XLSX file with one worksheet per (name, table), in order:
/// the workbook it encodes is `xlsx_multi_workbook`'s.
pub fn generate_xlsx_multi_bytes<P: ProgressSink>(
    sheets_data: &Vec<(String, TableData)>,
    sink: &mut P,
    strict: bool,
    freeze_pane: Option<(u32, u16)>,
) -> (r: Result<Vec<u8>, ExportError>)
    requires
        sheets_data@.len() <= u32::MAX,
        forall|i: int|
            0 <= i < sheets_data@.len() ==> (#[trigger] sheets_data@[i]).1.rows@.len() <= u32::MAX
                && sheets_data@[i].1.header_row_count <= u32::MAX,
    ensures
        sheets_data@.len() == 0 ==> r == Err::<Vec<u8>, ExportError>(ExportError::NoData),
        some_sheet_too_wide(sheets_data@) ==> r is Err,
        some_sheet_too_wide(sheets_data@) && !strict ==> r == Err::<Vec<u8>, ExportError>(
            ExportError::Extract(ExtractError::ColumnLimit),
        ),
        r matches Err(ExportError::Extract(e)) ==> e == ExtractError::ColumnLimit && some_sheet_too_wide(
            sheets_data@,
        ),
        r matches Err(ExportError::Progress(_)) ==> strict,
        r matches Ok(b) ==> !some_sheet_too_wide(sheets_data@) && b@.len() > 0,
{
    let mut wb = xlsx_multi_workbook(sheets_data, sink, strict, freeze_pane)?;
    report_progress(sink, 90, 1, strict)?;
    let bytes = match workbook_bytes(&mut wb) {
        Ok(b) => b,
        Err(e) => {
            return Err(xlsx_failure(e));
        },
    };
    if bytes.len() == 0 {
        return Err(ExportError::NoData);
    }
    Ok(bytes)
}

} // verus!
