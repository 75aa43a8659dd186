use belobog_stellar_grid::grid::{compute_merge_ranges, count_visible_rows, get_cell_span};
use belobog_stellar_grid::pipeline::{build_table, check_batch_size, check_table_id, generate_table_bytes, DataSource};
use belobog_stellar_grid::xlsx::{xlsx_multi_workbook, xlsx_workbook};
use belobog_stellar_grid::xlsx::{applied_freeze_pane, generate_xlsx_bytes, generate_xlsx_multi_bytes, merge_anchor_text};
use belobog_stellar_grid::{
    extract_table_data, extract_table_data_with_merge, process_row_cells, CellSpan, ExportError,
    ExportFormat, ExtractError, MergeRange, ProgressSink, RowSpanTracker, SourceCell, SourceRow,
    SourceTable, TableData, UrlGuard,
};

struct NoProgress;

impl ProgressSink for NoProgress {
    fn report(&mut self, _num: u128, _den: u128) -> Result<(), String> {
        Ok(())
    }
}

fn cell(text: &str, colspan: u32, rowspan: u32) -> SourceCell {
    SourceCell { text: text.to_string(), colspan, rowspan, hidden: false }
}

fn row(cells: Vec<SourceCell>) -> SourceRow {
    SourceRow { cells, hidden: false }
}

fn table(rows: Vec<SourceRow>) -> SourceTable {
    SourceTable { rows, header_row_count: 0 }
}

#[test]
fn plain_table_is_its_texts() {
    let t = table(vec![row(vec![cell("A", 1, 1), cell("B", 1, 1)]), row(vec![cell("C", 1, 1), cell("D", 1, 1)])]);
    let data = extract_table_data_with_merge(&t, false).unwrap();
    assert_eq!(data.rows, vec![vec!["A", "B"], vec!["C", "D"]]);
    assert!(data.merge_ranges.is_empty());
    let bytes = generate_table_bytes(&t, ExportFormat::Csv, false, false, &mut NoProgress, false).unwrap();
    assert_eq!(String::from_utf8(bytes).unwrap(), "A,B\nC,D\n");
}

#[test]
fn rowspan_copies_text_down() {
    let t = table(vec![row(vec![cell("X", 1, 2), cell("Y", 1, 1)]), row(vec![cell("Z", 1, 1)])]);
    let data = extract_table_data_with_merge(&t, false).unwrap();
    assert_eq!(data.rows, vec![vec!["X", "Y"], vec!["X", "Z"]]);
    assert_eq!(data.merge_ranges, vec![MergeRange::new(0, 0, 1, 0)]);
}

#[test]
fn colspan_and_rowspan_block() {
    let t = table(vec![
        row(vec![cell("B", 2, 2), cell("C", 1, 1)]),
        row(vec![cell("D", 1, 1)]),
        row(vec![cell("E", 1, 1), cell("F", 1, 1), cell("G", 1, 1)]),
    ]);
    let data = extract_table_data_with_merge(&t, false).unwrap();
    assert_eq!(data.rows, vec![vec!["B", "", "C"], vec!["B", "", "D"], vec!["E", "F", "G"]]);
    assert_eq!(data.merge_ranges, vec![MergeRange::new(0, 0, 1, 1)]);
}

#[test]
fn interleaved_rowspan_between_fresh_cells() {
    let t = table(vec![
        row(vec![cell("a", 1, 1), cell("b", 1, 2), cell("c", 1, 1)]),
        row(vec![cell("d", 1, 1), cell("e", 1, 1)]),
    ]);
    let rows = extract_table_data(&t, false).unwrap();
    assert_eq!(rows, vec![vec!["a", "b", "c"], vec!["d", "b", "e"]]);
}

#[test]
fn hidden_row_shrinks_rowspan_and_shifts_rows() {
    let mut t = table(vec![
        row(vec![cell("X", 1, 3), cell("1", 1, 1)]),
        row(vec![cell("2", 1, 1)]),
        row(vec![cell("3", 1, 1)]),
        row(vec![cell("4", 1, 1), cell("5", 1, 1)]),
    ]);
    t.rows[1].hidden = true;
    let shown = extract_table_data_with_merge(&t, true).unwrap();
    assert_eq!(shown.rows, vec![vec!["X", "1"], vec!["X", "3"], vec!["4", "5"]]);
    assert_eq!(shown.merge_ranges, vec![MergeRange::new(0, 0, 1, 0)]);
    let all = extract_table_data_with_merge(&t, false).unwrap();
    assert_eq!(all.merge_ranges, vec![MergeRange::new(0, 0, 2, 0)]);
    assert_eq!(count_visible_rows(3, 0, true, &t.rows), 1);
    assert_eq!(count_visible_rows(3, 0, false, &t.rows), 2);
}

#[test]
fn hidden_cell_is_left_out() {
    let mut t = table(vec![row(vec![cell("a", 1, 1), cell("b", 1, 1), cell("c", 1, 1)])]);
    t.rows[0].cells[1].hidden = true;
    assert_eq!(extract_table_data(&t, true).unwrap(), vec![vec!["a", "c"]]);
    assert_eq!(extract_table_data(&t, false).unwrap(), vec![vec!["a", "b", "c"]]);
}

#[test]
fn zero_spans_count_as_one() {
    let span = get_cell_span(&cell("t", 0, 0));
    assert_eq!(span, CellSpan { text: "t".to_string(), colspan: 1, rowspan: 1 });
}

#[test]
fn tracker_fills_following_rows() {
    let mut tracker = RowSpanTracker::new();
    tracker.add(2, 3, &CellSpan { text: "T".to_string(), colspan: 2, rowspan: 3 });
    assert_eq!(tracker.pop(3, 3), Some("T".to_string()));
    assert_eq!(tracker.pop(3, 4), Some(String::new()));
    assert_eq!(tracker.pop(4, 3), Some("T".to_string()));
    assert_eq!(tracker.pop(4, 4), Some(String::new()));
    assert_eq!(tracker.pop(5, 3), None);
    assert_eq!(tracker.pop(3, 3), None);
}

#[test]
fn process_row_reports_spans() {
    let mut tracker = RowSpanTracker::new();
    let r = row(vec![cell("a", 2, 1), cell("b", 1, 2)]);
    let res = process_row_cells(&r, 0, &mut tracker, false).unwrap();
    assert_eq!(res.row_data, vec!["a", "", "b"]);
    assert_eq!(res.cell_spans.len(), 2);
    assert_eq!(res.cell_spans[1].0, 2);
    let rows = vec![r.clone(), row(vec![cell("c", 1, 1), cell("d", 1, 1)])];
    let mut merges = Vec::new();
    compute_merge_ranges(&res.cell_spans, 0, 0, false, &rows, &mut merges);
    assert_eq!(merges, vec![MergeRange::new(0, 0, 0, 1), MergeRange::new(0, 2, 1, 2)]);
}

#[test]
fn empty_table_and_wide_row_are_errors() {
    assert_eq!(extract_table_data(&table(vec![]), false), Err(ExtractError::EmptyTable));
    let wide = table(vec![row(vec![cell("w", 16385, 1)])]);
    assert_eq!(extract_table_data_with_merge(&wide, false), Err(ExtractError::ColumnLimit));
    assert!(extract_table_data(&wide, false).is_ok());
    assert_eq!(
        generate_table_bytes(&wide, ExportFormat::Xlsx, false, false, &mut NoProgress, false),
        Err(ExportError::Extract(ExtractError::ColumnLimit))
    );
}

#[test]
fn xlsx_bytes_are_a_zip_archive() {
    let t = table(vec![row(vec![cell("X", 1, 2), cell("Y", 1, 1)]), row(vec![cell("Z", 1, 1)])]);
    let bytes = generate_table_bytes(&t, ExportFormat::Xlsx, false, false, &mut NoProgress, false).unwrap();
    assert_eq!(&bytes[0..2], b"PK");
    let data = TableData { rows: vec![vec!["a".to_string()]], merge_ranges: vec![], header_row_count: 0 };
    let multi = generate_xlsx_multi_bytes(&vec![("One".to_string(), data.clone()), ("Two".to_string(), data)], &mut NoProgress, false, None).unwrap();
    assert_eq!(&multi[0..2], b"PK");
    assert_eq!(generate_xlsx_multi_bytes(&vec![], &mut NoProgress, false, None), Err(ExportError::NoData));
}

#[test]
fn xlsx_refuses_bad_input() {
    let wide = TableData { rows: vec![vec![String::new(); 16385]], merge_ranges: vec![], header_row_count: 0 };
    assert_eq!(generate_xlsx_bytes(&wide, &mut NoProgress, false, None), Err(ExportError::Extract(ExtractError::ColumnLimit)));
    let single = TableData { rows: vec![vec!["a".to_string()]], merge_ranges: vec![MergeRange::new(0, 0, 0, 0)], header_row_count: 0 };
    assert!(matches!(generate_xlsx_bytes(&single, &mut NoProgress, false, None), Err(ExportError::Xlsx(_))));
}

#[test]
fn merge_text_comes_from_top_left_cell() {
    let rows = vec![vec!["a".to_string(), "b".to_string()], vec!["c".to_string()]];
    assert_eq!(merge_anchor_text(&rows, &MergeRange::new(0, 1, 1, 1)), "b");
    assert_eq!(merge_anchor_text(&rows, &MergeRange::new(1, 1, 1, 2)), "");
    assert_eq!(applied_freeze_pane(Some((0, 0)), 2), None);
    assert_eq!(applied_freeze_pane(None, 2), Some((2, 0)));
}

#[test]
fn data_sources_and_checks() {
    assert_eq!(check_table_id(""), Err(ExportError::EmptyTableId));
    assert_eq!(check_table_id("t"), Ok(()));
    assert_eq!(check_batch_size(0), Err(ExportError::ZeroBatchSize));
    assert!(matches!(build_table(DataSource::Rows(vec![])), Err(ExportError::NoData)));
    let t = build_table(DataSource::Rows(vec![vec!["a".to_string()]])).unwrap();
    assert_eq!(t.header_row_count, 0);
    assert!(t.merge_ranges.is_empty());
}

#[test]
fn url_guard_keeps_its_url() {
    let g = UrlGuard::new("blob:abc");
    assert_eq!(g.url(), "blob:abc");
}

#[test]
fn table_data_constructors() {
    let t = TableData::new();
    assert!(t.rows.is_empty() && t.merge_ranges.is_empty() && t.header_row_count == 0);
    let c = TableData::with_capacity(8);
    assert_eq!(c, TableData::default());
    let r = TableData { rows: vec![vec!["x".to_string()]], merge_ranges: vec![], header_row_count: 0 }.into_rows();
    assert_eq!(r, vec![vec!["x"]]);
}

#[test]
fn workbook_builders_accept_tables() {
    let data = TableData { rows: vec![vec!["a".to_string(), "b".to_string()]], merge_ranges: vec![MergeRange::new(0, 0, 0, 1)], header_row_count: 1 };
    assert!(xlsx_workbook(&data, &mut NoProgress, false, None).is_ok());
    assert!(xlsx_multi_workbook(&vec![("S".to_string(), data)], &mut NoProgress, false, None).is_ok());
    let unnamed = TableData { rows: vec![], merge_ranges: vec![], header_row_count: 0 };
    assert!(matches!(xlsx_multi_workbook(&vec![(String::new(), unnamed)], &mut NoProgress, false, None), Err(ExportError::Xlsx(_))));
}
