//! From a table or records to the bytes of a file, by format.
use vstd::prelude::*;

use crate::export::{
    csv_file, generate_csv_bytes, uniform_width, ExportError, ExportFormat, ProgressSink,
};
use crate::grid::{
    extract_table_data, extract_table_data_with_merge, walk, ExtractError, SourceTable,
    XLSX_MAX_COLUMNS,
};
use crate::header::ColumnSpec;
use crate::header::{
    forest_depth, forest_error, forest_keys, forest_leaves, forest_matches, header_fits,
    layout_merges, ColumnError, ColumnNode,
};
use crate::records::{
    build_table_data_from_array, build_table_data_from_tree, flatten, header_view, is_array_table,
    merges_fit, DataError, Record,
};
use crate::table::TableData;
use crate::text::grid_view;
use crate::tracker::MAX_TRACKED_COLUMN;
use crate::xlsx::{generate_xlsx_bytes, rows_within_columns};

verus! {

/// A table identifier must not be empty.
pub fn check_table_id(table_id: &str) -> (r: Result<(), ExportError>)
    ensures
        r is Ok <==> table_id@.len() > 0,
        r matches Err(e) ==> e == ExportError::EmptyTableId,
{
    if table_id.is_empty() {
        Err(ExportError::EmptyTableId)
    } else {
        Ok(())
    }
}

/// A batch size must be at least 1.
pub fn check_batch_size(batch_size: usize) -> (r: Result<(), ExportError>)
    ensures
        r is Ok <==> batch_size >= 1,
        r matches Err(e) ==> e == ExportError::ZeroBatchSize,
{
    if batch_size == 0 {
        Err(ExportError::ZeroBatchSize)
    } else {
        Ok(())
    }
}

/// What a data export starts from.
pub enum DataSource {
    /// Rows of cell texts, without header or spans.
    Rows(Vec<Vec<String>>),
    /// Object-array records under a column definition.
    Records { columns: Vec<ColumnSpec>, records: Vec<Record> },
    /// A record tree under a column definition, with an optional indent column.
    Tree { columns: Vec<ColumnSpec>, records: Vec<Record>, indent_column: Option<String> },
}

fn data_error(e: DataError) -> (r: ExportError)
    ensures
        e matches DataError::Columns(c) ==> r == ExportError::Columns(c),
        e matches DataError::Rows(x) ==> r == ExportError::Extract(x),
{
    match e {
        DataError::Columns(c) => ExportError::Columns(c),
        DataError::Rows(x) => ExportError::Extract(x),
    }
}

/// The column definition is rejected as `e`: its first problem, or a header
/// too large.
pub open spec fn columns_rejected(columns: Seq<ColumnSpec>, e: ColumnError) -> bool {
    forest_error(columns, 0) == Some(e) || (e == ColumnError::TooLarge && forest_error(columns, 0)
        is None && exists|nodes: Seq<ColumnNode>|
        forest_matches(columns, nodes) && !header_fits(
        forest_leaves(nodes) as int,
        forest_depth(nodes) as int,
    ))
}

/// Builds the table of a data source: plain rows as they are (an empty list
/// is an error), records and trees under their multi-row header.
pub fn build_table(source: DataSource) -> (r: Result<TableData, ExportError>)
    requires
        source matches DataSource::Records { records, .. } ==> records@.len() + crate::header::MAX_DEPTH
            <= u32::MAX,
    ensures
        source matches DataSource::Rows(rows) ==> (rows@.len() == 0 <==> r is Err) && (r matches Ok(
            t,
        ) ==> grid_view(t.rows@) == grid_view(rows@) && t.merge_ranges@.len() == 0
            && t.header_row_count == 0),
        source matches DataSource::Records { columns, records } ==> (r matches Ok(t) ==> exists|
            nodes: Seq<ColumnNode>,
        | forest_matches(columns@, nodes) && is_array_table(nodes, records@, t)) && (
        forest_error(columns@, 0) matches Some(e) ==> r == Err::<TableData, ExportError>(
            ExportError::Columns(e),
        )) && (r matches Err(e) ==> (e matches ExportError::Columns(c) && columns_rejected(
            columns@,
            c,
        )) || (e == ExportError::Extract(ExtractError::ColumnLimit) && forest_error(columns@, 0) is None
            && exists|nodes: Seq<ColumnNode>|
            forest_matches(columns@, nodes) && !merges_fit(
                records@,
                forest_keys(nodes),
                forest_depth(nodes) as int,
                (forest_depth(nodes) + records@.len()) as int,
            ))),
        source matches DataSource::Tree { columns, records, indent_column } ==> (r matches Ok(t)
            ==> exists|nodes: Seq<ColumnNode>|
            #![auto]
            forest_matches(columns@, nodes) && t.header_row_count == forest_depth(nodes)
                && t.merge_ranges@ == layout_merges(nodes, 0, 0, forest_depth(nodes) as int)
                && grid_view(t.rows@) == header_view(nodes) + flatten(
                records@,
                forest_keys(nodes),
                match indent_column {
                    Some(k) => Some(k@),
                    None => None,
                },
                0,
            )->0) && (forest_error(columns@, 0) matches Some(e) ==> r == Err::<TableData, ExportError>(
            ExportError::Columns(e),
        )) && (r matches Err(e) ==> (e matches ExportError::Columns(c) && columns_rejected(
            columns@,
            c,
        )) || (e == ExportError::Extract(ExtractError::TooDeep) && forest_error(columns@, 0) is None
            && exists|nodes: Seq<ColumnNode>|
            #![auto]
            forest_matches(columns@, nodes) && flatten(
                records@,
                forest_keys(nodes),
                match indent_column {
                    Some(k) => Some(k@),
                    None => None,
                },
                0,
            ) is None)),
{
    match source {
        DataSource::Rows(rows) => {
            if rows.len() == 0 {
                return Err(ExportError::NoData);
            }
            Ok(TableData { rows, merge_ranges: Vec::new(), header_row_count: 0 })
        },
        DataSource::Records { columns, records } => match build_table_data_from_array(
            &columns,
            &records,
        ) {
            Ok(t) => Ok(t),
            Err(e) => Err(data_error(e)),
        },
        DataSource::Tree { columns, records, indent_column } => {
            let indent = match &indent_column {
                Some(s) => Some(s.as_str()),
                None => None,
            };
            match build_table_data_from_tree(&columns, &records, indent) {
                Ok(t) => Ok(t),
                Err(e) => Err(data_error(e)),
            }
        },
    }
}

/// Encodes a table in the chosen format: CSV takes the rows alone (with a
/// byte order mark if asked for); for XLSX the worksheet receives exactly
/// `plan_sheet(table, freeze_pane)`.
pub fn generate_bytes<P: ProgressSink>(
    table: &TableData,
    format: ExportFormat,
    with_bom: bool,
    freeze_pane: Option<(u32, u16)>,
    sink: &mut P,
    strict: bool,
) -> (r: Result<Vec<u8>, ExportError>)
    requires
        table.rows@.len() <= u32::MAX,
        table.header_row_count <= u32::MAX,
    ensures
        format == ExportFormat::Csv ==> ({
            let all = grid_view(table.rows@);
            &&& r matches Ok(b) ==> uniform_width(all) && b@ == csv_file(all, with_bom)
            &&& r matches Err(ExportError::Progress(_)) ==> strict
            &&& !strict && table.rows@.len() > 0 && uniform_width(all) ==> r is Ok
            &&& table.rows@.len() == 0 ==> r is Err
        }),
        format == ExportFormat::Xlsx ==> ({
            &&& r matches Err(ExportError::Progress(_)) ==> strict
            &&& !rows_within_columns(table.rows@) && !strict ==> r == Err::<Vec<u8>, ExportError>(
                ExportError::Extract(ExtractError::ColumnLimit),
            )
            &&& r matches Err(ExportError::Extract(e)) ==> e == ExtractError::ColumnLimit
                && !rows_within_columns(table.rows@)
            &&& r matches Ok(b) ==> rows_within_columns(table.rows@) && b@.len() > 0
        }),
{
    match format {
        ExportFormat::Csv => generate_csv_bytes(&table.rows, sink, strict, with_bom),
        ExportFormat::Xlsx => generate_xlsx_bytes(table, sink, strict, freeze_pane),
    }
}

/// Extracts a page table for the chosen format and encodes it: CSV from the
/// plain matrix; for XLSX the worksheet receives exactly the plan
/// (`plan_sheet`) of `extract_table_data_with_merge`'s table, with the freeze
/// pane below its header rows.
pub fn generate_table_bytes<P: ProgressSink>(
    table: &SourceTable,
    format: ExportFormat,
    exclude_hidden: bool,
    with_bom: bool,
    sink: &mut P,
    strict: bool,
) -> (r: Result<Vec<u8>, ExportError>)
    requires
        table.rows@.len() <= u32::MAX,
        table.header_row_count <= u32::MAX,
    ensures
        table.rows@.len() == 0 ==> r == Err::<Vec<u8>, ExportError>(
            ExportError::Extract(ExtractError::EmptyTable),
        ),
        format == ExportFormat::Csv && table.rows@.len() > 0 ==> ({
            let w = walk(table.rows@, exclude_hidden, MAX_TRACKED_COLUMN as int, table.rows@.len() as int);
            &&& w.overflow ==> r == Err::<Vec<u8>, ExportError>(ExportError::Extract(ExtractError::ColumnLimit))
            &&& r matches Ok(b) ==> !w.overflow && uniform_width(w.rows) && b@ == csv_file(w.rows, with_bom)
            &&& !strict && !w.overflow && w.rows.len() > 0 && uniform_width(w.rows) ==> r is Ok
        }),
        format == ExportFormat::Xlsx && table.rows@.len() > 0 ==> ({
            let w = walk(table.rows@, exclude_hidden, XLSX_MAX_COLUMNS as int, table.rows@.len() as int);
            &&& w.overflow ==> r == Err::<Vec<u8>, ExportError>(ExportError::Extract(ExtractError::ColumnLimit))
            &&& r matches Ok(b) ==> !w.overflow && b@.len() > 0
        }),
        r matches Err(ExportError::Progress(_)) ==> strict,
{
    match format {
        ExportFormat::Csv => {
            let rows = match extract_table_data(table, exclude_hidden) {
                Ok(rows) => rows,
                Err(e) => {
                    return Err(ExportError::Extract(e));
                },
            };
            generate_csv_bytes(&rows, sink, strict, with_bom)
        },
        ExportFormat::Xlsx => {
            let data = match extract_table_data_with_merge(table, exclude_hidden) {
                Ok(d) => d,
                Err(e) => {
                    return Err(ExportError::Extract(e));
                },
            };
            proof {
                crate::grid::lemma_walk_rows_len(table.rows@, exclude_hidden, XLSX_MAX_COLUMNS as int, table.rows@.len() as int);
            }
            generate_xlsx_bytes(&data, sink, strict, None)
        },
    }
}

} // verus!
