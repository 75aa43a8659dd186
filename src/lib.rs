//! Export of HTML-table and structured data to CSV and XLSX, with merged cells.
//!
//! The library holds the logic: the span tracker and the grid walker that turn
//! a table with `colspan` / `rowspan` into a dense matrix, the derivation of merge
//! regions, the multi-row header builder, the tree flattener, chunk planning and
//! the filename rules. Reading the page and triggering downloads is left to the
//! embedding application.

pub mod text;
pub mod chunks;
pub mod export;
pub mod grid;
pub mod header;
pub mod pipeline;
pub mod records;
pub mod resource;
pub mod table;
pub mod tracker;
pub mod validation;
pub mod xlsx;

pub use export::{ExportError, ExportFormat, ProgressSink};
pub use grid::{
    extract_table_data, extract_table_data_with_merge, process_row_cells, ExtractError,
    RowProcessResult, SourceCell, SourceRow, SourceTable,
};
pub use resource::UrlGuard;
pub use table::{MergeRange, TableData};
pub use tracker::{CellSpan, RowSpanTracker};
pub use validation::{ensure_extension, escape_csv_injection, validate_filename, FilenameError};
