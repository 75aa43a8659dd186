//! The result of an extraction: a dense matrix, its merge regions and the
//! number of header rows.
use vstd::prelude::*;

use crate::text::grid_view;

verus! {

/// A rectangle of the output grid that a spreadsheet shows as one cell.
/// Inclusive and 0-based.
#[derive(Debug, Clone, Copy, PartialEq, Eq, Structural)]
pub struct MergeRange {
    pub first_row: u32,
    pub first_col: u16,
    pub last_row: u32,
    pub last_col: u16,
}

impl MergeRange {
    pub fn new(first_row: u32, first_col: u16, last_row: u32, last_col: u16) -> (r: Self)
        ensures
            r == (MergeRange { first_row, first_col, last_row, last_col }),
    {
        MergeRange { first_row, first_col, last_row, last_col }
    }

    /// The rectangle is well formed and covers more than one cell.
    pub open spec fn is_proper(self) -> bool {
        &&& self.first_row <= self.last_row
        &&& self.first_col <= self.last_col
        &&& (self.first_row < self.last_row || self.first_col < self.last_col)
    }
}

/// Every region is well formed and covers more than one cell.
pub open spec fn all_proper(ms: Seq<MergeRange>) -> bool {
    forall|i: int| 0 <= i < ms.len() ==> (#[trigger] ms[i]).is_proper()
}

/// Every region ends within the first `rows` rows and `cols` columns.
pub open spec fn all_within(ms: Seq<MergeRange>, rows: int, cols: int) -> bool {
    forall|i: int|
        0 <= i < ms.len() ==> (#[trigger] ms[i]).last_row < rows && ms[i].last_col < cols
}

/// Rows of cell texts, the merge regions over them, and how many of the
/// rows form the header.
#[derive(Debug, Clone, PartialEq, Eq)]
pub struct TableData {
    pub rows: Vec<Vec<String>>,
    pub merge_ranges: Vec<MergeRange>,
    pub header_row_count: usize,
}

impl TableData {
    pub fn new() -> (r: Self)
        ensures
            r.rows@.len() == 0,
            r.merge_ranges@.len() == 0,
            r.header_row_count == 0,
    {
        TableData { rows: Vec::new(), merge_ranges: Vec::new(), header_row_count: 0 }
    }

    /// An empty table whose row list has room for `capacity` rows.
    pub fn with_capacity(capacity: usize) -> (r: Self)
        ensures
            r.rows@.len() == 0,
            r.merge_ranges@.len() == 0,
            r.header_row_count == 0,
    {
        TableData { rows: Vec::with_capacity(capacity), merge_ranges: Vec::new(), header_row_count: 0 }
    }

    /// The rows alone, for targets that have no merged cells.
    pub fn into_rows(self) -> (r: Vec<Vec<String>>)
        ensures
            grid_view(r@) == grid_view(self.rows@),
    {
        self.rows
    }
}

impl Default for TableData {
    fn default() -> (r: Self)
        ensures
            r.rows@.len() == 0,
            r.merge_ranges@.len() == 0,
            r.header_row_count == 0,
    {
        TableData::new()
    }
}

} // verus!
