//! Rows built from records: object arrays with per-cell span directives,
//! and record trees flattened depth first.
use vstd::prelude::*;

use crate::grid::ExtractError;
use crate::header::{
    blank_grid, build_header_rows, calc_depth, collect_leaf_keys, forest_depth, forest_error,
    forest_keys, forest_leaves, forest_matches, header_fits, layout_cells, layout_merges,
    lemma_leaf_count_is_traversal, lemma_parsed_columns, parse_columns, ColumnError, ColumnNode,
    ColumnSpec, MAX_DEPTH,
};
use crate::table::{all_proper, all_within, MergeRange, TableData};
use crate::text::{chars_of, grid_view, same_chars, strs};

verus! {

/// A span property of a cell object: absent, present but not a number, or a
/// number (already converted to an unsigned count).
#[derive(Debug, Clone, Copy, PartialEq, Eq, Structural)]
pub enum SpanAttr {
    Missing,
    NotNumber,
    Number(u32),
}

/// A cell value as read from a record: its text as a plain value, whether
/// it is an object, and, for an object, its `value`, `colSpan` and
/// `rowSpan` properties.
#[derive(Debug, Clone, PartialEq, Eq)]
pub struct RawCell {
    pub text: String,
    pub is_object: bool,
    pub value: Option<String>,
    pub col_span: SpanAttr,
    pub row_span: SpanAttr,
}

/// A record: its fields by name, and the records nested under it.
#[derive(Debug, PartialEq, Eq)]
pub struct Record {
    pub fields: Vec<(String, RawCell)>,
    pub children: Vec<Record>,
}

/// The text and spans of a cell; a span of 0 means another cell's merge
/// covers it.
#[derive(Debug, Clone, PartialEq, Eq)]
pub struct CellInfo {
    pub value: String,
    pub col_span: u32,
    pub row_span: u32,
}

pub open spec fn span_value(a: SpanAttr) -> u32 {
    match a {
        SpanAttr::Number(n) => n,
        _ => 1,
    }
}

/// An object is read as a span directive only when it has at least one of
/// `value`, `colSpan`, `rowSpan`.
pub open spec fn is_span_directive(c: RawCell) -> bool {
    c.is_object && (c.value is Some || !(c.col_span is Missing) || !(c.row_span is Missing))
}

/// The text of a cell: a directive's `value` (empty when absent), else the
/// plain text.
pub open spec fn cell_text(c: RawCell) -> Seq<char> {
    if is_span_directive(c) {
        match c.value {
            Some(v) => v@,
            None => Seq::empty(),
        }
    } else {
        c.text@
    }
}

pub open spec fn cell_col_span(c: RawCell) -> u32 {
    if is_span_directive(c) {
        span_value(c.col_span)
    } else {
        1
    }
}

pub open spec fn cell_row_span(c: RawCell) -> u32 {
    if is_span_directive(c) {
        span_value(c.row_span)
    } else {
        1
    }
}

/// Reads a cell value: a span directive gives its `value` and its spans
/// (1 when absent or not a number); anything else is its plain text with
/// spans of 1.
pub fn parse_cell_value(val: &RawCell) -> (r: CellInfo)
    ensures
        r.value@ == cell_text(*val),
        r.col_span == cell_col_span(*val),
        r.row_span == cell_row_span(*val),
{
    let directive = val.is_object && (val.value.is_some() || !matches!(val.col_span, SpanAttr::Missing)
        || !matches!(val.row_span, SpanAttr::Missing));
    if directive {
        let value = match &val.value {
            Some(v) => v.clone(),
            None => String::new(),
        };
        let col_span = match val.col_span {
            SpanAttr::Number(n) => n,
            _ => 1,
        };
        let row_span = match val.row_span {
            SpanAttr::Number(n) => n,
            _ => 1,
        };
        CellInfo { value, col_span, row_span }
    } else {
        CellInfo { value: val.text.clone(), col_span: 1, row_span: 1 }
    }
}

/// `i` is the first field of `fields` named `key`.
pub open spec fn is_first_field(fields: Seq<(String, RawCell)>, key: Seq<char>, i: int) -> bool {
    &&& 0 <= i < fields.len()
    &&& fields[i].0@ == key
    &&& forall|j: int| 0 <= j < i ==> (#[trigger] fields[j]).0@ != key
}

/// The value of a record's field: the first field with that name, or an
/// absent value (empty text, not an object) when there is none.
pub open spec fn field_value(fields: Seq<(String, RawCell)>, key: Seq<char>) -> Option<RawCell> {
    if exists|i: int| is_first_field(fields, key, i) {
        Some(fields[choose|i: int| is_first_field(fields, key, i)].1)
    } else {
        None
    }
}

pub open spec fn field_text(fields: Seq<(String, RawCell)>, key: Seq<char>) -> Seq<char> {
    match field_value(fields, key) {
        Some(c) => c.text@,
        None => Seq::empty(),
    }
}

pub open spec fn field_cell_text(fields: Seq<(String, RawCell)>, key: Seq<char>) -> Seq<char> {
    match field_value(fields, key) {
        Some(c) => cell_text(c),
        None => Seq::empty(),
    }
}

pub open spec fn field_spans(fields: Seq<(String, RawCell)>, key: Seq<char>) -> (u32, u32) {
    match field_value(fields, key) {
        Some(c) => (cell_col_span(c), cell_row_span(c)),
        None => (1, 1),
    }
}

fn find_field<'a>(fields: &'a Vec<(String, RawCell)>, key: &String) -> (r: Option<&'a RawCell>)
    ensures
        match r {
            Some(c) => field_value(fields@, key@) == Some(*c),
            None => field_value(fields@, key@) is None,
        },
{
    let mut i: usize = 0;
    while i < fields.len()
        invariant
            0 <= i <= fields.len(),
            forall|j: int| 0 <= j < i ==> (#[trigger] fields@[j]).0@ != key@,
        decreases fields.len() - i,
    {
        if fields[i].0 == *key {
            proof {
                assert(is_first_field(fields@, key@, i as int));
                let k = choose|k: int| is_first_field(fields@, key@, k);
                if k < i {
                    assert(fields@[k].0@ != key@);
                } else if k > i {
                    assert(fields@[i as int].0@ != key@);
                }
            }
            return Some(&fields[i].1);
        }
        i = i + 1;
    }
    None
}

/// The text of an output cell: empty when a span of 0 marks it as covered.
pub open spec fn data_cell_out(fields: Seq<(String, RawCell)>, key: Seq<char>) -> Seq<char> {
    let sp = field_spans(fields, key);
    if sp.0 == 0 || sp.1 == 0 {
        Seq::empty()
    } else {
        field_cell_text(fields, key)
    }
}

/// A span limited to the `room` left before the table's edge.
pub open spec fn clip(span: int, room: int) -> int {
    if span <= room {
        span
    } else {
        room
    }
}

/// A directive cell gets a merge region when both its spans are non-zero and,
/// limited to the table, it still covers more than one cell.
pub open spec fn directive_merges(col_span: int, row_span: int) -> bool {
    col_span > 0 && row_span > 0 && (col_span > 1 || row_span > 1)
}

pub open spec fn directive_region(row: int, col: int, col_span: int, row_span: int) -> MergeRange {
    MergeRange {
        first_row: row as u32,
        first_col: col as u16,
        last_row: (row + row_span - 1) as u32,
        last_col: (col + col_span - 1) as u16,
    }
}

/// The merge regions of one record's row at output row `row`, in column
/// order; each directive's spans are limited to the table, whose rows end
/// before `row_end` and whose columns end before `keys_len`.
pub open spec fn record_merges(
    fields: Seq<(String, RawCell)>,
    keys: Seq<Seq<char>>,
    row: int,
    row_end: int,
    keys_len: int,
) -> Seq<MergeRange>
    decreases keys.len(),
{
    if keys.len() == 0 {
        Seq::empty()
    } else {
        let n = keys.len() - 1;
        let prev = record_merges(fields, keys.subrange(0, n), row, row_end, keys_len);
        let sp = field_spans(fields, keys[n]);
        let cs = clip(sp.0 as int, keys_len - n);
        let rs = clip(sp.1 as int, row_end - row);
        if directive_merges(cs, rs) {
            prev.push(directive_region(row, n, cs, rs))
        } else {
            prev
        }
    }
}

/// The merge regions of all records, row by row; record `i` sits at output
/// row `header_rows + i`, and the table's rows end before `row_end`.
pub open spec fn data_merges(
    records: Seq<Record>,
    keys: Seq<Seq<char>>,
    header_rows: int,
    row_end: int,
) -> Seq<MergeRange>
    decreases records.len(),
{
    if records.len() == 0 {
        Seq::empty()
    } else {
        let n = records.len() - 1;
        data_merges(records.subrange(0, n), keys, header_rows, row_end) + record_merges(
            records[n].fields@,
            keys,
            header_rows + n,
            row_end,
            keys.len() as int,
        )
    }
}

/// The clipped directive regions of all records end in columns that a merge
/// region can address (0-based column at most 65,535).
pub open spec fn merges_fit(records: Seq<Record>, keys: Seq<Seq<char>>, header_rows: int, row_end: int) -> bool {
    forall|i: int, j: int|
        0 <= i < records.len() && 0 <= j < keys.len() ==> {
            let sp = #[trigger] field_spans(records[i].fields@, keys[j]);
            let cs = clip(sp.0 as int, keys.len() - j);
            let rs = clip(sp.1 as int, row_end - (header_rows + i));
            directive_merges(cs, rs) ==> j + cs - 1 <= u16::MAX
        }
}

/// The output rows of object-array data: one row per record, one cell per
/// key, with the merge regions that the span directives ask for, each
/// limited to the table (it never reaches past the last record or the last
/// key). Fails exactly when such a region ends in a column beyond what a
/// merge region can address.
pub fn extract_data_rows(records: &Vec<Record>, keys: &Vec<String>, header_row_count: usize) -> (r: Result<
    (Vec<Vec<String>>, Vec<MergeRange>),
    ExtractError,
>)
    requires
        header_row_count + records.len() <= u32::MAX,
    ensures
        r is Ok <==> merges_fit(
            records@,
            strs(keys@),
            header_row_count as int,
            header_row_count + records@.len(),
        ),
        r matches Err(e) ==> e == ExtractError::ColumnLimit,
        match r {
            Ok((rows, merges)) => {
                &&& rows@.len() == records@.len()
                &&& forall|i: int|
                    0 <= i < records@.len() ==> strs(#[trigger] rows@[i]@) == Seq::new(
                        keys@.len(),
                        |j: int| data_cell_out(records@[i].fields@, keys@[j]@),
                    )
                &&& merges@ == data_merges(
                    records@,
                    strs(keys@),
                    header_row_count as int,
                    header_row_count + records@.len(),
                )
                &&& all_proper(merges@)
                &&& all_within(merges@, header_row_count + records@.len(), keys@.len() as int)
            },
            Err(_) => true,
        },
{
    let ghost ks = strs(keys@);
    let ghost row_end = header_row_count + records@.len();
    let mut rows: Vec<Vec<String>> = Vec::new();
    let mut merges: Vec<MergeRange> = Vec::new();
    let mut i: usize = 0;
    proof {
        assert(records@.subrange(0, 0) =~= Seq::<Record>::empty());
    }
    while i < records.len()
        invariant
            0 <= i <= records.len(),
            ks == strs(keys@),
            row_end == header_row_count + records@.len(),
            header_row_count + records.len() <= u32::MAX,
            rows@.len() == i,
            forall|t: int, j: int|
                0 <= t < i && 0 <= j < keys.len() ==> {
                    let sp = #[trigger] field_spans(records@[t].fields@, ks[j]);
                    let cs = clip(sp.0 as int, keys.len() - j);
                    let rs = clip(sp.1 as int, row_end - (header_row_count + t));
                    directive_merges(cs, rs) ==> j + cs - 1 <= u16::MAX
                },
            forall|t: int|
                0 <= t < i ==> strs(#[trigger] rows@[t]@) == Seq::new(
                    keys@.len(),
                    |j: int| data_cell_out(records@[t].fields@, keys@[j]@),
                ),
            merges@ == data_merges(records@.subrange(0, i as int), ks, header_row_count as int, row_end),
            all_proper(merges@),
            all_within(merges@, row_end, keys@.len() as int),
        decreases records.len() - i,
    {
        let fields = &records[i].fields;
        let out_row = (header_row_count + i) as u32;
        let rows_left = records.len() - i;
        let mut row: Vec<String> = Vec::new();
        let ghost m0 = merges@;
        let mut j: usize = 0;
        proof {
            assert(ks.subrange(0, 0) =~= Seq::<Seq<char>>::empty());
            assert(m0 + Seq::<MergeRange>::empty() =~= m0);
        }
        while j < keys.len()
            invariant
                0 <= j <= keys.len(),
                i < records.len(),
                rows_left == records.len() - i,
                fields == records@[i as int].fields,
                ks == strs(keys@),
                out_row == header_row_count + i,
                row_end == header_row_count + records@.len(),
                header_row_count + records.len() <= u32::MAX,
                row@.len() == j,
                forall|t: int, jj: int|
                    0 <= t < i && 0 <= jj < keys.len() ==> {
                        let sp = #[trigger] field_spans(records@[t].fields@, ks[jj]);
                        let cs = clip(sp.0 as int, keys.len() - jj);
                        let rs = clip(sp.1 as int, row_end - (header_row_count + t));
                        directive_merges(cs, rs) ==> jj + cs - 1 <= u16::MAX
                    },
                forall|jj: int|
                    0 <= jj < j ==> {
                        let sp = #[trigger] field_spans(fields@, ks[jj]);
                        let cs = clip(sp.0 as int, keys.len() - jj);
                        let rs = clip(sp.1 as int, row_end - out_row);
                        directive_merges(cs, rs) ==> jj + cs - 1 <= u16::MAX
                    },
                strs(row@) == Seq::new(j as nat, |t: int| data_cell_out(fields@, keys@[t]@)),
                merges@ == m0 + record_merges(
                    fields@,
                    ks.subrange(0, j as int),
                    out_row as int,
                    row_end,
                    keys@.len() as int,
                ),
                all_proper(merges@),
                all_within(merges@, row_end, keys@.len() as int),
            decreases keys.len() - j,
        {
            let info = match find_field(fields, &keys[j]) {
                Some(c) => parse_cell_value(c),
                None => CellInfo { value: String::new(), col_span: 1, row_span: 1 },
            };
            proof {
                assert(ks[j as int] == keys@[j as int]@);
                assert(ks.subrange(0, j + 1).subrange(0, j as int) =~= ks.subrange(0, j as int));
                assert(ks.subrange(0, j + 1)[j as int] == ks[j as int]);
            }
            let ghost before = strs(row@);
            if info.col_span == 0 || info.row_span == 0 {
                row.push(String::new());
            } else {
                let cols_left = keys.len() - j;
                let cs: usize = if (info.col_span as usize) <= cols_left {
                    info.col_span as usize
                } else {
                    cols_left
                };
                let rs: usize = if (info.row_span as usize) <= rows_left {
                    info.row_span as usize
                } else {
                    rows_left
                };
                if (cs > 1 || rs > 1) && j + cs - 1 > 0xFFFF {
                    proof {
                        assert(!merges_fit(records@, ks, header_row_count as int, row_end)) by {
                            assert(records@[i as int].fields == fields);
                            let sp = field_spans(records@[i as int].fields@, ks[j as int]);
                            assert(sp.0 == info.col_span && sp.1 == info.row_span);
                        }
                    }
                    return Err(ExtractError::ColumnLimit);
                }
                if cs > 1 || rs > 1 {
                    let last_row = out_row + ((rs - 1) as u32);
                    let last_col = (j + cs - 1) as u16;
                    let ghost before_m = merges@;
                    merges.push(MergeRange::new(out_row, j as u16, last_row, last_col));
                    proof {
                        assert forall|t: int| 0 <= t < merges@.len() implies (#[trigger] merges@[t]).is_proper()
                            && merges@[t].last_row < row_end && merges@[t].last_col < keys@.len() by {
                            if t < before_m.len() {
                                assert(merges@[t] == before_m[t]);
                            }
                        }
                    }
                }
                row.push(info.value);
            }
            proof {
                assert(info.value@ == data_cell_out(fields@, keys@[j as int]@) || info.col_span == 0
                    || info.row_span == 0);
                assert(strs(row@) =~= before.push(data_cell_out(fields@, keys@[j as int]@)));
                assert(strs(row@) =~= Seq::new((j + 1) as nat, |t: int| data_cell_out(fields@, keys@[t]@)));
            }
            j = j + 1;
        }
        proof {
            assert(ks.subrange(0, j as int) =~= ks);
            assert forall|t: int, jj: int| 0 <= t < i + 1 && 0 <= jj < keys.len() implies {
                let sp = #[trigger] field_spans(records@[t].fields@, ks[jj]);
                let cs = clip(sp.0 as int, keys.len() - jj);
                let rs = clip(sp.1 as int, row_end - (header_row_count + t));
                directive_merges(cs, rs) ==> jj + cs - 1 <= u16::MAX
            } by {
                if t == i {
                    assert(records@[t].fields == fields);
                }
            }
            assert(records@.subrange(0, i + 1).subrange(0, i as int) =~= records@.subrange(0, i as int));
            assert(records@.subrange(0, i + 1)[i as int] == records@[i as int]);
        }
        let ghost rows_before = rows@;
        rows.push(row);
        proof {
            assert forall|t: int| 0 <= t < i + 1 implies strs(#[trigger] rows@[t]@) == Seq::new(
                keys@.len(),
                |j: int| data_cell_out(records@[t].fields@, keys@[j]@),
            ) by {
                if t < i {
                    assert(rows@[t] == rows_before[t]);
                }
            }
        }
        i = i + 1;
    }
    proof {
        assert(records@.subrange(0, i as int) =~= records@);
    }
    Ok((rows, merges))
}

/// The indentation for nesting level `depth`: four spaces per level.
pub open spec fn indent_of(depth: int) -> Seq<char> {
    Seq::new((4 * depth) as nat, |i: int| ' ')
}

/// One cell of a flattened tree row: the field's plain text, prefixed with
/// the indentation of its level in the indent column.
pub open spec fn tree_cell(
    fields: Seq<(String, RawCell)>,
    key: Seq<char>,
    indent_key: Option<Seq<char>>,
    depth: int,
) -> Seq<char> {
    if indent_key == Some(key) && depth > 0 {
        indent_of(depth) + field_text(fields, key)
    } else {
        field_text(fields, key)
    }
}

pub open spec fn tree_row(
    fields: Seq<(String, RawCell)>,
    keys: Seq<Seq<char>>,
    indent_key: Option<Seq<char>>,
    depth: int,
) -> Seq<Seq<char>> {
    Seq::new(keys.len(), |j: int| tree_cell(fields, keys[j], indent_key, depth))
}

/// The rows of a record tree, depth first and pre-order (a record before its
/// children), or `None` when it is nested deeper than `MAX_DEPTH` levels.
pub open spec fn flatten(
    recs: Seq<Record>,
    keys: Seq<Seq<char>>,
    indent_key: Option<Seq<char>>,
    depth: int,
) -> Option<Seq<Seq<Seq<char>>>>
    decreases recs,
{
    if depth >= MAX_DEPTH {
        None
    } else if recs.len() == 0 {
        Some(Seq::empty())
    } else {
        let n = recs.len() - 1;
        match flatten(recs.subrange(0, n), keys, indent_key, depth) {
            None => None,
            Some(prev) => {
                let with_row = prev.push(tree_row(recs[n].fields@, keys, indent_key, depth));
                if recs[n].children@.len() > 0 {
                    match flatten(recs[n].children@, keys, indent_key, depth + 1) {
                        None => None,
                        Some(sub) => Some(with_row + sub),
                    }
                } else {
                    Some(with_row)
                }
            },
        }
    }
}

proof fn lemma_record_children_smaller(recs: Seq<Record>, i: int)
    requires
        0 <= i < recs.len(),
    ensures
        decreases_to!(recs => recs[i].children@),
{
    assert(decreases_to!(recs => recs[i]));
    assert(decreases_to!(recs[i] => recs[i].children));
    assert(decreases_to!(recs[i].children => recs[i].children@));
}

fn field_plain_text(fields: &Vec<(String, RawCell)>, key: &String) -> (r: String)
    ensures
        r@ == field_text(fields@, key@),
{
    match find_field(fields, key) {
        Some(c) => c.text.clone(),
        None => String::new(),
    }
}

fn indented(text: String, depth: usize) -> (r: String)
    ensures
        r@ == indent_of(depth as int) + text@,
{
    let mut out = String::new();
    let mut i: usize = 0;
    proof {
        reveal_strlit("    ");
    }
    while i < depth
        invariant
            0 <= i <= depth,
            out@ == indent_of(i as int),
        decreases depth - i,
    {
        let ghost before = out@;
        out.append("    ");
        proof {
            reveal_strlit("    ");
            assert(out@ =~= before + seq![' ', ' ', ' ', ' ']);
            assert(out@ =~= indent_of(i + 1));
        }
        i = i + 1;
    }
    out.append(text.as_str());
    out
}

/// Appends the rows of a record tree, depth first and pre-order, to `rows`:
/// one cell per key, with the indent column prefixed by four spaces per
/// nesting level. Fails when the records nest deeper than `MAX_DEPTH`, and
/// then leaves `rows` as it was.
pub fn flatten_tree_data(
    data: &Vec<Record>,
    keys: &Vec<String>,
    indent_key: Option<&str>,
    depth: usize,
    rows: &mut Vec<Vec<String>>,
) -> (r: Result<(), ExtractError>)
    ensures
        ({
            let ik = match indent_key {
                Some(k) => Some(k@),
                None => None,
            };
            match flatten(data@, strs(keys@), ik, depth as int) {
                Some(out) => r is Ok && grid_view(final(rows)@) == grid_view(old(rows)@) + out,
                None => r == Err::<(), ExtractError>(ExtractError::TooDeep) && final(rows)@ == old(
                    rows,
                )@,
            }
        }),
{
    let mut local: Vec<Vec<String>> = Vec::new();
    match flatten_into(data, keys, indent_key, depth, &mut local) {
        Ok(()) => {
            let ghost before = grid_view(rows@);
            let ghost added = local@;
            rows.append(&mut local);
            proof {
                assert(grid_view(Seq::<Vec<String>>::empty()) =~= Seq::<Seq<Seq<char>>>::empty());
                assert(grid_view(rows@) =~= before + grid_view(added));
            }
            Ok(())
        },
        Err(e) => Err(e),
    }
}

fn flatten_into(
    data: &Vec<Record>,
    keys: &Vec<String>,
    indent_key: Option<&str>,
    depth: usize,
    rows: &mut Vec<Vec<String>>,
) -> (r: Result<(), ExtractError>)
    ensures
        ({
            let ik = match indent_key {
                Some(k) => Some(k@),
                None => None,
            };
            match flatten(data@, strs(keys@), ik, depth as int) {
                Some(out) => r is Ok && grid_view(final(rows)@) == grid_view(old(rows)@) + out,
                None => r == Err::<(), ExtractError>(ExtractError::TooDeep),
            }
        }),
    decreases data@,
{
    let ghost ik = match indent_key {
        Some(k) => Some(k@),
        None => None,
    };
    let ghost ks = strs(keys@);
    if depth >= MAX_DEPTH {
        return Err(ExtractError::TooDeep);
    }
    let indent_chars: Option<Vec<char>> = match indent_key {
        Some(k) => Some(chars_of(k)),
        None => None,
    };
    let ghost base = grid_view(rows@);
    let mut i: usize = 0;
    proof {
        assert(data@.subrange(0, 0) =~= Seq::<Record>::empty());
        assert(base + Seq::<Seq<Seq<char>>>::empty() =~= base);
    }
    while i < data.len()
        invariant
            0 <= i <= data.len(),
            depth < MAX_DEPTH,
            ks == strs(keys@),
            ik == (match indent_key {
                Some(k) => Some(k@),
                None => None::<Seq<char>>,
            }),
            match indent_chars {
                Some(v) => ik == Some(v@),
                None => ik is None,
            },
            flatten(data@.subrange(0, i as int), ks, ik, depth as int) is Some,
            grid_view(rows@) == base + flatten(data@.subrange(0, i as int), ks, ik, depth as int)->0,
        decreases data.len() - i,
    {
        let rec = &data[i];
        proof {
            assert(data@.subrange(0, i + 1).subrange(0, i as int) =~= data@.subrange(0, i as int));
            assert(data@.subrange(0, i + 1)[i as int] == data@[i as int]);
            lemma_record_children_smaller(data@, i as int);
        }
        let mut row: Vec<String> = Vec::new();
        let mut j: usize = 0;
        while j < keys.len()
            invariant
                0 <= j <= keys.len(),
                ks == strs(keys@),
                match indent_chars {
                    Some(v) => ik == Some(v@),
                    None => ik is None,
                },
                strs(row@) == Seq::new(j as nat, |t: int| tree_cell(rec.fields@, ks[t], ik, depth as int)),
            decreases keys.len() - j,
        {
            let text = field_plain_text(&rec.fields, &keys[j]);
            let is_indent_col = match &indent_chars {
                Some(v) => same_chars(&chars_of(keys[j].as_str()), v),
                None => false,
            };
            let cell = if is_indent_col && depth > 0 { indented(text, depth) } else { text };
            let ghost before = strs(row@);
            row.push(cell);
            proof {
                assert(ks[j as int] == keys@[j as int]@);
                assert(strs(row@) =~= before.push(tree_cell(rec.fields@, ks[j as int], ik, depth as int)));
                assert(strs(row@) =~= Seq::new((j + 1) as nat, |t: int| tree_cell(rec.fields@, ks[t], ik, depth as int)));
            }
            j = j + 1;
        }
        proof {
            assert(strs(row@) =~= tree_row(rec.fields@, ks, ik, depth as int));
        }
        let ghost before_rows = grid_view(rows@);
        rows.push(row);
        proof {
            assert(grid_view(rows@) =~= before_rows.push(tree_row(rec.fields@, ks, ik, depth as int)));
        }
        if rec.children.len() > 0 {
            let ghost mid = grid_view(rows@);
            match flatten_into(&rec.children, keys, indent_key, depth + 1, rows) {
                Ok(()) => {
                    proof {
                        let sub = flatten(rec.children@, ks, ik, depth + 1)->0;
                        assert(grid_view(rows@) =~= mid + sub);
                    }
                },
                Err(e) => {
                    proof {
                        lemma_flatten_none_extends(data@, ks, ik, depth as int, i as int + 1);
                    }
                    return Err(e);
                },
            }
        }
        i = i + 1;
    }
    proof {
        assert(data@.subrange(0, i as int) =~= data@);
    }
    Ok(())
}

proof fn lemma_flatten_none_extends(
    recs: Seq<Record>,
    keys: Seq<Seq<char>>,
    ik: Option<Seq<char>>,
    depth: int,
    k: int,
)
    requires
        0 <= k <= recs.len(),
        flatten(recs.subrange(0, k), keys, ik, depth) is None,
    ensures
        flatten(recs, keys, ik, depth) is None,
    decreases recs.len() - k,
{
    if k < recs.len() {
        let m = recs.len() - 1;
        assert(recs.subrange(0, m).subrange(0, k) =~= recs.subrange(0, k));
        lemma_flatten_none_extends(recs.subrange(0, m), keys, ik, depth, k);
    } else {
        assert(recs.subrange(0, k) =~= recs);
    }
}

/// With indentation on, every row of a flattened tree holds, in the indent
/// column, the field's text after exactly four spaces per nesting level;
/// every other column holds the field's text unchanged.
pub proof fn lemma_indent_only_in_indent_column(
    fields: Seq<(String, RawCell)>,
    keys: Seq<Seq<char>>,
    indent_key: Seq<char>,
    depth: int,
    j: int,
)
    requires
        0 <= j < keys.len(),
        0 <= depth,
    ensures
        keys[j] == indent_key ==> tree_row(fields, keys, Some(indent_key), depth)[j] == Seq::new(
            (4 * depth) as nat,
            |i: int| ' ',
        ) + field_text(fields, keys[j]),
        keys[j] != indent_key ==> tree_row(fields, keys, Some(indent_key), depth)[j] == field_text(
            fields,
            keys[j],
        ),
{
    if keys[j] == indent_key && depth == 0 {
        assert(Seq::new((4 * depth) as nat, |i: int| ' ') + field_text(fields, keys[j]) =~= field_text(
            fields,
            keys[j],
        ));
    }
}


/// Why rows could not be built from records.
#[derive(Debug, Clone, PartialEq, Eq)]
pub enum DataError {
    /// The column definition was rejected.
    Columns(ColumnError),
    /// The records do not fit the output.
    Rows(ExtractError),
}

/// The data rows of object-array records, one cell per key.
pub open spec fn data_rows_view(records: Seq<Record>, keys: Seq<Seq<char>>) -> Seq<Seq<Seq<char>>> {
    Seq::new(
        records.len(),
        |i: int| Seq::new(keys.len(), |j: int| data_cell_out(records[i].fields@, keys[j])),
    )
}

/// The header grid of checked columns.
pub open spec fn header_view(nodes: Seq<ColumnNode>) -> Seq<Seq<Seq<char>>> {
    layout_cells(blank_grid(forest_depth(nodes) as int, forest_leaves(nodes) as int), nodes, 0, 0)
}

/// `td` is the header of `nodes` followed by the rows of `records`, with the
/// header's merge regions followed by those of the data.
pub open spec fn is_array_table(nodes: Seq<ColumnNode>, records: Seq<Record>, td: TableData) -> bool {
    let d = forest_depth(nodes) as int;
    &&& all_proper(td.merge_ranges@)
    &&& td.header_row_count == d
    &&& grid_view(td.rows@) == header_view(nodes) + data_rows_view(records, forest_keys(nodes))
    &&& td.merge_ranges@ == layout_merges(nodes, 0, 0, d) + data_merges(
        records,
        forest_keys(nodes),
        d,
        d + records.len(),
    )
    &&& forall|k: int| 0 <= k < td.rows@.len() ==> (#[trigger] td.rows@[k])@.len() == forest_leaves(nodes)
    &&& all_within(td.merge_ranges@, td.rows@.len() as int, forest_leaves(nodes) as int)
}


fn checked_columns(columns: &Vec<ColumnSpec>) -> (r: Result<(Vec<ColumnNode>, usize, Vec<Vec<String>>, Vec<MergeRange>), DataError>)
    ensures
        match r {
            Ok((nodes, depth, header, merges)) => {
                &&& forest_error(columns@, 0) is None
                &&& forest_matches(columns@, nodes@)
                &&& depth == forest_depth(nodes@)
                &&& depth <= MAX_DEPTH
                &&& header_fits(forest_leaves(nodes@) as int, depth as int)
                &&& crate::header::leaves_keyed(nodes@)
                &&& grid_view(header@) == header_view(nodes@)
                &&& merges@ == layout_merges(nodes@, 0, 0, depth as int)
                &&& all_proper(merges@)
                &&& header@.len() == depth
                &&& forall|k: int| 0 <= k < header@.len() ==> (#[trigger] header@[k])@.len() == forest_leaves(nodes@)
                &&& all_within(merges@, depth as int, forest_leaves(nodes@) as int)
            },
            Err(DataError::Columns(e)) => forest_error(columns@, 0) == Some(e) || (e
                == ColumnError::TooLarge && forest_error(columns@, 0) is None && exists|nodes: Seq<ColumnNode>|
                forest_matches(columns@, nodes) && !header_fits(
                forest_leaves(nodes) as int,
                forest_depth(nodes) as int,
            )),
            Err(DataError::Rows(_)) => false,
        },
{
    let nodes = match parse_columns(columns) {
        Ok(n) => n,
        Err(e) => {
            return Err(DataError::Columns(e));
        },
    };
    proof {
        lemma_parsed_columns(columns@, nodes@, 0);
    }
    let depth = calc_depth(&nodes);
    match build_header_rows(&nodes, depth) {
        Ok((header, merges)) => Ok((nodes, depth, header, merges)),
        Err(e) => Err(DataError::Columns(e)),
    }
}

/// Builds a table from object-array records and a column definition: the
/// multi-row header, then one row per record with a cell per leaf key, and
/// the merge regions of the header and of the records' span directives.
pub fn build_table_data_from_array(columns: &Vec<ColumnSpec>, records: &Vec<Record>) -> (r: Result<
    TableData,
    DataError,
>)
    requires
        records.len() + MAX_DEPTH <= u32::MAX,
    ensures
        match r {
            Ok(td) => forest_error(columns@, 0) is None && exists|nodes: Seq<ColumnNode>|
                forest_matches(columns@, nodes) && is_array_table(nodes, records@, td),
            Err(DataError::Columns(e)) => forest_error(columns@, 0) == Some(e) || (e
                == ColumnError::TooLarge && forest_error(columns@, 0) is None && exists|nodes: Seq<ColumnNode>|
                forest_matches(columns@, nodes) && !header_fits(
                forest_leaves(nodes) as int,
                forest_depth(nodes) as int,
            )),
            Err(DataError::Rows(e)) => e == ExtractError::ColumnLimit && forest_error(columns@, 0) is None
                && exists|nodes: Seq<ColumnNode>|
                forest_matches(columns@, nodes) && !merges_fit(
                records@,
                forest_keys(nodes),
                forest_depth(nodes) as int,
                (forest_depth(nodes) + records@.len()) as int,
            ),
        },
{
    let (nodes, depth, header, header_merges) = match checked_columns(columns) {
        Ok(c) => c,
        Err(e) => {
            return Err(e);
        },
    };
    let keys = collect_leaf_keys(&nodes);
    proof {
        lemma_leaf_count_is_traversal(nodes@);
    }
    let (data_rows, data_merges_v) = match extract_data_rows(records, &keys, depth) {
        Ok(d) => d,
        Err(e) => {
            return Err(DataError::Rows(e));
        },
    };
    let mut rows = header;
    let mut merge_ranges = header_merges;
    let ghost h = grid_view(rows@);
    let ghost hr = rows@;
    let ghost hm = merge_ranges@;
    let ghost dv = data_rows@;
    let ghost dm = data_merges_v@;
    let mut data_rows = data_rows;
    let mut data_merges_v = data_merges_v;
    rows.append(&mut data_rows);
    merge_ranges.append(&mut data_merges_v);
    proof {
        let lw = forest_leaves(nodes@);
        assert(keys@.len() == lw);
        assert forall|t: int| 0 <= t < merge_ranges@.len() implies (#[trigger] merge_ranges@[t]).is_proper()
            && merge_ranges@[t].last_row < rows@.len() && merge_ranges@[t].last_col < lw by {
            if t < hm.len() {
                assert(merge_ranges@[t] == hm[t]);
            } else {
                assert(merge_ranges@[t] == dm[t - hm.len()]);
            }
        }
        assert forall|k: int| 0 <= k < rows@.len() implies (#[trigger] rows@[k])@.len() == lw by {
            if k < hr.len() {
                assert(rows@[k] == hr[k]);
            } else {
                assert(rows@[k] == dv[k - hr.len()]);
                assert(strs(dv[k - hr.len()]@).len() == keys@.len());
            }
        }
        assert(grid_view(rows@) =~= h + grid_view(dv));
        let ks = forest_keys(nodes@);
        assert forall|t: int| 0 <= t < dv.len() implies #[trigger] grid_view(dv)[t] == data_rows_view(records@, ks)[t] by {
            assert(strs(dv[t]@) =~= Seq::new(ks.len(), |j: int| data_cell_out(records@[t].fields@, ks[j])));
        }
        assert(grid_view(dv) =~= data_rows_view(records@, ks));
    }
    let td = TableData { rows, merge_ranges, header_row_count: depth };
    proof {
        assert(is_array_table(nodes@, records@, td));
    }
    Ok(td)
}

/// Builds a table from a record tree and a column definition: the
/// multi-row header, then the tree's rows depth first, the indent column
/// indented by nesting level; the merge regions are the header's.
pub fn build_table_data_from_tree(
    columns: &Vec<ColumnSpec>,
    data: &Vec<Record>,
    indent_column: Option<&str>,
) -> (r: Result<TableData, DataError>)
    ensures
        ({
            let ik = match indent_column {
                Some(k) => Some(k@),
                None => None,
            };
            match r {
                Ok(td) => forest_error(columns@, 0) is None && exists|nodes: Seq<ColumnNode>|
                    #![auto]
                    forest_matches(columns@, nodes) && flatten(data@, forest_keys(nodes), ik, 0) is Some
                        && td.header_row_count == forest_depth(nodes) && grid_view(td.rows@)
                        == header_view(nodes) + flatten(data@, forest_keys(nodes), ik, 0)->0
                        && td.merge_ranges@ == layout_merges(nodes, 0, 0, forest_depth(nodes) as int)
                        && all_proper(td.merge_ranges@) && all_within(
                        td.merge_ranges@,
                        forest_depth(nodes) as int,
                        forest_leaves(nodes) as int,
                    ),
                Err(DataError::Columns(e)) => forest_error(columns@, 0) == Some(e) || (e
                    == ColumnError::TooLarge && forest_error(columns@, 0) is None && exists|nodes: Seq<ColumnNode>|
                    forest_matches(columns@, nodes) && !header_fits(
                    forest_leaves(nodes) as int,
                    forest_depth(nodes) as int,
                )),
                Err(DataError::Rows(e)) => e == ExtractError::TooDeep && forest_error(columns@, 0) is None && exists|nodes: Seq<ColumnNode>|
                    forest_matches(columns@, nodes) && flatten(data@, forest_keys(nodes), ik, 0) is None,
            }
        }),
{
    let (nodes, depth, header, header_merges) = match checked_columns(columns) {
        Ok(c) => c,
        Err(e) => {
            return Err(e);
        },
    };
    let keys = collect_leaf_keys(&nodes);
    let mut rows = header;
    match flatten_tree_data(data, &keys, indent_column, 0, &mut rows) {
        Ok(()) => {},
        Err(e) => {
            return Err(DataError::Rows(e));
        },
    }
    Ok(TableData { rows, merge_ranges: header_merges, header_row_count: depth })
}


/// A span directive yields a merge region exactly when both its spans are
/// non-zero and, limited to the table, it still covers more than one cell:
/// a cell with a span of 0 is covered by another and yields none, and an
/// effective 1 x 1 cell yields none. When the directive lies within the
/// table, that is exactly when one of its spans is more than 1. The region
/// is well formed and ends within the table.
pub proof fn lemma_directive_merge_iff_span(
    fields: Seq<(String, RawCell)>,
    key: Seq<char>,
    row: int,
    col: int,
    row_end: int,
    keys_len: int,
)
    requires
        0 <= row < row_end <= u32::MAX + 1,
        0 <= col < keys_len <= u16::MAX + 1,
    ensures
        ({
            let sp = field_spans(fields, key);
            let cs = clip(sp.0 as int, keys_len - col);
            let rs = clip(sp.1 as int, row_end - row);
            let keys = Seq::new(col as nat, |j: int| Seq::<char>::empty()).push(key);
            let before = record_merges(fields, keys.subrange(0, col), row, row_end, keys_len);
            let after = record_merges(fields, keys, row, row_end, keys_len);
            &&& after.len() == before.len() + (if directive_merges(cs, rs) {
                1int
            } else {
                0int
            })
            &&& directive_merges(cs, rs) ==> after.last() == directive_region(row, col, cs, rs)
                && directive_region(row, col, cs, rs).is_proper() && directive_region(
                row,
                col,
                cs,
                rs,
            ).last_row < row_end && directive_region(row, col, cs, rs).last_col < keys_len
            &&& (row + sp.1 - 1 < row_end && col + sp.0 - 1 < keys_len) ==> (directive_merges(cs, rs)
                <==> directive_merges(sp.0 as int, sp.1 as int))
        }),
{
    let sp = field_spans(fields, key);
    let cs = clip(sp.0 as int, keys_len - col);
    let rs = clip(sp.1 as int, row_end - row);
    let keys = Seq::new(col as nat, |j: int| Seq::<char>::empty()).push(key);
    assert(keys[col] == key);
    let m = directive_region(row, col, cs, rs);
    if directive_merges(cs, rs) {
        assert(m.first_row as int == row && m.last_row as int == row + rs - 1);
        assert(m.first_col as int == col && m.last_col as int == col + cs - 1);
    }
}

} // verus!
