//! Export settings, progress reporting, and CSV encoding.
use vstd::prelude::*;

use crate::grid::ExtractError;
use crate::header::ColumnError;
use crate::text::{grid_view, strs};
use crate::validation::{
    ensure_extension, escape_csv_injection, filename_is_valid, lower_of, rejects_with,
    starts_formula, validate_filename, with_extension, FilenameError,
};

verus! {

/// The file format of an export.
#[derive(Debug, Clone, Copy, PartialEq, Eq, Structural)]
pub enum ExportFormat {
    Csv,
    Xlsx,
}

impl Default for ExportFormat {
    fn default() -> (r: Self)
        ensures
            r == ExportFormat::Csv,
    {
        ExportFormat::Csv
    }
}

/// Why an export failed.
#[derive(Debug, Clone, PartialEq, Eq)]
pub enum ExportError {
    /// The table identifier is empty.
    EmptyTableId,
    /// A batch or chunk size of 0 was given.
    ZeroBatchSize,
    /// The format code is neither 0 (CSV) nor 1 (XLSX).
    InvalidFormat(u32),
    /// The filename breaks a rule.
    Filename(FilenameError),
    /// The column definition was rejected.
    Columns(ColumnError),
    /// The rows could not be built.
    Extract(ExtractError),
    /// There is nothing to export.
    NoData,
    /// A CSV record could not be written (records of unequal length).
    CsvRecord,
    /// The spreadsheet encoder failed, with its message.
    Xlsx(String),
    /// The progress callback failed in strict mode, with its message.
    Progress(String),
}

/// The format for a numeric format code: absent or 0 is CSV, 1 is XLSX.
pub fn format_from_code(code: Option<u32>) -> (r: Result<ExportFormat, ExportError>)
    ensures
        code is None ==> r == Ok::<ExportFormat, ExportError>(ExportFormat::Csv),
        code == Some(0u32) ==> r == Ok::<ExportFormat, ExportError>(ExportFormat::Csv),
        code == Some(1u32) ==> r == Ok::<ExportFormat, ExportError>(ExportFormat::Xlsx),
        code is Some && code->0 > 1 ==> r == Err::<ExportFormat, ExportError>(
            ExportError::InvalidFormat(code->0),
        ),
{
    match code {
        None => Ok(ExportFormat::Csv),
        Some(0) => Ok(ExportFormat::Csv),
        Some(1) => Ok(ExportFormat::Xlsx),
        Some(n) => Err(ExportError::InvalidFormat(n)),
    }
}

/// The freeze pane the caller asked for: given as soon as either the rows
/// or the columns are given, the other defaulting to 0.
pub fn freeze_pane_from(rows: Option<u32>, cols: Option<u16>) -> (r: Option<(u32, u16)>)
    ensures
        rows is None && cols is None ==> r is None,
        rows is Some ==> r == Some((rows->0, if cols is Some { cols->0 } else { 0u16 })),
        rows is None && cols is Some ==> r == Some((0u32, cols->0)),
{
    match (rows, cols) {
        (Some(r), Some(c)) => Some((r, c)),
        (Some(r), None) => Some((r, 0)),
        (None, Some(c)) => Some((0, c)),
        (None, None) => None,
    }
}

/// The freeze pane to apply: the caller's if given, else one below the
/// header rows if there are any, else none.
pub fn determine_freeze_pane(user_config: Option<(u32, u16)>, header_row_count: usize) -> (r: Option<
    (u32, u16),
>)
    requires
        header_row_count <= u32::MAX,
    ensures
        user_config is Some ==> r == user_config,
        user_config is None && header_row_count > 0 ==> r == Some((header_row_count as u32, 0u16)),
        user_config is None && header_row_count == 0 ==> r is None,
{
    match user_config {
        Some(c) => Some(c),
        None => if header_row_count > 0 {
            Some((header_row_count as u32, 0))
        } else {
            None
        },
    }
}

/// The name the caller gave, or the default.
pub open spec fn chosen_name(filename: Option<&str>, default_name: &str) -> Seq<char> {
    match filename {
        Some(f) => f@,
        None => default_name@,
    }
}

/// The final download name: the given name (or the default) must pass the
/// filename rules, and gets the extension unless it already ends with it.
pub fn prepare_filename(filename: Option<&str>, default_name: &str, extension: &str) -> (r: Result<
    String,
    ExportError,
>)
    ensures
        ({
            let name = chosen_name(filename, default_name);
            match r {
                Ok(s) => filename_is_valid(name) && s@ == with_extension(
                    name,
                    extension@,
                    lower_of(name),
                    lower_of(extension@),
                ),
                Err(e) => e matches ExportError::Filename(fe) && rejects_with(name, fe),
            }
        }),
{
    let name = match filename {
        Some(f) => f,
        None => default_name,
    };
    match validate_filename(name) {
        Ok(()) => Ok(ensure_extension(name, extension)),
        Err(e) => Err(ExportError::Filename(e)),
    }
}

/// Receives progress reports while an export runs. A report gives the
/// completed share as the percentage `percent_num / percent_den`.
pub trait ProgressSink {
    fn report(&mut self, percent_num: u128, percent_den: u128) -> Result<(), String>;
}

/// Reports progress; a failing report aborts the export only in strict mode.
pub fn report_progress<P: ProgressSink>(
    sink: &mut P,
    percent_num: u128,
    percent_den: u128,
    strict: bool,
) -> (r: Result<(), ExportError>)
    ensures
        !strict ==> r is Ok,
        r matches Err(e) ==> e is Progress,
{
    match sink.report(percent_num, percent_den) {
        Ok(()) => Ok(()),
        Err(msg) => if strict {
            Err(ExportError::Progress(msg))
        } else {
            Ok(())
        },
    }
}

/// The UTF-8 byte order mark.
pub open spec fn bom() -> Seq<u8> {
    seq![0xEFu8, 0xBBu8, 0xBFu8]
}

/// What `csv::Writer::write_record` appends for one record of these fields.
pub uninterp spec fn csv_record(fields: Seq<Seq<char>>) -> Seq<u8>;

/// A `csv::Writer` over an in-memory buffer. Verus refuses a declaration of
/// `csv::Writer` itself (its parameter is bound by `std::io::Write`), so the
/// writer is held here, opaque, and described by `csv_output` and `csv_width`.
#[verifier::external_body]
pub struct CsvEncoder {
    inner: csv::Writer<Vec<u8>>,
}

/// The bytes a CSV writer has been given so far.
pub uninterp spec fn csv_output(w: CsvEncoder) -> Seq<u8>;

/// The field count of the first record a CSV writer was given, if any.
pub uninterp spec fn csv_width(w: CsvEncoder) -> Option<nat>;

/// Relies on `csv::Writer::from_writer`: a new writer over an empty buffer
/// has written nothing and seen no record.
#[verifier::external_body]
fn csv_writer() -> (w: CsvEncoder)
    ensures
        csv_output(w) == Seq::<u8>::empty(),
        csv_width(w) is None,
{
    CsvEncoder { inner: csv::Writer::from_writer(Vec::new()) }
}

/// Relies on `csv::Writer::write_record` over an in-memory buffer: writing
/// to a `Vec` cannot fail, so it fails exactly when the record's field count
/// differs from the first record's (the writer is not flexible); otherwise
/// it appends the encoded record.
#[verifier::external_body]
fn csv_write_record(w: &mut CsvEncoder, fields: &Vec<String>) -> (r: Result<(), ()>)
    ensures
        r is Err <==> (csv_width(*old(w)) matches Some(n) && n != fields@.len()),
        r is Ok ==> csv_output(*final(w)) == csv_output(*old(w)) + csv_record(strs(fields@)),
        r is Ok ==> csv_width(*final(w)) == Some(fields@.len()),
{
    match w.inner.write_record(fields.iter()) {
        Ok(()) => Ok(()),
        Err(_) => Err(()),
    }
}

/// Relies on `csv::Writer::into_inner`: it flushes into the `Vec`, which
/// cannot fail, and hands back the buffer holding everything written.
#[verifier::external_body]
fn csv_into_bytes(w: CsvEncoder) -> (r: Result<Vec<u8>, ()>)
    ensures
        r is Ok,
        r matches Ok(b) ==> b@ == csv_output(w),
{
    match w.inner.into_inner() {
        Ok(b) => Ok(b),
        Err(_) => Err(()),
    }
}

/// A field as written to CSV: guarded against formula injection.
pub open spec fn escaped_field(t: Seq<char>) -> Seq<char> {
    if starts_formula(t) {
        seq!['\''] + t
    } else {
        t
    }
}

pub open spec fn escaped_row(row: Seq<Seq<char>>) -> Seq<Seq<char>> {
    row.map_values(|c: Seq<char>| escaped_field(c))
}

/// The CSV bytes of rows, each field guarded against formula injection.
pub open spec fn csv_lines(rows: Seq<Seq<Seq<char>>>) -> Seq<u8>
    decreases rows.len(),
{
    if rows.len() == 0 {
        Seq::empty()
    } else {
        csv_lines(rows.drop_last()) + csv_record(escaped_row(rows.last()))
    }
}

/// All rows have as many fields as the first.
pub open spec fn uniform_width(rows: Seq<Seq<Seq<char>>>) -> bool {
    forall|i: int| 0 <= i < rows.len() ==> (#[trigger] rows[i]).len() == rows[0].len()
}

pub open spec fn rows_view(rows: Seq<Vec<String>>, start: int, end: int) -> Seq<Seq<Seq<char>>> {
    Seq::new((end - start) as nat, |i: int| strs(rows[start + i]@))
}

fn escaped_fields(row: &Vec<String>) -> (r: Vec<String>)
    ensures
        r@.len() == row@.len(),
        strs(r@) == escaped_row(strs(row@)),
{
    let mut out: Vec<String> = Vec::new();
    let mut j: usize = 0;
    while j < row.len()
        invariant
            0 <= j <= row.len(),
            out@.len() == j,
            strs(out@) == escaped_row(strs(row@)).subrange(0, j as int),
        decreases row.len() - j,
    {
        let s = match escape_csv_injection(row[j].as_str()) {
            std::borrow::Cow::Borrowed(b) => b.to_owned(),
            std::borrow::Cow::Owned(o) => o,
        };
        let ghost before = strs(out@);
        assert(s@ == escaped_field(row@[j as int]@));
        assert(escaped_row(strs(row@))[j as int] == escaped_field(row@[j as int]@));
        out.push(s);
        proof {
            assert(strs(out@) =~= before.push(s@));
            assert(strs(out@) =~= escaped_row(strs(row@)).subrange(0, j + 1));
        }
        j = j + 1;
    }
    proof {
        assert(escaped_row(strs(row@)).subrange(0, j as int) =~= escaped_row(strs(row@)));
    }
    out
}

/// Encodes rows `start..end` as CSV with a writer of their own, each field
/// guarded against formula injection. Fails when the rows are not all of
/// the same length.
pub fn csv_chunk_bytes(rows: &Vec<Vec<String>>, start: usize, end: usize) -> (r: Result<
    Vec<u8>,
    ExportError,
>)
    requires
        start <= end <= rows.len(),
    ensures
        match r {
            Ok(b) => uniform_width(rows_view(rows@, start as int, end as int)) && b@ == csv_lines(
                rows_view(rows@, start as int, end as int),
            ),
            Err(e) => e == ExportError::CsvRecord && !uniform_width(
                rows_view(rows@, start as int, end as int),
            ),
        },
{
    let mut w = csv_writer();
    let mut i: usize = start;
    while i < end
        invariant
            start <= i <= end <= rows.len(),
            uniform_width(rows_view(rows@, start as int, i as int)),
            csv_output(w) == csv_lines(rows_view(rows@, start as int, i as int)),
            i == start ==> csv_width(w) is None,
            i > start ==> csv_width(w) == Some(rows@[start as int]@.len()),
        decreases end - i,
    {
        let fields = escaped_fields(&rows[i]);
        let ghost prev = rows_view(rows@, start as int, i as int);
        let ghost next = rows_view(rows@, start as int, i + 1);
        proof {
            assert(next.drop_last() =~= prev);
            assert(next.last() == strs(rows@[i as int]@));
            assert(fields@.len() == rows@[i as int]@.len());
        }
        match csv_write_record(&mut w, &fields) {
            Ok(()) => {},
            Err(()) => {
                proof {
                    assert(next[0].len() != next[i - start].len());
                    assert(!uniform_width(next));
                    assert(!uniform_width(rows_view(rows@, start as int, end as int))) by {
                        let all = rows_view(rows@, start as int, end as int);
                        assert(all[0] == next[0]);
                        assert(all[i - start] == next[i - start]);
                    }
                }
                return Err(ExportError::CsvRecord);
            },
        }
        proof {
            assert(uniform_width(next)) by {
                assert forall|k: int| 0 <= k < next.len() implies (#[trigger] next[k]).len() == next[0].len() by {
                    if k < next.len() - 1 {
                        assert(next[k] == prev[k]);
                    }
                    if i > start {
                        assert(next[0] == prev[0]);
                    }
                }
            }
        }
        i = i + 1;
    }
    match csv_into_bytes(w) {
        Ok(b) => Ok(b),
        Err(()) => Err(ExportError::CsvRecord),
    }
}


/// The bytes of a CSV file: the byte order mark if asked for, then the rows.
pub open spec fn csv_file(rows: Seq<Seq<Seq<char>>>, with_bom: bool) -> Seq<u8> {
    (if with_bom {
        bom()
    } else {
        Seq::empty()
    }) + csv_lines(rows)
}

/// Generates a CSV file from rows, each field guarded against formula
/// injection, with a byte order mark if asked for. Progress is reported at
/// the start (0) and once the rows are encoded (100).
pub fn generate_csv_bytes<P: ProgressSink>(
    rows: &Vec<Vec<String>>,
    sink: &mut P,
    strict: bool,
    with_bom: bool,
) -> (r: Result<Vec<u8>, ExportError>)
    ensures
        ({
            let all = grid_view(rows@);
            &&& rows@.len() == 0 ==> r is Err
            &&& r matches Ok(b) ==> uniform_width(all) && b@ == csv_file(all, with_bom)
            &&& r matches Err(ExportError::CsvRecord) ==> !uniform_width(all)
            &&& r matches Err(ExportError::Progress(_)) ==> strict
            &&& r matches Err(ExportError::NoData) ==> rows@.len() == 0
            &&& (r is Err && !strict && rows@.len() > 0) ==> r matches Err(ExportError::CsvRecord)
        }),
{
    report_progress(sink, 0, 1, strict)?;
    if rows.len() == 0 {
        return Err(ExportError::NoData);
    }
    proof {
        assert(rows_view(rows@, 0, rows@.len() as int) =~= grid_view(rows@));
    }
    let body = csv_chunk_bytes(rows, 0, rows.len())?;
    proof {
        assert(rows_view(rows@, 0, rows@.len() as int) =~= grid_view(rows@));
    }
    let mut out: Vec<u8> = Vec::new();
    if with_bom {
        out.push(0xEF);
        out.push(0xBB);
        out.push(0xBF);
    }
    let ghost head = out@;
    let mut body = body;
    out.append(&mut body);
    proof {
        assert(head =~= if with_bom { bom() } else { Seq::<u8>::empty() });
    }
    report_progress(sink, 100, 1, strict)?;
    Ok(out)
}

/// Exporting unchanged rows again gives byte-identical CSV: the output is a
/// function of the rows and the byte-order-mark flag alone (no time stamp or
/// other point-in-time element is embedded).
pub proof fn lemma_csv_export_is_repeatable(
    rows: Seq<Seq<Seq<char>>>,
    with_bom: bool,
    first: Seq<u8>,
    second: Seq<u8>,
)
    requires
        first == csv_file(rows, with_bom),
        second == csv_file(rows, with_bom),
    ensures
        first == second,
{
}

} // verus!
