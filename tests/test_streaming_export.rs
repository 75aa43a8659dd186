use belobog_stellar_grid::chunks::{chunk_boundaries, chunk_count, normalize_chunk_size, DEFAULT_CHUNK_SIZE};
use belobog_stellar_grid::export::{csv_chunk_bytes, generate_csv_bytes, prepare_filename};
use belobog_stellar_grid::{ensure_extension, validate_filename, ExportError, ExportFormat, ProgressSink};

struct Recorder(Vec<(u128, u128)>);

impl ProgressSink for Recorder {
    fn report(&mut self, num: u128, den: u128) -> Result<(), String> {
        self.0.push((num, den));
        Ok(())
    }
}

struct Failing;

impl ProgressSink for Failing {
    fn report(&mut self, _num: u128, _den: u128) -> Result<(), String> {
        Err("callback threw".to_string())
    }
}

fn owned(rows: Vec<Vec<&str>>) -> Vec<Vec<String>> {
    rows.into_iter().map(|r| r.into_iter().map(|c| c.to_string()).collect()).collect()
}

#[test]
fn test_chunk_size_basic() {
    assert_eq!(chunk_count(10000, 5000), 2);
}

#[test]
fn test_chunk_size_not_evenly_divisible() {
    let total_rows = 10001;
    let chunk_size = 5000;
    assert_eq!(chunk_count(total_rows, chunk_size), 3);
    let chunks = chunk_boundaries(total_rows, chunk_size);
    let last_chunk = chunks[2].1 - chunks[2].0;
    assert_eq!(last_chunk, 1);
}

#[test]
fn test_chunk_size_exactly_one_chunk() {
    assert_eq!(chunk_count(100, 5000), 1);
}

#[test]
fn test_chunk_size_single_row() {
    assert_eq!(chunk_count(1, 5000), 1);
}

#[test]
fn test_chunk_size_equal_to_total() {
    assert_eq!(chunk_count(5000, 5000), 1);
}

#[test]
fn test_chunk_size_very_small() {
    assert_eq!(chunk_count(10, 1), 10);
}

#[test]
fn test_chunk_size_very_large() {
    assert_eq!(chunk_count(100, 1_000_000), 1);
}

#[test]
fn test_chunk_boundaries_basic() {
    assert_eq!(chunk_boundaries(12, 5), vec![(0, 5), (5, 10), (10, 12)]);
}

#[test]
fn test_chunk_boundaries_exact_division() {
    assert_eq!(chunk_boundaries(10, 5), vec![(0, 5), (5, 10)]);
}

#[test]
fn test_chunk_boundaries_single_chunk() {
    assert_eq!(chunk_boundaries(3, 10), vec![(0, 3)]);
}

fn progress_after_chunks(total_rows: usize, chunk_size: usize) -> Vec<f64> {
    chunk_boundaries(total_rows, chunk_size)
        .into_iter()
        .map(|(_, end)| (end as f64 / total_rows as f64) * 100.0)
        .collect()
}

#[test]
fn test_progress_calculation_basic() {
    let total_rows = 100;
    let p = progress_after_chunks(total_rows, 50);
    assert!((p[0] - 50.0).abs() < f64::EPSILON);
    assert!((p[1] - 100.0).abs() < f64::EPSILON);
}

#[test]
fn test_progress_calculation_with_chunks() {
    let progresses: Vec<u32> = progress_after_chunks(12, 5).into_iter().map(|p| p.round() as u32).collect();
    assert_eq!(progresses, vec![42, 83, 100]);
}

#[test]
fn test_progress_starts_at_zero() {
    let rows = owned(vec![vec!["a"]; 100]);
    let mut rec = Recorder(Vec::new());
    generate_csv_bytes(&rows, &mut rec, false, false).unwrap();
    let (num, den) = rec.0[0];
    assert!(((num as f64 / den as f64) - 0.0).abs() < f64::EPSILON);
}

#[test]
fn test_progress_ends_at_hundred() {
    let total_rows = 7777;
    let p = progress_after_chunks(total_rows, 1000);
    assert!((p.last().unwrap() - 100.0).abs() < f64::EPSILON);
}

#[test]
fn chunked_export_of_10001_rows() {
    let chunks = chunk_boundaries(10001, 5000);
    let sizes: Vec<usize> = chunks.iter().map(|(s, e)| e - s).collect();
    assert_eq!(sizes, vec![5000, 5000, 1]);
    let p = progress_after_chunks(10001, 5000);
    assert!(p[0] < p[1] && p[1] < p[2]);
    assert_eq!(p[2], 100.0);
    assert_eq!(normalize_chunk_size(None), DEFAULT_CHUNK_SIZE);
    assert_eq!(normalize_chunk_size(Some(0)), 1);
    assert_eq!(normalize_chunk_size(Some(10)), 10);
}

#[test]
fn test_csv_bom_bytes() {
    let bytes = generate_csv_bytes(&owned(vec![vec!["a"]]), &mut Recorder(Vec::new()), false, true).unwrap();
    let bom = &bytes[0..3];
    assert_eq!(bom.len(), 3);
    assert_eq!(bom[0], 0xEF);
    assert_eq!(bom[1], 0xBB);
    assert_eq!(bom[2], 0xBF);
}

#[test]
fn test_csv_bom_as_string_prefix() {
    let bytes = generate_csv_bytes(&owned(vec![vec!["a"]]), &mut Recorder(Vec::new()), false, true).unwrap();
    let text = String::from_utf8(bytes).unwrap();
    assert!(text.starts_with("\u{FEFF}"));
    assert_eq!(&text.as_bytes()[0..3], &[0xEF, 0xBB, 0xBF]);
}

#[test]
fn test_chunked_csv_write_basic() {
    let data = owned(vec![
        vec!["姓名", "年龄", "城市"],
        vec!["张三", "28", "北京"],
        vec!["李四", "35", "上海"],
        vec!["王五", "42", "广州"],
    ]);
    let mut all_parts: Vec<Vec<u8>> = Vec::new();
    for (start, end) in chunk_boundaries(data.len(), 2) {
        let raw = csv_chunk_bytes(&data, start, end).unwrap();
        if !raw.is_empty() {
            all_parts.push(raw);
        }
    }
    assert_eq!(all_parts.len(), 2);
    let combined: Vec<u8> = all_parts.into_iter().flatten().collect();
    let result = String::from_utf8(combined).unwrap();
    assert!(result.contains("姓名"));
    assert!(result.contains("张三"));
    assert!(result.contains("王五"));
    assert_eq!(result.lines().count(), 4);
}

#[test]
fn test_chunked_csv_write_single_chunk() {
    let data = owned(vec![vec!["a", "b"], vec!["c", "d"]]);
    let parts: Vec<Vec<u8>> = chunk_boundaries(data.len(), 100)
        .into_iter()
        .map(|(s, e)| csv_chunk_bytes(&data, s, e).unwrap())
        .collect();
    assert_eq!(parts.len(), 1);
}

#[test]
fn test_chunked_csv_write_with_bom() {
    let data = owned(vec![vec!["name", "age"], vec!["Alice", "30"]]);
    let combined = generate_csv_bytes(&data, &mut Recorder(Vec::new()), false, true).unwrap();
    assert_eq!(&combined[0..3], &[0xEF, 0xBB, 0xBF]);
    assert!(String::from_utf8_lossy(&combined[3..]).contains("name"));
}

#[test]
fn test_chunked_csv_write_empty_chunk() {
    let data: Vec<Vec<String>> = Vec::new();
    let parts: Vec<Vec<u8>> = chunk_boundaries(data.len(), 100)
        .into_iter()
        .map(|(s, e)| csv_chunk_bytes(&data, s, e).unwrap())
        .collect();
    assert!(parts.is_empty());
}

#[test]
fn test_xlsx_fallback_strategy_selection() {
    let should_use_streaming = |format: &ExportFormat| *format != ExportFormat::Xlsx;
    assert!(should_use_streaming(&ExportFormat::Csv));
    assert!(!should_use_streaming(&ExportFormat::Xlsx));
}

#[test]
fn test_streaming_export_default_filename() {
    let default_name = prepare_filename(None, "streaming_export.csv", "csv").unwrap();
    assert!(default_name.ends_with(".csv"));
    assert_eq!(default_name, "streaming_export.csv");
}

#[test]
fn test_streaming_export_filename_extension() {
    assert_eq!(ensure_extension("流式数据", "csv"), "流式数据.csv");
    assert_eq!(ensure_extension("data.csv", "csv"), "data.csv");
    assert_eq!(ensure_extension("报表", "csv"), "报表.csv");
}

#[test]
fn test_streaming_export_filename_validation() {
    assert!(validate_filename("流式导出数据").is_ok());
    assert!(validate_filename("streaming_data").is_ok());
    assert!(validate_filename("data-2024").is_ok());
    assert!(validate_filename("../hack").is_err());
    assert!(validate_filename("").is_err());
}

#[test]
fn test_memory_peak_comparison() {
    let total_rows = 100_000;
    let chunk_size = 5000;
    let chunks = chunk_count(total_rows, chunk_size);
    assert!(chunk_size < total_rows);
    assert_eq!(chunks, 20);
}

#[test]
fn test_chunk_count_for_large_dataset() {
    assert_eq!(chunk_count(1_000_000, 5000), 200);
}

#[test]
fn csv_of_two_by_two_rows() {
    let bytes = generate_csv_bytes(&owned(vec![vec!["A", "B"], vec!["C", "D"]]), &mut Recorder(Vec::new()), false, false).unwrap();
    assert_eq!(String::from_utf8(bytes).unwrap(), "A,B\nC,D\n");
}

#[test]
fn csv_output_is_repeatable_and_guarded() {
    let rows = owned(vec![vec!["=SUM(A1)", "x,y"], vec!["\"q\"", "-1"]]);
    let a = generate_csv_bytes(&rows, &mut Recorder(Vec::new()), false, false).unwrap();
    let b = generate_csv_bytes(&rows, &mut Recorder(Vec::new()), false, false).unwrap();
    assert_eq!(a, b);
    assert_eq!(String::from_utf8(a).unwrap(), "'=SUM(A1),\"x,y\"\n\"\"\"q\"\"\",'-1\n");
}

#[test]
fn csv_errors() {
    let ragged = owned(vec![vec!["a", "b"], vec!["c"]]);
    assert_eq!(generate_csv_bytes(&ragged, &mut Recorder(Vec::new()), false, false), Err(ExportError::CsvRecord));
    assert_eq!(generate_csv_bytes(&Vec::new(), &mut Recorder(Vec::new()), false, false), Err(ExportError::NoData));
    let rows = owned(vec![vec!["a"]]);
    assert!(generate_csv_bytes(&rows, &mut Failing, false, false).is_ok());
    assert_eq!(
        generate_csv_bytes(&rows, &mut Failing, true, false),
        Err(ExportError::Progress("callback threw".to_string()))
    );
}
