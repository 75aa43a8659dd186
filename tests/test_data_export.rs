use belobog_stellar_grid::export::{determine_freeze_pane, generate_csv_bytes};
use belobog_stellar_grid::header::{ColumnSpec, MAX_DEPTH};
use belobog_stellar_grid::records::{
    build_table_data_from_array, build_table_data_from_tree, extract_data_rows, flatten_tree_data,
    parse_cell_value, RawCell, Record, SpanAttr,
};
use belobog_stellar_grid::{ensure_extension, validate_filename, ExtractError, MergeRange, ProgressSink};

struct NoProgress;

impl ProgressSink for NoProgress {
    fn report(&mut self, _num: u128, _den: u128) -> Result<(), String> {
        Ok(())
    }
}

fn text(s: &str) -> RawCell {
    RawCell { text: s.to_string(), is_object: false, value: None, col_span: SpanAttr::Missing, row_span: SpanAttr::Missing }
}

fn spanned(v: &str, col_span: SpanAttr, row_span: SpanAttr) -> RawCell {
    RawCell { text: "[object]".to_string(), is_object: true, value: Some(v.to_string()), col_span, row_span }
}

fn record(fields: Vec<(&str, RawCell)>, children: Vec<Record>) -> Record {
    Record { fields: fields.into_iter().map(|(k, v)| (k.to_string(), v)).collect(), children }
}

fn keys(ks: &[&str]) -> Vec<String> {
    ks.iter().map(|k| k.to_string()).collect()
}

fn csv_text(rows: Vec<Vec<&str>>) -> String {
    let rows: Vec<Vec<String>> = rows.into_iter().map(|r| r.into_iter().map(|c| c.to_string()).collect()).collect();
    String::from_utf8(generate_csv_bytes(&rows, &mut NoProgress, false, false).unwrap()).unwrap()
}

#[test]
fn test_export_data_filename_csv_extension() {
    assert_eq!(ensure_extension("data", "csv"), "data.csv");
    assert_eq!(ensure_extension("data.csv", "csv"), "data.csv");
    assert_eq!(ensure_extension("data.CSV", "csv"), "data.CSV");
    assert_eq!(ensure_extension("用户数据", "csv"), "用户数据.csv");
}

#[test]
fn test_export_data_filename_xlsx_extension() {
    assert_eq!(ensure_extension("data", "xlsx"), "data.xlsx");
    assert_eq!(ensure_extension("data.xlsx", "xlsx"), "data.xlsx");
    assert_eq!(ensure_extension("data.XLSX", "xlsx"), "data.XLSX");
    assert_eq!(ensure_extension("报表数据", "xlsx"), "报表数据.xlsx");
}

#[test]
fn test_export_data_filename_validation() {
    assert!(validate_filename("合并数据.xlsx").is_ok());
    assert!(validate_filename("data_with_merge").is_ok());
    assert!(validate_filename("report-2024").is_ok());

    assert!(validate_filename("../hack.xlsx").is_err());
    assert!(validate_filename("path/to/file.csv").is_err());
    assert!(validate_filename("").is_err());
    assert!(validate_filename("CON.xlsx").is_err());
}

#[test]
fn test_export_data_merge_filename_unicode() {
    let filenames = vec!["员工信息-含合并", "订单汇总_合并单元格", "データエクスポート", "데이터_내보내기"];
    for name in filenames {
        assert!(validate_filename(name).is_ok(), "文件名 '{}' 应该通过验证", name);
    }
}

#[test]
fn test_export_data_merge_filename_special_chars() {
    assert!(validate_filename("data(merged)").is_ok());
    assert!(validate_filename("data[v2]").is_ok());
    assert!(validate_filename("data_merged-v2").is_ok());
    assert!(validate_filename("data merged").is_ok());
}

#[test]
fn test_csv_merge_cell_layout_colspan() {
    let result = csv_text(vec![
        vec!["姓名", "地址", "邮编"],
        vec!["张三", "北京市朝阳区", ""],
        vec!["李四", "上海市", "200000"],
    ]);
    assert!(result.contains("北京市朝阳区"));
    assert!(result.contains("上海市"));
    assert_eq!(result.lines().count(), 3);
}

#[test]
fn test_csv_merge_cell_layout_rowspan() {
    let result = csv_text(vec![
        vec!["姓名", "科目", "成绩"],
        vec!["张三", "数学", "90"],
        vec!["", "英语", "85"],
        vec!["李四", "数学", "88"],
    ]);
    assert!(result.contains("张三"));
    assert!(result.contains("英语"));
    assert_eq!(result.lines().count(), 4);
}

#[test]
fn test_csv_merge_cell_layout_complex() {
    let result = csv_text(vec![
        vec!["姓名", "成绩", "", "评价"],
        vec!["", "数学", "英语", ""],
        vec!["张三", "90", "85", "优秀"],
        vec!["", "88", "92", "良好"],
    ]);
    assert!(result.contains("姓名"));
    assert!(result.contains("90"));
    assert_eq!(result.lines().count(), 4);
}

#[test]
fn test_data_row_with_span_zero_produces_empty() {
    let records = vec![
        record(vec![("name", spanned("张三", SpanAttr::Missing, SpanAttr::Number(2))), ("age", text("28")), ("city", text("北京"))], vec![]),
        record(vec![("name", spanned("", SpanAttr::Missing, SpanAttr::Number(0))), ("age", text("35")), ("city", text("上海"))], vec![]),
    ];
    let (rows, _) = extract_data_rows(&records, &keys(&["name", "age", "city"]), 0).unwrap();
    assert_eq!(rows[0][0], "张三");
    assert_eq!(rows[1][0], "");
    assert_eq!(rows[1][1], "35");
}

#[test]
fn test_data_row_colspan_produces_empty_following_cells() {
    let records = vec![record(
        vec![
            ("name", text("张三")),
            ("address", spanned("北京市朝阳区", SpanAttr::Number(3), SpanAttr::Missing)),
            ("zip", spanned("", SpanAttr::Number(0), SpanAttr::Missing)),
            ("note", spanned("", SpanAttr::Number(0), SpanAttr::Missing)),
        ],
        vec![],
    )];
    let (rows, merges) = extract_data_rows(&records, &keys(&["name", "address", "zip", "note"]), 0).unwrap();
    let row = &rows[0];
    assert_eq!(row[1], "北京市朝阳区");
    assert_eq!(row[2], "");
    assert_eq!(row[3], "");
    assert_eq!(merges, vec![MergeRange::new(0, 1, 0, 3)]);
}

#[test]
fn test_merge_range_offset_calculation() {
    let mut records = vec![record(
        vec![("a", text("x")), ("b", spanned("v", SpanAttr::Number(2), SpanAttr::Number(3)))],
        vec![],
    )];
    records.push(record(vec![("a", text("y"))], vec![]));
    records.push(record(vec![("a", text("z"))], vec![]));
    let (_, merges) = extract_data_rows(&records, &keys(&["a", "b", "c"]), 2).unwrap();
    let m = merges[0];
    assert_eq!(m.first_row, 2);
    assert_eq!(m.first_col, 1);
    assert_eq!(m.last_row, 4);
    assert_eq!(m.last_col, 2);
}

fn merges_for(col_span: u32, row_span: u32) -> Vec<MergeRange> {
    let mut records = vec![record(vec![("k0", spanned("v", SpanAttr::Number(col_span), SpanAttr::Number(row_span)))], vec![])];
    for _ in 1..row_span {
        records.push(record(vec![], vec![]));
    }
    let names: Vec<String> = (0..col_span.max(1)).map(|i| format!("k{}", i)).collect();
    extract_data_rows(&records, &names, 0).unwrap().1
}

#[test]
fn test_merge_range_single_cell_no_merge() {
    assert!(merges_for(1, 1).is_empty());
}

#[test]
fn test_merge_range_only_colspan() {
    assert!(!merges_for(3, 1).is_empty());
}

#[test]
fn test_merge_range_only_rowspan() {
    assert!(!merges_for(1, 2).is_empty());
}

#[test]
fn test_merge_range_both_spans() {
    let merges = merges_for(2, 3);
    assert!(!merges.is_empty());
    let m = merges[0];
    let total_cells = (m.last_col - m.first_col + 1) as u32 * (m.last_row - m.first_row + 1);
    assert_eq!(total_cells, 6);
}

fn two_level_columns() -> Vec<ColumnSpec> {
    let leaf = |t: &str, k: &str| ColumnSpec { title: Some(t.to_string()), key: Some(k.to_string()), children: vec![] };
    vec![
        leaf("姓名", "name"),
        ColumnSpec { title: Some("成绩".to_string()), key: None, children: vec![leaf("数学", "math"), leaf("英语", "english")] },
    ]
}

#[test]
fn test_merge_ranges_combination() {
    let records = vec![
        record(vec![("name", spanned("张三", SpanAttr::Missing, SpanAttr::Number(2))), ("math", text("90")), ("english", text("85"))], vec![]),
        record(vec![("name", spanned("", SpanAttr::Missing, SpanAttr::Number(0))), ("math", text("88")), ("english", text("92"))], vec![]),
    ];
    let cols = vec![ColumnSpec { title: Some("姓名".to_string()), key: Some("name".to_string()), children: vec![] },
        ColumnSpec { title: Some("数学".to_string()), key: Some("math".to_string()), children: vec![] },
        ColumnSpec { title: Some("英语".to_string()), key: Some("english".to_string()), children: vec![] }];
    let table = build_table_data_from_array(&two_level_columns(), &records).unwrap();
    let merge_ranges = table.merge_ranges;
    assert_eq!(merge_ranges.len(), 3);
    assert_eq!(merge_ranges[0].first_row, 0);
    assert_eq!(merge_ranges[0].last_row, 1);
    assert_eq!(merge_ranges[2].first_row, 2);
    assert_eq!(merge_ranges[2].last_row, 3);
    let flat = build_table_data_from_array(&cols, &records).unwrap();
    assert_eq!(flat.merge_ranges, vec![MergeRange::new(1, 0, 2, 0)]);
}

#[test]
fn test_cell_value_format_detection() {
    let with = |v: bool, c: bool, r: bool| RawCell {
        text: "[object Object]".to_string(),
        is_object: true,
        value: if v { Some("x".to_string()) } else { None },
        col_span: if c { SpanAttr::Number(2) } else { SpanAttr::Missing },
        row_span: if r { SpanAttr::Number(2) } else { SpanAttr::Missing },
    };
    let is_merge_cell_object = |v, c, r| parse_cell_value(&with(v, c, r)).value != "[object Object]";
    assert!(!is_merge_cell_object(false, false, false));
    assert!(is_merge_cell_object(true, false, false));
    assert!(is_merge_cell_object(false, true, false));
    assert!(is_merge_cell_object(false, false, true));
    assert!(is_merge_cell_object(true, true, true));
}

#[test]
fn test_span_default_values() {
    let get_span = |a: SpanAttr| parse_cell_value(&spanned("v", a, SpanAttr::Missing)).col_span;
    assert_eq!(get_span(SpanAttr::Missing), 1);
    assert_eq!(get_span(SpanAttr::Number(0)), 0);
    assert_eq!(get_span(SpanAttr::Number(1)), 1);
    assert_eq!(get_span(SpanAttr::Number(2)), 2);
    assert_eq!(get_span(SpanAttr::Number(5)), 5);
}

#[test]
fn test_full_layout_with_data_merge() {
    let records = vec![
        record(vec![("name", spanned("张三", SpanAttr::Missing, SpanAttr::Number(2))), ("math", text("90")), ("english", text("85"))], vec![]),
        record(vec![("name", spanned("", SpanAttr::Missing, SpanAttr::Number(0))), ("math", text("88")), ("english", text("92"))], vec![]),
        record(vec![("name", text("李四")), ("math", text("95")), ("english", text("90"))], vec![]),
    ];
    let table = build_table_data_from_array(&two_level_columns(), &records).unwrap();
    assert_eq!(table.rows.len(), 5);
    assert_eq!(table.merge_ranges.len(), 3);
    assert_eq!(table.header_row_count, 2);
    assert_eq!(table.rows[2], vec!["张三", "90", "85"]);
}

#[test]
fn test_full_layout_with_colspan_in_data() {
    let leaf = |t: &str, k: &str| ColumnSpec { title: Some(t.to_string()), key: Some(k.to_string()), children: vec![] };
    let cols = vec![leaf("姓名", "name"), leaf("地址", "address"), leaf("邮编", "zip")];
    let records = vec![
        record(vec![("name", text("张三")), ("address", spanned("北京市朝阳区", SpanAttr::Number(2), SpanAttr::Missing)), ("zip", spanned("", SpanAttr::Number(0), SpanAttr::Missing))], vec![]),
        record(vec![("name", text("李四")), ("address", text("上海市")), ("zip", text("200000"))], vec![]),
    ];
    let all_rows = build_table_data_from_array(&cols, &records).unwrap().rows;
    assert_eq!(all_rows.len(), 3);
    assert_eq!(all_rows[1][2], "");
    assert_eq!(all_rows[2][2], "200000");
}

#[test]
fn test_empty_data_with_merge() {
    let (data_rows, merge_ranges) = extract_data_rows(&vec![], &keys(&["a"]), 0).unwrap();
    assert!(data_rows.is_empty());
    assert!(merge_ranges.is_empty());
}

#[test]
fn test_single_row_no_merge() {
    let records = vec![record(vec![("name", text("张三")), ("age", text("28")), ("city", text("北京"))], vec![])];
    let (rows, merges) = extract_data_rows(&records, &keys(&["name", "age", "city"]), 0).unwrap();
    assert_eq!(rows[0].len(), 3);
    assert!(merges.is_empty());
}

#[test]
fn test_large_rowspan_value() {
    let mut records = vec![record(vec![("a", spanned("v", SpanAttr::Missing, SpanAttr::Number(100)))], vec![])];
    for _ in 1..100 {
        records.push(record(vec![], vec![]));
    }
    let (_, merges) = extract_data_rows(&records, &keys(&["a"]), 2).unwrap();
    assert_eq!(merges[0].first_row, 2);
    assert_eq!(merges[0].last_row, 101);
}

#[test]
fn test_large_colspan_value() {
    let mut fields = vec![("a", text("0")), ("b", text("1")), ("c", text("2"))];
    fields.push(("d", spanned("v", SpanAttr::Number(50), SpanAttr::Missing)));
    let records = vec![record(fields, vec![])];
    let mut names = keys(&["a", "b", "c", "d"]);
    for i in 4..53 {
        names.push(format!("k{}", i));
    }
    let (_, merges) = extract_data_rows(&records, &names, 0).unwrap();
    assert_eq!(merges[0].first_col, 3);
    assert_eq!(merges[0].last_col, 52);
}

fn named(name: &str, value: &str, children: Vec<Record>) -> Record {
    record(vec![("name", text(name)), ("value", text(value))], children)
}

fn flat(data: &Vec<Record>, ks: &[&str], indent: Option<&str>) -> Vec<Vec<String>> {
    let mut rows = Vec::new();
    flatten_tree_data(data, &keys(ks), indent, 0, &mut rows).unwrap();
    rows
}

#[test]
fn test_tree_flatten_basic_layout() {
    let data = vec![named("A", "value_a", vec![named("B", "value_b", vec![]), named("C", "value_c", vec![named("D", "value_d", vec![])])])];
    let rows = flat(&data, &["name", "value"], None);
    assert_eq!(rows.len(), 4);
    assert_eq!(rows[0][0], "A");
    assert_eq!(rows[3][0], "D");
}

#[test]
fn test_tree_flatten_with_indent() {
    let data = vec![named("根节点", "", vec![named("子节点A", "", vec![named("孙节点A1", "", vec![])]), named("子节点B", "", vec![])])];
    let rows: Vec<String> = flat(&data, &["name"], Some("name")).into_iter().map(|r| r[0].clone()).collect();
    assert_eq!(rows.len(), 4);
    assert!(rows[0].starts_with("根"));
    assert!(rows[1].starts_with("    "));
    assert!(rows[2].starts_with("        "));
    assert!(rows[3].starts_with("    "));
}

#[test]
fn test_tree_flatten_indent_calculation() {
    let calc_indent = |depth: usize| {
        let mut d = vec![named("", "", vec![])];
        for _ in 0..depth {
            d = vec![named("", "", d)];
        }
        flat(&d, &["name"], Some("name")).last().unwrap()[0].clone()
    };
    assert_eq!(calc_indent(0), "");
    assert_eq!(calc_indent(1), "    ");
    assert_eq!(calc_indent(2), "        ");
    assert_eq!(calc_indent(3), "            ");
    assert_eq!(calc_indent(0).len(), 0);
    assert_eq!(calc_indent(1).len(), 4);
    assert_eq!(calc_indent(5).len(), 20);
}

#[test]
fn test_tree_flatten_multiple_roots() {
    let data = vec![named("root1", "100", vec![named("child1", "50", vec![])]), named("root2", "200", vec![])];
    let rows = flat(&data, &["name", "value"], None);
    assert_eq!(rows.len(), 3);
    assert_eq!(rows[0][0], "root1");
    assert_eq!(rows[1][0], "child1");
    assert_eq!(rows[2][0], "root2");
}

#[test]
fn test_tree_flatten_deep_nesting() {
    let data = vec![named("L1", "", vec![named("L2", "", vec![named("L3", "", vec![named("L4", "", vec![])])])])];
    let indented_names: Vec<String> = flat(&data, &["name"], Some("name")).into_iter().map(|r| r[0].clone()).collect();
    assert_eq!(indented_names[0], "L1");
    assert_eq!(indented_names[1], "    L2");
    assert_eq!(indented_names[2], "        L3");
    assert_eq!(indented_names[3], "            L4");
}

#[test]
fn test_tree_flatten_empty_tree() {
    let rows = flat(&vec![], &["name"], None);
    assert!(rows.is_empty());
}

#[test]
fn test_tree_with_header_rows_total() {
    let data = vec![
        record(vec![("name", text("a"))], vec![record(vec![("name", text("b"))], vec![]), record(vec![("name", text("c"))], vec![])]),
        record(vec![("name", text("d"))], vec![record(vec![("name", text("e"))], vec![])]),
    ];
    let table = build_table_data_from_tree(&two_level_columns(), &data, Some("name")).unwrap();
    let total = table.rows.len();
    assert_eq!(total, 7);
    assert_eq!(table.header_row_count, 2);
}

#[test]
fn test_tree_missing_key_produces_empty() {
    let data = vec![record(vec![("name", text("张三"))], vec![])];
    let rows = flat(&data, &["name", "age"], None);
    let row = &rows[0];
    assert_eq!(row[0], "张三");
    assert_eq!(row[1], "");
}

#[test]
fn test_tree_custom_children_key_logic() {
    let data = vec![record(vec![("name", text("A"))], vec![record(vec![("name", text("B"))], vec![])])];
    let rows = flat(&data, &["name"], None);
    assert_eq!(rows.len(), 2);
}

#[test]
fn test_freeze_pane_strategy_selection() {
    assert_eq!(determine_freeze_pane(Some((3, 1)), 1), Some((3, 1)));
    assert_eq!(determine_freeze_pane(None, 2), Some((2, 0)));
    assert_eq!(determine_freeze_pane(Some((0, 0)), 1), Some((0, 0)));
    assert_eq!(determine_freeze_pane(None, 0), None);
}

#[test]
fn tree_deeper_than_limit_is_refused() {
    let mut data = vec![named("leaf", "", vec![])];
    for _ in 0..MAX_DEPTH {
        data = vec![named("n", "", data)];
    }
    let mut rows = Vec::new();
    assert_eq!(flatten_tree_data(&data, &keys(&["name"]), None, 0, &mut rows), Err(ExtractError::TooDeep));
}

#[test]
fn indent_touches_only_the_indent_column() {
    let data = vec![record(vec![("name", text("A")), ("age", text("10"))], vec![record(vec![("name", text("B")), ("age", text("5"))], vec![])])];
    let rows = flat(&data, &["name", "age"], Some("name"));
    assert_eq!(rows.len(), 2);
    assert_eq!(rows[1][0], "    B");
    assert_eq!(rows[1][1], "5");
}

#[test]
fn plain_object_is_not_a_directive() {
    let obj = RawCell { text: "{name: test}".to_string(), is_object: true, value: None, col_span: SpanAttr::Missing, row_span: SpanAttr::Missing };
    let info = parse_cell_value(&obj);
    assert_eq!(info.col_span, 1);
    assert_eq!(info.row_span, 1);
    assert_eq!(info.value, "{name: test}");
    let non_number = parse_cell_value(&spanned("v", SpanAttr::NotNumber, SpanAttr::Number(3)));
    assert_eq!((non_number.col_span, non_number.row_span), (1, 3));
}

#[test]
fn directives_are_limited_to_the_table() {
    let one = vec![record(vec![("a", spanned("v", SpanAttr::Missing, SpanAttr::Number(2)))], vec![])];
    let (_, merges) = extract_data_rows(&one, &keys(&["a", "b"]), 0).unwrap();
    assert!(merges.is_empty());
    let wide = vec![
        record(vec![("b", spanned("v", SpanAttr::Number(5), SpanAttr::Number(9)))], vec![]),
        record(vec![], vec![]),
    ];
    let (_, merges) = extract_data_rows(&wide, &keys(&["a", "b", "c"]), 1).unwrap();
    assert_eq!(merges, vec![MergeRange::new(1, 1, 2, 2)]);
}

#[test]
fn directive_beyond_addressable_columns_is_refused() {
    let names: Vec<String> = (0..70_000).map(|i| format!("k{}", i)).collect();
    let far = vec![record(vec![("k66000", spanned("v", SpanAttr::Number(2), SpanAttr::Missing))], vec![])];
    assert_eq!(extract_data_rows(&far, &names, 0), Err(ExtractError::ColumnLimit));
    let near = vec![record(vec![("k10", spanned("v", SpanAttr::Number(2), SpanAttr::Missing))], vec![])];
    let (rows, merges) = extract_data_rows(&near, &names, 0).unwrap();
    assert_eq!(rows[0].len(), 70_000);
    assert_eq!(merges, vec![MergeRange::new(0, 10, 0, 11)]);
}

#[test]
fn too_deep_tree_leaves_rows_untouched() {
    let mut data = vec![named("leaf", "", vec![])];
    for _ in 0..MAX_DEPTH {
        data = vec![named("n", "", data)];
    }
    let mut rows = vec![vec!["kept".to_string()]];
    assert_eq!(flatten_tree_data(&data, &keys(&["name"]), None, 0, &mut rows), Err(ExtractError::TooDeep));
    assert_eq!(rows, vec![vec!["kept"]]);
}
