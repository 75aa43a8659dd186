use belobog_stellar_grid::records::{flatten_tree_data, parse_cell_value, RawCell, Record, SpanAttr};

fn plain(text: &str) -> RawCell {
    RawCell { text: text.to_string(), is_object: false, value: None, col_span: SpanAttr::Missing, row_span: SpanAttr::Missing }
}

fn object(value: Option<&str>, col_span: SpanAttr, row_span: SpanAttr) -> RawCell {
    RawCell {
        text: "[object Object]".to_string(),
        is_object: true,
        value: value.map(|v| v.to_string()),
        col_span,
        row_span,
    }
}

fn node(name: &str, children: Vec<Record>) -> Record {
    Record { fields: vec![("name".to_string(), plain(name))], children }
}

fn names(data: &Vec<Record>, indent: Option<&str>) -> Vec<Vec<String>> {
    let mut rows = Vec::new();
    flatten_tree_data(data, &vec!["name".to_string()], indent, 0, &mut rows).unwrap();
    rows
}

#[test]
fn test_parse_cell_value_plain_string() {
    let info = parse_cell_value(&plain("张三"));
    assert_eq!(info.value, "张三");
    assert_eq!(info.col_span, 1);
    assert_eq!(info.row_span, 1);
}

#[test]
fn test_parse_cell_value_plain_number() {
    let info = parse_cell_value(&plain("42"));
    assert_eq!(info.value, "42");
    assert_eq!(info.col_span, 1);
    assert_eq!(info.row_span, 1);
}

#[test]
fn test_parse_cell_value_null() {
    let info_null = parse_cell_value(&plain(""));
    assert_eq!(info_null.value, "");
    assert_eq!(info_null.col_span, 1);
    assert_eq!(info_null.row_span, 1);

    let info_undef = parse_cell_value(&plain(""));
    assert_eq!(info_undef.value, "");
    assert_eq!(info_undef.col_span, 1);
    assert_eq!(info_undef.row_span, 1);
}

#[test]
fn test_parse_cell_value_with_row_span() {
    let info = parse_cell_value(&object(Some("张三"), SpanAttr::Missing, SpanAttr::Number(2)));
    assert_eq!(info.value, "张三");
    assert_eq!(info.col_span, 1);
    assert_eq!(info.row_span, 2);
}

#[test]
fn test_parse_cell_value_with_col_span() {
    let info = parse_cell_value(&object(Some("北京"), SpanAttr::Number(3), SpanAttr::Missing));
    assert_eq!(info.value, "北京");
    assert_eq!(info.col_span, 3);
    assert_eq!(info.row_span, 1);
}

#[test]
fn test_parse_cell_value_span_zero() {
    let info = parse_cell_value(&object(Some(""), SpanAttr::Missing, SpanAttr::Number(0)));
    assert_eq!(info.value, "");
    assert_eq!(info.col_span, 1);
    assert_eq!(info.row_span, 0);
}

#[test]
fn test_parse_cell_value_with_both_spans() {
    let info = parse_cell_value(&object(Some("合并"), SpanAttr::Number(2), SpanAttr::Number(3)));
    assert_eq!(info.value, "合并");
    assert_eq!(info.col_span, 2);
    assert_eq!(info.row_span, 3);
}

#[test]
fn test_parse_cell_value_plain_object() {
    let info = parse_cell_value(&object(None, SpanAttr::Missing, SpanAttr::Missing));
    assert_eq!(info.col_span, 1);
    assert_eq!(info.row_span, 1);
}

#[test]
fn test_flatten_tree_data_basic() {
    let rows = names(&vec![node("A", vec![node("B", vec![])])], None);
    assert_eq!(rows.len(), 2);
    assert_eq!(rows[0][0], "A");
    assert_eq!(rows[1][0], "B");
}

#[test]
fn test_flatten_tree_data_with_indent() {
    let rows = names(&vec![node("根", vec![node("子", vec![node("孙", vec![])])])], Some("name"));
    assert_eq!(rows.len(), 3);
    assert_eq!(rows[0][0], "根");
    assert_eq!(rows[1][0], "    子");
    assert_eq!(rows[2][0], "        孙");
}

#[test]
fn test_flatten_tree_data_custom_children_key() {
    let rows = names(&vec![node("A", vec![node("B", vec![])])], None);
    assert_eq!(rows.len(), 2);
    assert_eq!(rows[0][0], "A");
    assert_eq!(rows[1][0], "B");
}

#[test]
fn test_flatten_tree_data_empty() {
    let rows = names(&vec![], None);
    assert!(rows.is_empty());
}

#[test]
fn test_flatten_tree_data_multiple_roots() {
    let rows = names(&vec![node("A", vec![]), node("B", vec![]), node("C", vec![])], None);
    assert_eq!(rows.len(), 3);
    assert_eq!(rows[0][0], "A");
    assert_eq!(rows[1][0], "B");
    assert_eq!(rows[2][0], "C");
}

#[test]
fn test_flatten_tree_indent_only_affects_target_column() {
    let child = Record {
        fields: vec![("name".to_string(), plain("B")), ("age".to_string(), plain("5"))],
        children: vec![],
    };
    let root = Record {
        fields: vec![("name".to_string(), plain("A")), ("age".to_string(), plain("10"))],
        children: vec![child],
    };
    let mut rows = Vec::new();
    flatten_tree_data(&vec![root], &vec!["name".to_string(), "age".to_string()], Some("name"), 0, &mut rows).unwrap();
    assert_eq!(rows.len(), 2);
    assert_eq!(rows[1][0], "    B");
    assert_eq!(rows[1][1], "5");
}
