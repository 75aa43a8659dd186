use belobog_stellar_grid::header::{
    build_header_rows, calc_depth, calc_leaf_count, collect_leaf_keys, fill_header_cells,
    parse_columns, ColumnError, ColumnNode, ColumnSpec,
};
use belobog_stellar_grid::MergeRange;

fn leaf(title: &str, key: &str) -> ColumnNode {
    ColumnNode { title: title.to_string(), key: Some(key.to_string()), children: vec![] }
}

fn group(title: &str, children: Vec<ColumnNode>) -> ColumnNode {
    ColumnNode { title: title.to_string(), key: None, children }
}

fn spec_leaf(title: &str, key: &str) -> ColumnSpec {
    ColumnSpec { title: Some(title.to_string()), key: Some(key.to_string()), children: vec![] }
}

fn spec_group(title: &str, children: Vec<ColumnSpec>) -> ColumnSpec {
    ColumnSpec { title: Some(title.to_string()), key: None, children }
}

#[test]
fn test_calc_depth_single_level() {
    let nodes = vec![leaf("A", "a"), leaf("B", "b")];
    assert_eq!(calc_depth(&nodes), 1);
}

#[test]
fn test_calc_depth_nested() {
    let nodes = vec![leaf("A", "a"), group("Group", vec![leaf("B", "b"), leaf("C", "c")])];
    assert_eq!(calc_depth(&nodes), 2);
}

#[test]
fn test_calc_depth_deeply_nested() {
    let nodes = vec![group("L1", vec![group("L2", vec![leaf("L3", "l3")])])];
    assert_eq!(calc_depth(&nodes), 3);
}

#[test]
fn test_calc_leaf_count() {
    let node = group("Group", vec![leaf("A", "a"), leaf("B", "b")]);
    assert_eq!(calc_leaf_count(&node), 2);
}

#[test]
fn test_collect_leaf_keys() {
    let nodes = vec![
        leaf("姓名", "name"),
        group("其他", vec![leaf("年龄", "age"), leaf("住址", "address")]),
    ];
    assert_eq!(collect_leaf_keys(&nodes), vec!["name", "age", "address"]);
}

#[test]
fn test_build_header_rows_single_level() {
    let nodes = vec![leaf("A", "a"), leaf("B", "b")];
    let (rows, merges) = build_header_rows(&nodes, 1).unwrap();
    assert_eq!(rows, vec![vec!["A".to_string(), "B".to_string()]]);
    assert!(merges.is_empty());
}

#[test]
fn test_build_header_rows_nested() {
    let nodes = vec![
        leaf("姓名", "name"),
        group("其他", vec![leaf("年龄", "age"), leaf("住址", "address")]),
    ];

    let (rows, merges) = build_header_rows(&nodes, 2).unwrap();

    assert_eq!(rows[0], vec!["姓名", "其他", ""]);
    assert_eq!(rows[1], vec!["", "年龄", "住址"]);

    assert_eq!(merges.len(), 2);

    assert_eq!(merges[0].first_row, 0);
    assert_eq!(merges[0].first_col, 0);
    assert_eq!(merges[0].last_row, 1);
    assert_eq!(merges[0].last_col, 0);

    assert_eq!(merges[1].first_row, 0);
    assert_eq!(merges[1].first_col, 1);
    assert_eq!(merges[1].last_row, 0);
    assert_eq!(merges[1].last_col, 2);
}

#[test]
fn test_build_header_rows_three_level() {
    let nodes = vec![
        leaf("ID", "id"),
        group(
            "基本信息",
            vec![leaf("姓名", "name"), group("联系方式", vec![leaf("电话", "phone"), leaf("邮箱", "email")])],
        ),
        leaf("部门", "dept"),
    ];

    let (rows, merges) = build_header_rows(&nodes, 3).unwrap();

    assert_eq!(rows.len(), 3);
    assert_eq!(rows[0], vec!["ID", "基本信息", "", "", "部门"]);
    assert_eq!(rows[1], vec!["", "姓名", "联系方式", "", ""]);
    assert_eq!(rows[2], vec!["", "", "电话", "邮箱", ""]);
    assert_eq!(merges.len(), 5);
}

#[test]
fn test_fill_header_cells_returns_consumed_cols() {
    let nodes = vec![leaf("A", "a"), group("Group", vec![leaf("B", "b"), leaf("C", "c")])];

    let mut header_rows = vec![vec![String::new(); 3]; 2];
    let mut merge_ranges = Vec::new();
    let consumed = fill_header_cells(&nodes, 0, 0, 2, &mut header_rows, &mut merge_ranges);

    assert_eq!(consumed, 3);
}

#[test]
fn test_collect_leaf_keys_empty() {
    let nodes: Vec<ColumnNode> = vec![];
    let keys = collect_leaf_keys(&nodes);
    assert!(keys.is_empty());
}

#[test]
fn test_calc_leaf_count_nested() {
    let node = group("Top", vec![leaf("A", "a"), group("Sub", vec![leaf("B", "b"), leaf("C", "c")])]);
    assert_eq!(calc_leaf_count(&node), 3);
}

#[test]
fn nested_header_name_and_info() {
    let specs = vec![
        spec_leaf("Name", "name"),
        spec_group("Info", vec![spec_leaf("Age", "age"), spec_leaf("City", "city")]),
    ];
    let nodes = parse_columns(&specs).unwrap();
    let depth = calc_depth(&nodes);
    assert_eq!(depth, 2);
    let (rows, merges) = build_header_rows(&nodes, depth).unwrap();
    assert_eq!(rows[0], vec!["Name", "Info", ""]);
    assert_eq!(rows[1], vec!["", "Age", "City"]);
    assert_eq!(merges, vec![MergeRange::new(0, 0, 1, 0), MergeRange::new(0, 1, 0, 2)]);
    assert_eq!(collect_leaf_keys(&nodes), vec!["name", "age", "city"]);
}

#[test]
fn column_definitions_are_checked() {
    assert_eq!(parse_columns(&vec![]), Err(ColumnError::EmptyColumns));
    let untitled = vec![spec_leaf("A", "a"), ColumnSpec { title: None, key: Some("b".into()), children: vec![] }];
    assert_eq!(parse_columns(&untitled), Err(ColumnError::MissingTitle(1)));
    let keyless = vec![ColumnSpec { title: Some("A".into()), key: None, children: vec![] }];
    assert_eq!(parse_columns(&keyless), Err(ColumnError::MissingKey("A".to_string())));
    let mut deep = spec_leaf("L", "l");
    for _ in 0..70 {
        deep = spec_group("G", vec![deep]);
    }
    assert_eq!(parse_columns(&vec![deep]), Err(ColumnError::TooDeep));
}

#[test]
fn oversized_header_is_refused() {
    let nodes: Vec<ColumnNode> = (0..50_001).map(|i| leaf("c", &i.to_string())).collect();
    let nested = vec![group("g", nodes)];
    assert_eq!(build_header_rows(&nested, 2), Err(ColumnError::TooLarge));
}

#[test]
fn wide_flat_header_is_accepted() {
    let nodes: Vec<ColumnNode> = (0..70_000).map(|i| leaf("c", &i.to_string())).collect();
    let (rows, merges) = build_header_rows(&nodes, 1).unwrap();
    assert_eq!(rows.len(), 1);
    assert_eq!(rows[0].len(), 70_000);
    assert!(merges.is_empty());
}
