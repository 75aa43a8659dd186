//! The multi-row header built from a nested column definition.
use vstd::prelude::*;

use crate::table::{all_proper, all_within, MergeRange};
use crate::text::{grid_view, strs};

verus! {

/// Deepest nesting a column definition may have.
pub const MAX_DEPTH: usize = 64;

/// Most cells a header (columns times rows) may hold.
pub const MAX_HEADER_CELLS: usize = 100_000;

/// Most columns a merge region can address.
pub const MAX_HEADER_COLUMNS: usize = 65_536;

/// A column definition as given by the caller: a title, a data key for a
/// leaf, and child columns for a group.
#[derive(Debug, PartialEq, Eq)]
pub struct ColumnSpec {
    pub title: Option<String>,
    pub key: Option<String>,
    pub children: Vec<ColumnSpec>,
}

/// A checked column: a leaf (no children) always carries a key.
#[derive(Debug, PartialEq, Eq)]
pub struct ColumnNode {
    pub title: String,
    pub key: Option<String>,
    pub children: Vec<ColumnNode>,
}

/// Why a column definition was rejected.
#[derive(Debug, Clone, PartialEq, Eq)]
pub enum ColumnError {
    /// Nested deeper than `MAX_DEPTH` levels.
    TooDeep,
    /// A list of columns is empty.
    EmptyColumns,
    /// The column at this 0-based position of its list has no title.
    MissingTitle(u32),
    /// The leaf column with this title has no key.
    MissingKey(String),
    /// The header would have more cells or columns than allowed.
    TooLarge,
}

/// The first problem, in definition order, of a non-empty list of columns
/// at nesting level `depth`.
pub open spec fn items_error(specs: Seq<ColumnSpec>, depth: int) -> Option<ColumnError>
    decreases specs,
{
    if specs.len() == 0 {
        None
    } else {
        let n = specs.len() - 1;
        let prev = items_error(specs.subrange(0, n), depth);
        let s = specs[n];
        if prev is Some {
            prev
        } else if s.title is None {
            Some(ColumnError::MissingTitle(n as u32))
        } else if s.children@.len() > 0 && depth + 1 >= MAX_DEPTH {
            Some(ColumnError::TooDeep)
        } else if s.children@.len() > 0 {
            items_error(s.children@, depth + 1)
        } else if s.key is None {
            Some(ColumnError::MissingKey(s.title->0))
        } else {
            None
        }
    }
}

/// The first problem of a list of columns at nesting level `depth`.
pub open spec fn forest_error(specs: Seq<ColumnSpec>, depth: int) -> Option<ColumnError> {
    if depth >= MAX_DEPTH {
        Some(ColumnError::TooDeep)
    } else if specs.len() == 0 {
        Some(ColumnError::EmptyColumns)
    } else {
        items_error(specs, depth)
    }
}

/// `nodes` hold what `specs` define: the same titles, keys and children.
pub open spec fn forest_matches(specs: Seq<ColumnSpec>, nodes: Seq<ColumnNode>) -> bool
    decreases specs,
{
    if specs.len() != nodes.len() {
        false
    } else if specs.len() == 0 {
        true
    } else {
        let n = specs.len() - 1;
        &&& forest_matches(specs.subrange(0, n), nodes.subrange(0, n))
        &&& specs[n].title == Some(nodes[n].title)
        &&& specs[n].key == nodes[n].key
        &&& forest_matches(specs[n].children@, nodes[n].children@)
    }
}

proof fn lemma_children_smaller(specs: Seq<ColumnSpec>, i: int)
    requires
        0 <= i < specs.len(),
    ensures
        decreases_to!(specs => specs[i].children@),
{
    assert(decreases_to!(specs => specs[i]));
    assert(decreases_to!(specs[i] => specs[i].children));
    assert(decreases_to!(specs[i].children => specs[i].children@));
}

/// Checks and converts a list of column definitions (at nesting level 0).
pub fn parse_columns(specs: &Vec<ColumnSpec>) -> (r: Result<Vec<ColumnNode>, ColumnError>)
    ensures
        match r {
            Ok(nodes) => forest_error(specs@, 0) is None && forest_matches(specs@, nodes@),
            Err(e) => forest_error(specs@, 0) == Some(e),
        },
{
    parse_columns_with_depth(specs, 0)
}

/// Checks and converts a list of column definitions at nesting level `depth`.
pub fn parse_columns_with_depth(specs: &Vec<ColumnSpec>, depth: usize) -> (r: Result<
    Vec<ColumnNode>,
    ColumnError,
>)
    ensures
        match r {
            Ok(nodes) => forest_error(specs@, depth as int) is None && forest_matches(specs@, nodes@),
            Err(e) => forest_error(specs@, depth as int) == Some(e),
        },
    decreases specs@, 1int,
{
    if depth >= MAX_DEPTH {
        return Err(ColumnError::TooDeep);
    }
    if specs.len() == 0 {
        return Err(ColumnError::EmptyColumns);
    }
    let mut nodes: Vec<ColumnNode> = Vec::new();
    let mut i: usize = 0;
    proof {
        assert(specs@.subrange(0, 0) =~= Seq::<ColumnSpec>::empty());
        assert(nodes@.subrange(0, 0) =~= nodes@);
    }
    while i < specs.len()
        invariant
            0 <= i <= specs.len(),
            depth < MAX_DEPTH,
            nodes.len() == i,
            items_error(specs@.subrange(0, i as int), depth as int) is None,
            forest_matches(specs@.subrange(0, i as int), nodes@),
        decreases specs.len() - i,
    {
        proof {
            lemma_children_smaller(specs@, i as int);
            assert(specs@.subrange(0, i + 1).subrange(0, i as int) =~= specs@.subrange(0, i as int));
            assert(specs@.subrange(0, i + 1)[i as int] == specs@[i as int]);
        }
        let ghost prefix_nodes = nodes@;
        match parse_column_node_with_depth(&specs[i], i as u32, depth) {
            Ok(node) => {
                nodes.push(node);
                proof {
                    assert(nodes@.subrange(0, i as int) =~= prefix_nodes);
                }
            },
            Err(e) => {
                proof {
                    assert(specs@.subrange(0, i + 1).len() == i + 1);
                    lemma_items_error_extends(specs@, depth as int, i as int + 1);
                }
                return Err(e);
            },
        }
        i = i + 1;
    }
    proof {
        assert(specs@.subrange(0, i as int) =~= specs@);
    }
    Ok(nodes)
}

proof fn lemma_items_error_extends(specs: Seq<ColumnSpec>, depth: int, k: int)
    requires
        0 <= k <= specs.len(),
        items_error(specs.subrange(0, k), depth) is Some,
    ensures
        items_error(specs, depth) == items_error(specs.subrange(0, k), depth),
    decreases specs.len() - k,
{
    if k < specs.len() {
        let m = specs.len() - 1;
        assert(specs.subrange(0, m).subrange(0, k) =~= specs.subrange(0, k));
        lemma_items_error_extends(specs.subrange(0, m), depth, k);
    } else {
        assert(specs.subrange(0, k) =~= specs);
    }
}

/// Checks and converts one column definition, the `index`-th of its list.
pub fn parse_column_node_with_depth(item: &ColumnSpec, index: u32, depth: usize) -> (r: Result<
    ColumnNode,
    ColumnError,
>)
    requires
        depth < MAX_DEPTH,
    ensures
        ({
            let one = seq![*item];
            let e = if item.title is None {
                Some(ColumnError::MissingTitle(index))
            } else if item.children@.len() > 0 && depth + 1 >= MAX_DEPTH {
                Some(ColumnError::TooDeep)
            } else if item.children@.len() > 0 {
                items_error(item.children@, depth + 1)
            } else if item.key is None {
                Some(ColumnError::MissingKey(item.title->0))
            } else {
                None
            };
            match r {
                Ok(node) => e is None && item.title == Some(node.title) && item.key == node.key
                    && forest_matches(item.children@, node.children@),
                Err(err) => e == Some(err),
            }
        }),
    decreases *item, 0int,
{
    let title = match &item.title {
        Some(t) => t.clone(),
        None => {
            return Err(ColumnError::MissingTitle(index));
        },
    };
    let key = match &item.key {
        Some(k) => Some(k.clone()),
        None => None,
    };
    let children = if item.children.len() > 0 {
        proof {
            assert(decreases_to!(*item => item.children));
            assert(decreases_to!(item.children => item.children@));
        }
        match parse_columns_with_depth(&item.children, depth + 1) {
            Ok(c) => c,
            Err(e) => {
                return Err(e);
            },
        }
    } else {
        Vec::new()
    };
    if children.len() == 0 && key.is_none() {
        return Err(ColumnError::MissingKey(title));
    }
    proof {
        if item.children@.len() == 0 {
            assert(forest_matches(item.children@, children@));
        }
    }
    Ok(ColumnNode { title, key, children })
}


/// The depth of a list of columns: 0 when empty, else the largest depth of
/// its columns, where a leaf has depth 1 and a group 1 more than its children.
pub open spec fn forest_depth(ns: Seq<ColumnNode>) -> nat
    decreases ns,
{
    if ns.len() == 0 {
        0
    } else {
        let n = ns.len() - 1;
        let prev = forest_depth(ns.subrange(0, n));
        let d: nat = if ns[n].children@.len() == 0 {
            1
        } else {
            1 + forest_depth(ns[n].children@)
        };
        if prev >= d {
            prev
        } else {
            d
        }
    }
}

/// How many leaves a list of columns has, counting every level.
pub open spec fn forest_leaves(ns: Seq<ColumnNode>) -> nat
    decreases ns,
{
    if ns.len() == 0 {
        0
    } else {
        let n = ns.len() - 1;
        forest_leaves(ns.subrange(0, n)) + if ns[n].children@.len() == 0 {
            1
        } else {
            forest_leaves(ns[n].children@)
        }
    }
}

/// The leaves of one column: 1 for a leaf, else those of its children. This
/// is the number of output columns the column spans.
pub open spec fn leaf_count(n: ColumnNode) -> nat {
    if n.children@.len() == 0 {
        1
    } else {
        forest_leaves(n.children@)
    }
}

/// The keys of the leaves, depth first and left to right.
pub open spec fn forest_keys(ns: Seq<ColumnNode>) -> Seq<Seq<char>>
    decreases ns,
{
    if ns.len() == 0 {
        Seq::empty()
    } else {
        let n = ns.len() - 1;
        forest_keys(ns.subrange(0, n)) + if ns[n].children@.len() == 0 {
            match ns[n].key {
                Some(k) => seq![k@],
                None => Seq::empty(),
            }
        } else {
            forest_keys(ns[n].children@)
        }
    }
}

proof fn lemma_node_children_smaller(ns: Seq<ColumnNode>, i: int)
    requires
        0 <= i < ns.len(),
    ensures
        decreases_to!(ns => ns[i].children@),
{
    assert(decreases_to!(ns => ns[i]));
    assert(decreases_to!(ns[i] => ns[i].children));
    assert(decreases_to!(ns[i].children => ns[i].children@));
}

proof fn lemma_depth_bounds_item(ns: Seq<ColumnNode>, i: int)
    requires
        0 <= i < ns.len(),
    ensures
        forest_depth(ns) >= 1,
        ns[i].children@.len() > 0 ==> forest_depth(ns) >= 1 + forest_depth(ns[i].children@),
    decreases ns.len(),
{
    let n = ns.len() - 1;
    if i < n {
        assert(ns.subrange(0, n)[i] == ns[i]);
        lemma_depth_bounds_item(ns.subrange(0, n), i);
    }
}

proof fn lemma_leaves_prefix(ns: Seq<ColumnNode>, k: int)
    requires
        0 <= k <= ns.len(),
    ensures
        forest_leaves(ns.subrange(0, k)) <= forest_leaves(ns),
    decreases ns.len() - k,
{
    if k < ns.len() {
        let m = ns.len() - 1;
        assert(ns.subrange(0, m).subrange(0, k) =~= ns.subrange(0, k));
        lemma_leaves_prefix(ns.subrange(0, m), k);
    } else {
        assert(ns.subrange(0, k) =~= ns);
    }
}

proof fn lemma_unfold_prefix(ns: Seq<ColumnNode>, i: int)
    requires
        0 <= i < ns.len(),
    ensures
        ns.subrange(0, i + 1).subrange(0, i) == ns.subrange(0, i),
        ns.subrange(0, i + 1)[i] == ns[i],
        ns.subrange(0, i + 1).len() == i + 1,
        forest_leaves(ns.subrange(0, i + 1)) == forest_leaves(ns.subrange(0, i)) + leaf_count(ns[i]),
        forest_leaves(ns.subrange(0, i + 1)) <= forest_leaves(ns),
{
    assert(ns.subrange(0, i + 1).subrange(0, i) =~= ns.subrange(0, i));
    lemma_leaves_prefix(ns, i + 1);
}

/// A non-empty list of columns none of which has children.
pub open spec fn all_leaves(ns: Seq<ColumnNode>) -> bool {
    ns.len() > 0 && forall|i: int| 0 <= i < ns.len() ==> (#[trigger] ns[i]).children@.len() == 0
}

/// A list of columns has depth 0 exactly when it is empty, and depth 1
/// exactly when it is a non-empty list of leaves.
pub proof fn lemma_depth_zero_or_one(ns: Seq<ColumnNode>)
    ensures
        forest_depth(ns) == 0 <==> ns.len() == 0,
        forest_depth(ns) == 1 <==> all_leaves(ns),
    decreases ns,
{
    if ns.len() > 0 {
        let n = ns.len() - 1;
        let pre = ns.subrange(0, n);
        lemma_depth_zero_or_one(pre);
        if ns[n].children@.len() > 0 {
            lemma_node_children_smaller(ns, n);
            lemma_depth_zero_or_one(ns[n].children@);
        }
        if all_leaves(ns) && n > 0 {
            assert forall|i: int| 0 <= i < pre.len() implies (#[trigger] pre[i]).children@.len() == 0 by {
                assert(pre[i] == ns[i]);
            }
        }
        if forest_depth(ns) == 1 {
            assert forall|i: int| 0 <= i < ns.len() implies (#[trigger] ns[i]).children@.len() == 0 by {
                if i < n {
                    assert(pre[i] == ns[i]);
                    if forest_depth(pre) == 0 {
                        assert(pre.len() == 0);
                    }
                }
            }
        }
    }
}

/// The depth of the column tree (see `forest_depth`).
pub fn calc_depth(nodes: &Vec<ColumnNode>) -> (r: usize)
    requires
        forest_depth(nodes@) <= usize::MAX,
    ensures
        r == forest_depth(nodes@),
        r == 0 <==> nodes@.len() == 0,
        r == 1 <==> all_leaves(nodes@),
    decreases nodes@,
{
    let mut max: usize = 0;
    let mut i: usize = 0;
    proof {
        assert(nodes@.subrange(0, 0) =~= Seq::<ColumnNode>::empty());
    }
    while i < nodes.len()
        invariant
            0 <= i <= nodes.len(),
            forest_depth(nodes@) <= usize::MAX,
            max == forest_depth(nodes@.subrange(0, i as int)),
        decreases nodes.len() - i,
    {
        let node = &nodes[i];
        proof {
            lemma_unfold_prefix(nodes@, i as int);
            lemma_depth_bounds_item(nodes@, i as int);
            lemma_node_children_smaller(nodes@, i as int);
        }
        let d = if node.children.len() == 0 {
            1
        } else {
            1 + calc_depth(&node.children)
        };
        if d > max {
            max = d;
        }
        i = i + 1;
    }
    proof {
        assert(nodes@.subrange(0, i as int) =~= nodes@);
        lemma_depth_zero_or_one(nodes@);
    }
    max
}

/// Sum of the leaf counts of a list of columns.
fn sum_leaf_counts(nodes: &Vec<ColumnNode>) -> (r: usize)
    requires
        forest_leaves(nodes@) <= usize::MAX,
    ensures
        r == forest_leaves(nodes@),
    decreases nodes@, 0int,
{
    let mut total: usize = 0;
    let mut i: usize = 0;
    proof {
        assert(nodes@.subrange(0, 0) =~= Seq::<ColumnNode>::empty());
    }
    while i < nodes.len()
        invariant
            0 <= i <= nodes.len(),
            forest_leaves(nodes@) <= usize::MAX,
            total == forest_leaves(nodes@.subrange(0, i as int)),
        decreases nodes.len() - i,
    {
        proof {
            lemma_unfold_prefix(nodes@, i as int);
            assert(decreases_to!(nodes@ => nodes@[i as int]));
        }
        let c = calc_leaf_count(&nodes[i]);
        total = total + c;
        i = i + 1;
    }
    proof {
        assert(nodes@.subrange(0, i as int) =~= nodes@);
    }
    total
}

/// The number of leaves of a column: its colspan in the header.
pub fn calc_leaf_count(node: &ColumnNode) -> (r: usize)
    requires
        leaf_count(*node) <= usize::MAX,
    ensures
        r == leaf_count(*node),
        r >= 1,
    decreases *node, 1int,
{
    if node.children.len() == 0 {
        1
    } else {
        proof {
            assert(decreases_to!(*node => node.children));
            assert(decreases_to!(node.children => node.children@));
            lemma_nonempty_has_leaves(node.children@);
        }
        sum_leaf_counts(&node.children)
    }
}

/// The keys of the leaves, depth first and left to right: the order of the
/// output columns.
pub fn collect_leaf_keys(nodes: &Vec<ColumnNode>) -> (r: Vec<String>)
    ensures
        strs(r@) == forest_keys(nodes@),
        leaves_keyed(nodes@) ==> r@.len() == forest_leaves(nodes@),
    decreases nodes@,
{
    let mut keys: Vec<String> = Vec::new();
    let mut i: usize = 0;
    proof {
        assert(nodes@.subrange(0, 0) =~= Seq::<ColumnNode>::empty());
        assert(strs(keys@) =~= Seq::<Seq<char>>::empty());
    }
    while i < nodes.len()
        invariant
            0 <= i <= nodes.len(),
            strs(keys@) == forest_keys(nodes@.subrange(0, i as int)),
        decreases nodes.len() - i,
    {
        let node = &nodes[i];
        proof {
            lemma_unfold_prefix(nodes@, i as int);
            lemma_node_children_smaller(nodes@, i as int);
        }
        let ghost before = strs(keys@);
        if node.children.len() == 0 {
            match &node.key {
                Some(key) => {
                    keys.push(key.clone());
                    proof {
                        assert(strs(keys@) =~= before + seq![key@]);
                    }
                },
                None => {
                    assert(before + Seq::<Seq<char>>::empty() =~= before);
                },
            }
        } else {
            let sub = collect_leaf_keys(&node.children);
            let mut j: usize = 0;
            while j < sub.len()
                invariant
                    0 <= j <= sub.len(),
                    strs(keys@) == before + strs(sub@).subrange(0, j as int),
                decreases sub.len() - j,
            {
                let ghost b2 = strs(keys@);
                keys.push(sub[j].clone());
                proof {
                    assert(strs(keys@) =~= b2.push(sub@[j as int]@));
                    assert(strs(sub@).subrange(0, j + 1) =~= strs(sub@).subrange(0, j as int).push(
                        sub@[j as int]@,
                    ));
                }
                j = j + 1;
            }
            proof {
                assert(strs(sub@).subrange(0, j as int) =~= strs(sub@));
            }
        }
        i = i + 1;
    }
    proof {
        assert(nodes@.subrange(0, i as int) =~= nodes@);
        if leaves_keyed(nodes@) {
            lemma_leaf_count_is_traversal(nodes@);
        }
    }
    keys
}


/// The header grid after laying out `ns` from (`row`, `col`): each column's
/// title is written at its row and its first output column; a group's
/// children are laid out one row lower from the same column; each column
/// moves the next one right by its leaf count.
pub open spec fn layout_cells(
    g: Seq<Seq<Seq<char>>>,
    ns: Seq<ColumnNode>,
    row: int,
    col: int,
) -> Seq<Seq<Seq<char>>>
    decreases ns,
{
    if ns.len() == 0 {
        g
    } else {
        let n = ns.len() - 1;
        let g1 = layout_cells(g, ns.subrange(0, n), row, col);
        let c = col + forest_leaves(ns.subrange(0, n));
        let g2 = g1.update(row, g1[row].update(c, ns[n].title@));
        if ns[n].children@.len() == 0 {
            g2
        } else {
            layout_cells(g2, ns[n].children@, row + 1, c)
        }
    }
}

/// The merge regions of the layout: a leaf reaches down to the last header
/// row and is merged when that spans more than one row; a group is merged
/// across its leaf count when that is more than one. Each column's region
/// comes before those of its children.
pub open spec fn layout_merges(ns: Seq<ColumnNode>, row: int, col: int, max_depth: int) -> Seq<
    MergeRange,
>
    decreases ns,
{
    if ns.len() == 0 {
        Seq::empty()
    } else {
        let n = ns.len() - 1;
        let m1 = layout_merges(ns.subrange(0, n), row, col, max_depth);
        let c = col + forest_leaves(ns.subrange(0, n));
        if ns[n].children@.len() == 0 {
            if max_depth - row > 1 {
                m1.push(
                    MergeRange {
                        first_row: row as u32,
                        first_col: c as u16,
                        last_row: (max_depth - 1) as u32,
                        last_col: c as u16,
                    },
                )
            } else {
                m1
            }
        } else {
            let lc = forest_leaves(ns[n].children@);
            (if lc > 1 {
                m1.push(
                    MergeRange {
                        first_row: row as u32,
                        first_col: c as u16,
                        last_row: row as u32,
                        last_col: (c + lc - 1) as u16,
                    },
                )
            } else {
                m1
            }) + layout_merges(ns[n].children@, row + 1, c, max_depth)
        }
    }
}

proof fn lemma_nonempty_has_leaves(ns: Seq<ColumnNode>)
    ensures
        ns.len() > 0 ==> forest_leaves(ns) >= 1,
        ns.len() > 0 ==> leaf_count(ns[ns.len() - 1]) >= 1,
    decreases ns,
{
    if ns.len() > 0 {
        let n = ns.len() - 1;
        if ns[n].children@.len() > 0 {
            lemma_node_children_smaller(ns, n);
            lemma_nonempty_has_leaves(ns[n].children@);
        }
    }
}

/// Lays out the titles of `nodes` into `header_rows` from (`row`,
/// `col_start`) and appends their merge regions; returns the number of
/// columns used, which is the leaf count of `nodes`.
pub fn fill_header_cells(
    nodes: &Vec<ColumnNode>,
    row: usize,
    col_start: usize,
    max_depth: usize,
    header_rows: &mut Vec<Vec<String>>,
    merge_ranges: &mut Vec<MergeRange>,
) -> (r: usize)
    requires
        row + forest_depth(nodes@) <= max_depth,
        max_depth <= old(header_rows).len(),
        max_depth <= MAX_DEPTH,
        row + 1 < max_depth ==> col_start + forest_leaves(nodes@) <= MAX_HEADER_COLUMNS,
        forall|k: int|
            row <= k < max_depth ==> col_start + forest_leaves(nodes@) <= (#[trigger] old(
                header_rows,
            )@[k]).len(),
    ensures
        r == forest_leaves(nodes@),
        final(header_rows)@.len() == old(header_rows)@.len(),
        forall|k: int|
            0 <= k < old(header_rows)@.len() ==> (#[trigger] final(header_rows)@[k]).len() == old(
                header_rows,
            )@[k].len(),
        grid_view(final(header_rows)@) == layout_cells(
            grid_view(old(header_rows)@),
            nodes@,
            row as int,
            col_start as int,
        ),
        final(merge_ranges)@ == old(merge_ranges)@ + layout_merges(
            nodes@,
            row as int,
            col_start as int,
            max_depth as int,
        ),
    decreases nodes@,
{
    let ghost g0 = grid_view(header_rows@);
    let ghost m0 = merge_ranges@;
    let ghost lens = header_rows@.map_values(|v: Vec<String>| v.len());
    let mut col = col_start;
    let mut i: usize = 0;
    proof {
        assert(nodes@.subrange(0, 0) =~= Seq::<ColumnNode>::empty());
        assert(m0 + Seq::<MergeRange>::empty() =~= m0);
    }
    while i < nodes.len()
        invariant
            0 <= i <= nodes.len(),
            row + forest_depth(nodes@) <= max_depth,
            max_depth <= header_rows.len(),
            max_depth <= MAX_DEPTH,
            row + 1 < max_depth ==> col_start + forest_leaves(nodes@) <= MAX_HEADER_COLUMNS,
            header_rows@.len() == lens.len(),
            forall|k: int| 0 <= k < lens.len() ==> (#[trigger] header_rows@[k]).len() == lens[k],
            forall|k: int| row <= k < max_depth ==> col_start + forest_leaves(nodes@) <= (#[trigger] lens[k]),
            col == col_start + forest_leaves(nodes@.subrange(0, i as int)),
            grid_view(header_rows@) == layout_cells(g0, nodes@.subrange(0, i as int), row as int, col_start as int),
            merge_ranges@ == m0 + layout_merges(nodes@.subrange(0, i as int), row as int, col_start as int, max_depth as int),
        decreases nodes.len() - i,
    {
        let node = &nodes[i];
        proof {
            lemma_unfold_prefix(nodes@, i as int);
            lemma_depth_bounds_item(nodes@, i as int);
            lemma_node_children_smaller(nodes@, i as int);
            lemma_nonempty_has_leaves(nodes@.subrange(0, i + 1));
            assert(lens[row as int] == header_rows@[row as int].len());
        }
        let ghost pre = nodes@.subrange(0, i as int);
        let ghost g1 = grid_view(header_rows@);
        let ghost hr = header_rows@;
        header_rows[row].set(col, node.title.clone());
        proof {
            let target = g1.update(row as int, g1[row as int].update(col as int, node.title@));
            assert(strs(header_rows@[row as int]@) =~= target[row as int]);
            assert forall|k: int| 0 <= k < hr.len() && k != row implies header_rows@[k] == hr[k] by {}
            assert(grid_view(header_rows@) =~= target);
        }
        if node.children.len() == 0 {
            let rowspan = max_depth - row;
            if rowspan > 1 {
                merge_ranges.push(MergeRange::new(row as u32, col as u16, (row + rowspan - 1) as u32, col as u16));
            }
            proof {
                assert(merge_ranges@ =~= m0 + layout_merges(nodes@.subrange(0, i + 1), row as int, col_start as int, max_depth as int));
            }
            col = col + 1;
        } else {
            let leaf_count = calc_leaf_count(node);
            if leaf_count > 1 {
                merge_ranges.push(MergeRange::new(row as u32, col as u16, row as u32, (col + leaf_count - 1) as u16));
            }
            let ghost mid = merge_ranges@;
            fill_header_cells(&node.children, row + 1, col, max_depth, header_rows, merge_ranges);
            proof {
                assert(merge_ranges@ =~= m0 + layout_merges(nodes@.subrange(0, i + 1), row as int, col_start as int, max_depth as int));
            }
            col = col + leaf_count;
        }
        i = i + 1;
    }
    proof {
        assert(nodes@.subrange(0, i as int) =~= nodes@);
    }
    col - col_start
}


/// A header grid of `rows` rows of `cols` empty strings.
pub open spec fn blank_grid(rows: int, cols: int) -> Seq<Seq<Seq<char>>> {
    Seq::new(rows as nat, |i: int| Seq::new(cols as nat, |j: int| Seq::<char>::empty()))
}

/// Whether a header of `total_cols` columns and `max_depth` rows stays within
/// the allowed number of cells.
pub open spec fn header_fits(total_cols: int, max_depth: int) -> bool {
    total_cols * max_depth <= MAX_HEADER_CELLS
}

/// Builds the `max_depth` header rows, one column per leaf, and their merge
/// regions. Fails when the header would be too large.
pub fn build_header_rows(columns: &Vec<ColumnNode>, max_depth: usize) -> (r: Result<
    (Vec<Vec<String>>, Vec<MergeRange>),
    ColumnError,
>)
    requires
        forest_depth(columns@) <= max_depth <= MAX_DEPTH,
    ensures
        match r {
            Ok((rows, merges)) => {
                &&& header_fits(forest_leaves(columns@) as int, max_depth as int)
                &&& all_proper(merges@)
                &&& all_within(merges@, max_depth as int, forest_leaves(columns@) as int)
                &&& rows@.len() == max_depth
                &&& forall|k: int| 0 <= k < rows@.len() ==> (#[trigger] rows@[k])@.len() == forest_leaves(
                    columns@,
                )
                &&& grid_view(rows@) == layout_cells(
                    blank_grid(max_depth as int, forest_leaves(columns@) as int),
                    columns@,
                    0,
                    0,
                )
                &&& merges@ == layout_merges(columns@, 0, 0, max_depth as int)
            },
            Err(e) => e == ColumnError::TooLarge && !header_fits(
                forest_leaves(columns@) as int,
                max_depth as int,
            ),
        },
{
    let total_cols = leaves_capped(columns, MAX_HEADER_CELLS + 1);
    proof {
        if forest_leaves(columns@) > MAX_HEADER_CELLS + 1 && max_depth == 0 {
            lemma_nonempty_has_leaves(columns@);
            assert(columns@.len() > 0);
            lemma_depth_bounds_item(columns@, 0);
        }
    }
    assert(total_cols * max_depth <= (MAX_HEADER_CELLS + 1) * MAX_DEPTH) by (nonlinear_arith)
        requires
            total_cols <= MAX_HEADER_CELLS + 1,
            max_depth <= MAX_DEPTH,
    ;
    if total_cols * max_depth > MAX_HEADER_CELLS {
        proof {
            if forest_leaves(columns@) > MAX_HEADER_CELLS + 1 {
                assert(forest_leaves(columns@) * max_depth >= total_cols * max_depth) by (nonlinear_arith)
                    requires
                        forest_leaves(columns@) >= total_cols,
                        max_depth >= 0,
                ;
            }
        }
        return Err(ColumnError::TooLarge);
    }
    proof {
        if forest_leaves(columns@) > MAX_HEADER_CELLS + 1 {
            assert(false) by (nonlinear_arith)
                requires
                    total_cols == MAX_HEADER_CELLS + 1,
                    total_cols * max_depth <= MAX_HEADER_CELLS,
                    max_depth >= 1,
            ;
        }
        if max_depth >= 2 {
            assert(total_cols <= 50_000) by (nonlinear_arith)
                requires
                    total_cols * max_depth <= MAX_HEADER_CELLS,
                    max_depth >= 2,
            ;
        }
    }
    let ghost blank = blank_grid(max_depth as int, total_cols as int);
    let mut header_rows: Vec<Vec<String>> = Vec::new();
    let mut i: usize = 0;
    while i < max_depth
        invariant
            0 <= i <= max_depth,
            blank == blank_grid(max_depth as int, total_cols as int),
            header_rows@.len() == i,
            forall|k: int| 0 <= k < i ==> (#[trigger] header_rows@[k]).len() == total_cols,
            grid_view(header_rows@) == blank.subrange(0, i as int),
        decreases max_depth - i,
    {
        let mut line: Vec<String> = Vec::new();
        let mut j: usize = 0;
        while j < total_cols
            invariant
                0 <= j <= total_cols,
                i < max_depth,
                blank == blank_grid(max_depth as int, total_cols as int),
                header_rows@.len() == i,
                forall|k: int| 0 <= k < i ==> (#[trigger] header_rows@[k]).len() == total_cols,
                grid_view(header_rows@) == blank.subrange(0, i as int),
                line@.len() == j,
                strs(line@) == Seq::new(j as nat, |t: int| Seq::<char>::empty()),
            decreases total_cols - j,
        {
            let ghost lb = strs(line@);
            line.push(String::new());
            proof {
                assert(strs(line@) =~= lb.push(Seq::<char>::empty()));
                assert(strs(line@) =~= Seq::new((j + 1) as nat, |t: int| Seq::<char>::empty()));
            }
            j = j + 1;
        }
        let ghost before = grid_view(header_rows@);
        let ghost lv = strs(line@);
        header_rows.push(line);
        proof {
            assert(lv =~= blank[i as int]);
            assert(grid_view(header_rows@) =~= before.push(lv));
            assert(grid_view(header_rows@) =~= blank.subrange(0, i + 1));
        }
        i = i + 1;
    }
    proof {
        assert(blank.subrange(0, i as int) =~= blank);
    }
    let mut merge_ranges: Vec<MergeRange> = Vec::new();
    fill_header_cells(columns, 0, 0, max_depth, &mut header_rows, &mut merge_ranges);
    proof {
        lemma_layout_merges_proper(columns@, 0, 0, max_depth as int);
    }
    proof {
        assert(Seq::<MergeRange>::empty() + layout_merges(columns@, 0, 0, max_depth as int)
            =~= layout_merges(columns@, 0, 0, max_depth as int));
    }
    Ok((header_rows, merge_ranges))
}

/// Every leaf carries a key.
pub open spec fn leaves_keyed(ns: Seq<ColumnNode>) -> bool
    decreases ns,
{
    if ns.len() == 0 {
        true
    } else {
        let n = ns.len() - 1;
        &&& leaves_keyed(ns.subrange(0, n))
        &&& if ns[n].children@.len() == 0 {
            ns[n].key is Some
        } else {
            leaves_keyed(ns[n].children@)
        }
    }
}

/// The leaf count of a column tree is the number of leaves a full traversal
/// reaches: when every leaf carries a key, there is one key per leaf.
pub proof fn lemma_leaf_count_is_traversal(ns: Seq<ColumnNode>)
    requires
        leaves_keyed(ns),
    ensures
        forest_keys(ns).len() == forest_leaves(ns),
    decreases ns,
{
    if ns.len() > 0 {
        let n = ns.len() - 1;
        lemma_leaf_count_is_traversal(ns.subrange(0, n));
        if ns[n].children@.len() > 0 {
            lemma_node_children_smaller(ns, n);
            lemma_leaf_count_is_traversal(ns[n].children@);
        }
    }
}

/// The output columns at which the layout from column `col` writes the
/// leaves' titles, depth first and left to right (the order of `forest_keys`).
pub open spec fn leaf_columns(ns: Seq<ColumnNode>, col: int) -> Seq<int>
    decreases ns,
{
    if ns.len() == 0 {
        Seq::empty()
    } else {
        let n = ns.len() - 1;
        let c = col + forest_leaves(ns.subrange(0, n));
        leaf_columns(ns.subrange(0, n), col) + if ns[n].children@.len() == 0 {
            seq![c]
        } else {
            leaf_columns(ns[n].children@, c)
        }
    }
}

/// Reading the layout back: the k-th leaf, in the order of `leaf_keys`, sits
/// in output column `col + k`, so the header's leaf columns line up one to
/// one with the data columns.
pub proof fn lemma_layout_round_trip(ns: Seq<ColumnNode>, col: int)
    ensures
        leaf_columns(ns, col) == Seq::new(forest_leaves(ns), |k: int| col + k),
    decreases ns,
{
    if ns.len() > 0 {
        let n = ns.len() - 1;
        let pre = ns.subrange(0, n);
        let c = col + forest_leaves(pre);
        lemma_layout_round_trip(pre, col);
        if ns[n].children@.len() > 0 {
            lemma_node_children_smaller(ns, n);
            lemma_layout_round_trip(ns[n].children@, c);
            assert(leaf_columns(ns, col) =~= Seq::new(forest_leaves(ns), |k: int| col + k));
        } else {
            assert(leaf_columns(ns, col) =~= Seq::new(forest_leaves(ns), |k: int| col + k));
        }
    } else {
        assert(leaf_columns(ns, col) =~= Seq::new(forest_leaves(ns), |k: int| col + k));
    }
}


/// The leaf count of `nodes`, or `cap` when it is larger.
pub fn leaves_capped(nodes: &Vec<ColumnNode>, cap: usize) -> (r: usize)
    ensures
        r == if forest_leaves(nodes@) <= cap { forest_leaves(nodes@) as int } else { cap as int },
    decreases nodes@,
{
    let mut total: usize = 0;
    let mut i: usize = 0;
    proof {
        assert(nodes@.subrange(0, 0) =~= Seq::<ColumnNode>::empty());
    }
    while i < nodes.len()
        invariant
            0 <= i <= nodes.len(),
            total <= cap,
            forest_leaves(nodes@.subrange(0, i as int)) <= cap ==> total == forest_leaves(nodes@.subrange(0, i as int)),
            forest_leaves(nodes@.subrange(0, i as int)) > cap ==> total == cap,
        decreases nodes.len() - i,
    {
        let node = &nodes[i];
        proof {
            lemma_unfold_prefix(nodes@, i as int);
            lemma_node_children_smaller(nodes@, i as int);
        }
        let c = if node.children.len() == 0 { 1 } else { leaves_capped(&node.children, cap) };
        if c > cap - total {
            total = cap;
        } else {
            total = total + c;
        }
        i = i + 1;
    }
    proof {
        assert(nodes@.subrange(0, i as int) =~= nodes@);
    }
    total
}

/// A list of columns that passed the checks is at most `MAX_DEPTH - depth`
/// deep, and all its leaves carry keys.
pub proof fn lemma_parsed_columns(specs: Seq<ColumnSpec>, nodes: Seq<ColumnNode>, depth: int)
    requires
        0 <= depth < MAX_DEPTH,
        items_error(specs, depth) is None,
        forest_matches(specs, nodes),
    ensures
        forest_depth(nodes) + depth <= MAX_DEPTH,
        leaves_keyed(nodes),
    decreases specs,
{
    if specs.len() > 0 {
        let n = specs.len() - 1;
        assert(nodes.len() == specs.len());
        assert(items_error(specs.subrange(0, n), depth) is None);
        lemma_parsed_columns(specs.subrange(0, n), nodes.subrange(0, n), depth);
        assert(forest_matches(specs[n].children@, nodes[n].children@));
        if specs[n].children@.len() > 0 {
            lemma_children_smaller(specs, n);
            assert(depth + 1 < MAX_DEPTH);
            assert(items_error(specs[n].children@, depth + 1) is None);
            lemma_parsed_columns(specs[n].children@, nodes[n].children@, depth + 1);
            assert(nodes[n].children@.len() > 0);
        } else {
            assert(nodes[n].children@.len() == 0);
            assert(specs[n].key is Some);
        }
    }
}


/// The merge regions of a layout that fits its grid are well formed and
/// each covers more than one cell.
pub proof fn lemma_layout_merges_proper(ns: Seq<ColumnNode>, row: int, col: int, max_depth: int)
    requires
        0 <= row,
        0 <= col,
        row + forest_depth(ns) <= max_depth <= MAX_DEPTH,
        row + 1 < max_depth ==> col + forest_leaves(ns) <= MAX_HEADER_COLUMNS,
    ensures
        all_proper(layout_merges(ns, row, col, max_depth)),
        all_within(layout_merges(ns, row, col, max_depth), max_depth, col + forest_leaves(ns)),
    decreases ns,
{
    if ns.len() > 0 {
        let n = ns.len() - 1;
        let pre = ns.subrange(0, n);
        lemma_unfold_prefix(ns, n);
        lemma_depth_bounds_item(ns, n);
        lemma_prefix_depth_bound(ns, n);
        lemma_nonempty_has_leaves(ns);
        lemma_layout_merges_proper(pre, row, col, max_depth);
        let m1 = layout_merges(pre, row, col, max_depth);
        let c = col + forest_leaves(pre);
        if ns[n].children@.len() > 0 {
            lemma_node_children_smaller(ns, n);
            lemma_layout_merges_proper(ns[n].children@, row + 1, c, max_depth);
            let lc = forest_leaves(ns[n].children@);
            let head = if lc > 1 {
                m1.push(
                    MergeRange {
                        first_row: row as u32,
                        first_col: c as u16,
                        last_row: row as u32,
                        last_col: (c + lc - 1) as u16,
                    },
                )
            } else {
                m1
            };
            let tail = layout_merges(ns[n].children@, row + 1, c, max_depth);
            assert(all_proper(head));
            let bound = col + forest_leaves(ns);
            assert forall|i: int| 0 <= i < head.len() implies (#[trigger] head[i]).last_row < max_depth
                && head[i].last_col < bound by {
                if i < m1.len() {
                    assert(head[i] == m1[i]);
                }
            }
            assert forall|i: int| 0 <= i < head.len() + tail.len() implies (#[trigger] (head + tail)[i]).is_proper()
                && (head + tail)[i].last_row < max_depth && (head + tail)[i].last_col < bound by {
                if i < head.len() {
                    assert((head + tail)[i] == head[i]);
                } else {
                    assert((head + tail)[i] == tail[i - head.len()]);
                }
            }
        } else {
            let bound = col + forest_leaves(ns);
            let all = layout_merges(ns, row, col, max_depth);
            assert forall|i: int| 0 <= i < all.len() implies (#[trigger] all[i]).last_row < max_depth
                && all[i].last_col < bound by {
                if i < m1.len() {
                    assert(all[i] == m1[i]);
                }
            }
        }
    }
}

proof fn lemma_prefix_depth_bound(ns: Seq<ColumnNode>, k: int)
    requires
        0 <= k <= ns.len(),
    ensures
        forest_depth(ns.subrange(0, k)) <= forest_depth(ns),
    decreases ns.len() - k,
{
    if k < ns.len() {
        let m = ns.len() - 1;
        assert(ns.subrange(0, m).subrange(0, k) =~= ns.subrange(0, k));
        lemma_prefix_depth_bound(ns.subrange(0, m), k);
    } else {
        assert(ns.subrange(0, k) =~= ns);
    }
}

} // verus!
