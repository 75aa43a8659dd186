//! Pending texts owed to later rows by cells with a `rowspan`.
use std::collections::HashMap;
use vstd::prelude::*;

verus! {

broadcast use vstd::std_specs::hash::group_hash_axioms;

/// Largest column index a pending entry can be addressed by.
pub const MAX_TRACKED_COLUMN: usize = 0xFFFF_FFFE;

/// A cell's text and its spans, each at least 1 when read from a table.
#[derive(Debug, Clone, PartialEq, Eq)]
pub struct CellSpan {
    pub text: String,
    pub colspan: u32,
    pub rowspan: u32,
}

/// Pending entries keyed by (source row, output column).
pub type PendingMap = Map<(int, int), Seq<char>>;

/// The key under which the entry for (`row`, `col`) is stored.
pub open spec fn key_of(row: int, col: int) -> int {
    row * 0x1_0000_0000 + col
}

/// A pair that a pending entry can be stored under.
pub open spec fn addressable(k: (int, int)) -> bool {
    0 <= k.0 <= u32::MAX && 0 <= k.1 <= MAX_TRACKED_COLUMN
}

/// The block that a cell at (`row`, `col`) with these spans owes to the rows below it.
pub open spec fn owed_by(k: (int, int), row: int, col: int, colspan: int, rowspan: int) -> bool {
    row + 1 <= k.0 < row + rowspan && k.0 <= u32::MAX && col <= k.1 < col + colspan
}

/// The pending map after recording a cell at (`row`, `col`): every row below it
/// that its `rowspan` reaches gets an entry in each column it spans; the first
/// column holds the cell's text and the others hold the empty string. Nothing
/// is recorded for a `rowspan` of 1 or less.
pub open spec fn record_span(
    p: PendingMap,
    row: int,
    col: int,
    colspan: int,
    rowspan: int,
    text: Seq<char>,
) -> PendingMap {
    if rowspan <= 1 {
        p
    } else {
        Map::new(
            |k: (int, int)| p.contains_key(k) || owed_by(k, row, col, colspan, rowspan),
            |k: (int, int)|
                if owed_by(k, row, col, colspan, rowspan) {
                    if k.1 == col {
                        text
                    } else {
                        Seq::<char>::empty()
                    }
                } else {
                    p[k]
                },
        )
    }
}

/// Tracks the cells that rows above have pre-filled into later rows.
pub struct RowSpanTracker {
    tracker: HashMap<u64, String>,
}

proof fn lemma_key_injective(r1: int, c1: int, r2: int, c2: int)
    requires
        addressable((r1, c1)),
        addressable((r2, c2)),
        key_of(r1, c1) == key_of(r2, c2),
    ensures
        r1 == r2 && c1 == c2,
{
    assert(r1 == r2) by (nonlinear_arith)
        requires
            r1 * 0x1_0000_0000 + c1 == r2 * 0x1_0000_0000 + c2,
            0 <= c1 < 0x1_0000_0000,
            0 <= c2 < 0x1_0000_0000,
    ;
}

proof fn lemma_key_range(r: int, c: int)
    requires
        addressable((r, c)),
    ensures
        0 <= key_of(r, c) <= u64::MAX,
{
    assert(0 <= r * 0x1_0000_0000 <= 0xFFFF_FFFF * 0x1_0000_0000) by (nonlinear_arith)
        requires
            0 <= r <= 0xFFFF_FFFF,
    ;
}

impl View for RowSpanTracker {
    type V = PendingMap;

    closed spec fn view(&self) -> PendingMap {
        Map::new(
            |k: (int, int)|
                addressable(k) && self.tracker@.contains_key(key_of(k.0, k.1) as u64),
            |k: (int, int)| self.tracker@[key_of(k.0, k.1) as u64]@,
        )
    }
}

impl RowSpanTracker {
    pub fn new() -> (r: Self)
        ensures
            r@ == PendingMap::empty(),
    {
        let r = RowSpanTracker { tracker: HashMap::new() };
        assert(r@ =~= PendingMap::empty());
        r
    }

    /// Every pending entry is addressable.
    pub proof fn lemma_addressable(&self)
        ensures
            forall|k: (int, int)| #[trigger] self@.contains_key(k) ==> addressable(k),
    {
    }

    /// How many entries are pending.
    pub closed spec fn size(&self) -> nat {
        self.tracker@.dom().len()
    }

    /// Removes and returns the entry for (`row_idx`, `col_idx`), if any.
    pub fn pop(&mut self, row_idx: u32, col_idx: usize) -> (r: Option<String>)
        ensures
            final(self)@ == old(self)@.remove((row_idx as int, col_idx as int)),
            final(self).size() <= old(self).size(),
            match r {
                Some(s) => old(self)@.contains_key((row_idx as int, col_idx as int)) && s@ == old(
                    self,
                )@[(row_idx as int, col_idx as int)] && final(self).size() < old(self).size(),
                None => !old(self)@.contains_key((row_idx as int, col_idx as int)),
            },
    {
        let ghost k = (row_idx as int, col_idx as int);
        if col_idx > MAX_TRACKED_COLUMN {
            assert(self@.remove(k) =~= self@);
            return None;
        }
        proof {
            lemma_key_range(k.0, k.1);
        }
        let key: u64 = (row_idx as u64) * 0x1_0000_0000 + (col_idx as u64);
        let r = self.tracker.remove(&key);
        proof {
            assert(self.tracker@ == old(self).tracker@.remove(key));
            if !old(self).tracker@.contains_key(key) {
                assert(self.tracker@ =~= old(self).tracker@);
            }
            assert forall|j: (int, int)| addressable(j) implies (#[trigger] self@.contains_key(j)
                <==> old(self)@.remove(k).contains_key(j)) by {
                lemma_key_range(j.0, j.1);
                if key_of(j.0, j.1) == key as int {
                    lemma_key_injective(j.0, j.1, k.0, k.1);
                }
            }
            assert(self@ =~= old(self)@.remove(k));
        }
        r
    }

    /// Records the entries that `span`, placed at (`row_idx`, `col_idx`), owes
    /// to the rows below it (see `record_span`).
    pub fn add(&mut self, row_idx: u32, col_idx: usize, span: &CellSpan)
        requires
            col_idx + span.colspan <= MAX_TRACKED_COLUMN + 1,
        ensures
            final(self)@ == record_span(
                old(self)@,
                row_idx as int,
                col_idx as int,
                span.colspan as int,
                span.rowspan as int,
                span.text@,
            ),
            forall|r: int, c: int|
                1 <= r < span.rowspan && row_idx + r <= u32::MAX && 0 <= c < span.colspan
                    ==> #[trigger] final(self)@.contains_key((row_idx + r, col_idx + c))
                    && final(self)@[(row_idx + r, col_idx + c)] == if c == 0 {
                    span.text@
                } else {
                    Seq::<char>::empty()
                },
            forall|k: (int, int)|
                !(row_idx + 1 <= k.0 < row_idx + span.rowspan && col_idx <= k.1 < col_idx
                    + span.colspan) ==> (#[trigger] final(self)@.contains_key(k) <==> old(
                    self,
                )@.contains_key(k)) && (old(self)@.contains_key(k) ==> final(self)@[k] == old(
                    self,
                )@[k]),
    {
        let ghost target = record_span(
            old(self)@,
            row_idx as int,
            col_idx as int,
            span.colspan as int,
            span.rowspan as int,
            span.text@,
        );
        if span.rowspan > 1 {
            let mut r: u32 = 1;
            while r < span.rowspan && (row_idx as u64) + (r as u64) <= 0xFFFF_FFFF
                invariant
                    1 <= r,
                    span.rowspan > 1,
                    col_idx + span.colspan <= MAX_TRACKED_COLUMN + 1,
                    forall|k: (int, int)| #[trigger]
                        self@.contains_key(k) <==> old(self)@.contains_key(k) || (owed_by(
                            k,
                            row_idx as int,
                            col_idx as int,
                            span.colspan as int,
                            span.rowspan as int,
                        ) && k.0 < row_idx + r),
                    forall|k: (int, int)| #[trigger]
                        self@.contains_key(k) ==> self@[k] == if owed_by(
                            k,
                            row_idx as int,
                            col_idx as int,
                            span.colspan as int,
                            span.rowspan as int,
                        ) && k.0 < row_idx + r {
                            if k.1 == col_idx { span.text@ } else { Seq::<char>::empty() }
                        } else {
                            old(self)@[k]
                        },
                decreases span.rowspan - r,
            {
                let target_row: u32 = row_idx + r;
                let mut c: usize = 0;
                while c < span.colspan as usize
                    invariant
                        1 <= r < span.rowspan,
                        target_row == row_idx + r,
                        col_idx + span.colspan <= MAX_TRACKED_COLUMN + 1,
                        forall|k: (int, int)| #[trigger]
                            self@.contains_key(k) <==> old(self)@.contains_key(k) || (owed_by(
                                k,
                                row_idx as int,
                                col_idx as int,
                                span.colspan as int,
                                span.rowspan as int,
                            ) && (k.0 < row_idx + r || (k.0 == row_idx + r && k.1 < col_idx + c))),
                        forall|k: (int, int)| #[trigger]
                            self@.contains_key(k) ==> self@[k] == if owed_by(
                                k,
                                row_idx as int,
                                col_idx as int,
                                span.colspan as int,
                                span.rowspan as int,
                            ) && (k.0 < row_idx + r || (k.0 == row_idx + r && k.1 < col_idx
                                + c)) {
                                if k.1 == col_idx { span.text@ } else { Seq::<char>::empty() }
                            } else {
                                old(self)@[k]
                            },
                    decreases span.colspan - c,
                {
                    let fill = if c == 0 { span.text.clone() } else { String::new() };
                    self.insert(target_row, col_idx + c, fill);
                    c = c + 1;
                }
                r = r + 1;
            }
            assert(self@ =~= target);
        }
    }

    fn insert(&mut self, row_idx: u32, col_idx: usize, text: String)
        requires
            col_idx <= MAX_TRACKED_COLUMN,
        ensures
            final(self)@ == old(self)@.insert((row_idx as int, col_idx as int), text@),
    {
        let ghost k = (row_idx as int, col_idx as int);
        proof {
            lemma_key_range(k.0, k.1);
        }
        let key: u64 = (row_idx as u64) * 0x1_0000_0000 + (col_idx as u64);
        self.tracker.insert(key, text);
        proof {
            assert forall|j: (int, int)| addressable(j) implies (#[trigger] self@.contains_key(j)
                <==> old(self)@.insert(k, text@).contains_key(j)) by {
                lemma_key_range(j.0, j.1);
                if key_of(j.0, j.1) == key as int {
                    lemma_key_injective(j.0, j.1, k.0, k.1);
                }
            }
            assert forall|j: (int, int)| #[trigger] self@.contains_key(j) implies self@[j]
                == old(self)@.insert(k, text@)[j] by {
                lemma_key_range(j.0, j.1);
                if key_of(j.0, j.1) == key as int {
                    lemma_key_injective(j.0, j.1, k.0, k.1);
                }
            }
            assert(self@ =~= old(self)@.insert(k, text@));
        }
    }
}

} // verus!
