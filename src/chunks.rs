//! Splitting a row range into fixed-size chunks, and the law on the progress
//! reported after each chunk.
use vstd::arithmetic::div_mod::lemma_fundamental_div_mod;
use vstd::prelude::*;

verus! {

/// Rows per chunk when the caller gives no size.
pub const DEFAULT_CHUNK_SIZE: usize = 5000;

/// Rows per batch when the caller gives no size.
pub const DEFAULT_BATCH_SIZE: usize = 1000;

/// The chunk size to use: the requested one, at least 1, or the default.
pub fn normalize_chunk_size(requested: Option<usize>) -> (r: usize)
    ensures
        requested is None ==> r == DEFAULT_CHUNK_SIZE,
        requested matches Some(n) ==> r == if n == 0 { 1 } else { n },
        r >= 1,
{
    match requested {
        Some(n) => if n == 0 { 1 } else { n },
        None => DEFAULT_CHUNK_SIZE,
    }
}

/// Number of chunks of `size` rows needed for `total` rows.
pub open spec fn chunk_total(total: int, size: int) -> int {
    (total + size - 1) / size
}

/// The `i`-th chunk: rows `i * size` up to (not including) the smaller of
/// `(i + 1) * size` and `total`.
pub open spec fn chunk_at(total: int, size: int, i: int) -> (int, int) {
    (i * size, if (i + 1) * size <= total { (i + 1) * size } else { total })
}

/// Number of chunks of `chunk_size` rows needed for `total_rows` rows.
pub fn chunk_count(total_rows: usize, chunk_size: usize) -> (r: usize)
    requires
        chunk_size >= 1,
    ensures
        r == chunk_total(total_rows as int, chunk_size as int),
{
    let q = total_rows / chunk_size;
    let rem = total_rows % chunk_size;
    proof {
        let t = total_rows as int;
        let s = chunk_size as int;
        lemma_fundamental_div_mod(t, s);
        assert(t == q * s + rem) by (nonlinear_arith)
            requires
                t == s * (t / s) + t % s,
                q == t / s,
                rem == t % s,
        ;
        if rem != 0 {
            assert(q < usize::MAX) by (nonlinear_arith)
                requires
                    t == q * s + rem,
                    0 < rem < s,
                    t <= usize::MAX,
            ;
        }
        if rem == 0 {
            assert((t + s - 1) / s == q) by (nonlinear_arith)
                requires
                    t == q * s,
                    s >= 1,
            ;
        } else {
            assert((t + s - 1) / s == q + 1) by (nonlinear_arith)
                requires
                    t == q * s + rem,
                    0 < rem < s,
                    s >= 1,
            ;
        }
    }
    if rem == 0 {
        q
    } else {
        q + 1
    }
}

/// The consecutive chunks that cover rows `0..total_rows`, each `chunk_size`
/// rows long but the last, which holds the remainder.
pub fn chunk_boundaries(total_rows: usize, chunk_size: usize) -> (r: Vec<(usize, usize)>)
    requires
        chunk_size >= 1,
    ensures
        r@.len() == chunk_total(total_rows as int, chunk_size as int),
        forall|i: int|
            0 <= i < r@.len() ==> (#[trigger] r@[i]).0 as int == chunk_at(
                total_rows as int,
                chunk_size as int,
                i,
            ).0 && r@[i].1 as int == chunk_at(total_rows as int, chunk_size as int, i).1,
{
    let mut out: Vec<(usize, usize)> = Vec::new();
    let mut processed: usize = 0;
    let ghost t = total_rows as int;
    let ghost s = chunk_size as int;
    proof {
        assert(0 * s == 0);
        if total_rows == 0 {
            assert(chunk_total(t, s) == 0) by (nonlinear_arith)
                requires
                    t == 0,
                    s >= 1,
            ;
        }
    }
    while processed < total_rows
        invariant
            chunk_size >= 1,
            t == total_rows,
            s == chunk_size,
            processed <= total_rows,
            processed == out@.len() * s || processed == total_rows,
            processed < total_rows ==> processed == out@.len() * s,
            processed == total_rows ==> out@.len() == chunk_total(t, s),
            forall|i: int|
                0 <= i < out@.len() ==> (#[trigger] out@[i]).0 as int == chunk_at(t, s, i).0
                    && out@[i].1 as int == chunk_at(t, s, i).1,
        decreases total_rows - processed,
    {
        let end = if total_rows - processed > chunk_size {
            processed + chunk_size
        } else {
            total_rows
        };
        let ghost k = out@.len() as int;
        proof {
            assert((k + 1) * s == k * s + s) by (nonlinear_arith);
        }
        out.push((processed, end));
        proof {
            if end == total_rows {
                assert(chunk_total(t, s) == k + 1) by (nonlinear_arith)
                    requires
                        k * s < t,
                        t <= k * s + s,
                        s >= 1,
                {
                    assert(t + s - 1 < (k + 2) * s);
                    assert(t + s - 1 >= (k + 1) * s);
                }
            }
        }
        processed = end;
    }
    out
}

/// Chunked processing reports progress after each chunk as the rows done so
/// far out of the total: the chunks tile the rows in order, each but the
/// last is full, so the rows done strictly increase and end at the total,
/// i.e. the percentage strictly increases and ends at 100.
pub proof fn lemma_chunk_progress(total: int, size: int, i: int, j: int)
    requires
        size >= 1,
        total >= 1,
        0 <= i < j < chunk_total(total, size),
    ensures
        chunk_at(total, size, i).1 < chunk_at(total, size, j).1,
        chunk_at(total, size, i).1 - chunk_at(total, size, i).0 == size,
        chunk_at(total, size, i).1 == chunk_at(total, size, i + 1).0,
        chunk_at(total, size, chunk_total(total, size) - 1).1 == total,
        100 * chunk_at(total, size, i).1 < 100 * chunk_at(total, size, j).1,
{
    let n = chunk_total(total, size);
    assert(n * size >= total && (n - 1) * size < total) by (nonlinear_arith)
        requires
            n == (total + size - 1) / size,
            size >= 1,
            total >= 1,
    ;
    assert((i + 1) * size <= (n - 1) * size) by (nonlinear_arith)
        requires
            i + 1 <= n - 1,
            size >= 1,
    ;
    assert((i + 1) * size < (j + 1) * size) by (nonlinear_arith)
        requires
            i < j,
            size >= 1,
    ;
    assert(j * size >= (i + 1) * size) by (nonlinear_arith)
        requires
            j >= i + 1,
            size >= 1,
    ;
    assert((i + 1) * size == i * size + size) by (nonlinear_arith);
    assert(j * size < total) by (nonlinear_arith)
        requires
            j <= n - 1,
            (n - 1) * size < total,
            size >= 1,
    ;
}

} // verus!
