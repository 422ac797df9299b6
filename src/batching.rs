//! Cutting a dataset into batches of contiguous rows.
//!
//! Batches hold `batch_size` rows each, in the dataset's order; a trailing
//! remainder shorter than a batch is left out. A batch size of zero, or one
//! larger than the dataset, gives no batch at all.
use vstd::prelude::*;

verus! {

/// How many whole batches `n_rows` rows give.
pub open spec fn batch_count(n_rows: nat, batch_size: nat) -> nat {
    if batch_size == 0 { 0 } else { n_rows / batch_size }
}

/// The half-open row range `[start, end)` of batch `k`.
pub open spec fn batch_range(k: int, batch_size: int) -> (int, int) {
    (k * batch_size, (k + 1) * batch_size)
}

/// How many rows the batches hold together.
pub open spec fn rows_covered(n_rows: nat, batch_size: nat) -> int {
    batch_count(n_rows, batch_size) as int * batch_size as int
}

/// The batch that would hold a row.
pub open spec fn batch_of(row: int, batch_size: int) -> int {
    row / batch_size
}

/// Whether batch `k` exists and holds `row`.
pub open spec fn batch_holds(k: int, row: int, n_rows: nat, batch_size: nat) -> bool {
    0 <= k < batch_count(n_rows, batch_size) && batch_range(k, batch_size as int).0 <= row
        < batch_range(k, batch_size as int).1
}

/// Whether a row lies in some batch.
pub open spec fn in_some_batch(row: int, n_rows: nat, batch_size: nat) -> bool {
    exists|k: int| #[trigger] batch_holds(k, row, n_rows, batch_size)
}

/// The row ranges of the batches of a dataset with `n_rows` rows, in order.
pub fn batch_bounds(n_rows: usize, batch_size: usize) -> (r: Vec<(usize, usize)>)
    ensures
        r@.len() == batch_count(n_rows as nat, batch_size as nat),
        forall|k: int| 0 <= k < r@.len() ==>
            (#[trigger] r@[k]).0 as int == batch_range(k, batch_size as int).0
                && r@[k].1 as int == batch_range(k, batch_size as int).1,
{
    let mut r: Vec<(usize, usize)> = Vec::new();
    if batch_size == 0 {
        return r;
    }
    let mut start: usize = 0;
    assert(0 * batch_size == 0);
    while n_rows - start >= batch_size
        invariant
            batch_size > 0,
            start <= n_rows,
            start as int == r@.len() * batch_size,
            forall|k: int| 0 <= k < r@.len() ==>
                (#[trigger] r@[k]).0 as int == batch_range(k, batch_size as int).0
                    && r@[k].1 as int == batch_range(k, batch_size as int).1,
        decreases n_rows - start,
    {
        let end = start + batch_size;
        proof {
            let k = r@.len() as int;
            assert((k + 1) * batch_size == k * batch_size + batch_size) by (nonlinear_arith);
        }
        r.push((start, end));
        start = end;
    }
    proof {
        let k = r@.len() as int;
        let b = batch_size as int;
        let n = n_rows as int;
        vstd::arithmetic::div_mod::lemma_fundamental_div_mod_converse(n, b, k, n - k * b);
    }
    r
}

/// Row `row` of the first `c` batches lies in batch `row / b`.
proof fn lemma_row_in_batch(row: int, b: int, c: int)
    requires
        0 <= row < c * b,
        b > 0,
    ensures
        0 <= row / b < c,
        batch_range(row / b, b).0 <= row < batch_range(row / b, b).1,
{
    vstd::arithmetic::div_mod::lemma_fundamental_div_mod(row, b);
    vstd::arithmetic::div_mod::lemma_mod_pos_bound(row, b);
    let k = row / b;
    let m = row % b;
    assert(k * b <= row && row < k * b + b) by (nonlinear_arith)
        requires row == b * k + m, 0 <= m < b;
    assert((k + 1) * b == k * b + b) by (nonlinear_arith);
    assert(0 <= k) by (nonlinear_arith) requires row >= 0, b > 0, k * b <= row, row < k * b + b;
    assert(k < c) by (nonlinear_arith) requires k * b <= row, row < c * b, b > 0;
}

/// The batches are the leading whole chunks of the dataset: every row before
/// `rows_covered` lies in the batch `row / batch_size`, no later row lies in
/// any batch, and fewer than `batch_size` rows are left out.
pub proof fn lemma_batches_cover_prefix(n_rows: nat, batch_size: nat)
    requires
        batch_size > 0,
    ensures
        rows_covered(n_rows, batch_size) <= n_rows,
        n_rows - rows_covered(n_rows, batch_size) < batch_size,
        forall|row: int|
            0 <= row < rows_covered(n_rows, batch_size) ==> batch_holds(
                #[trigger] batch_of(row, batch_size as int),
                row,
                n_rows,
                batch_size,
            ),
        forall|row: int|
            rows_covered(n_rows, batch_size) <= row < n_rows ==> !#[trigger] in_some_batch(
                row,
                n_rows,
                batch_size,
            ),
{
    let c = batch_count(n_rows, batch_size) as int;
    let b = batch_size as int;
    let n = n_rows as int;
    vstd::arithmetic::div_mod::lemma_fundamental_div_mod(n, b);
    vstd::arithmetic::div_mod::lemma_mod_pos_bound(n, b);
    assert(c == n / b);
    assert(c * b <= n && n - c * b < b && c >= 0) by (nonlinear_arith)
        requires n == b * c + n % b, 0 <= n % b < b, b > 0, n >= 0;
    assert forall|row: int| 0 <= row < rows_covered(n_rows, batch_size) implies batch_holds(
        #[trigger] batch_of(row, b),
        row,
        n_rows,
        batch_size,
    ) by {
        lemma_row_in_batch(row, b, c);
    }
    assert forall|row: int| rows_covered(n_rows, batch_size) <= row < n implies !#[trigger] in_some_batch(row, n_rows, batch_size) by {
        if in_some_batch(row, n_rows, batch_size) {
            let k = choose|k: int| batch_holds(k, row, n_rows, batch_size);
            assert((k + 1) * b <= c * b) by (nonlinear_arith) requires k + 1 <= c, b > 0;
            assert((k + 1) * b == k * b + b) by (nonlinear_arith);
        }
    }
}

} // verus!
