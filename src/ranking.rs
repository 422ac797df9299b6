//! Which class a row of scores picks, and how many predictions agree with
//! their targets.
//!
//! A row picks the index of its largest value; among equal largest values the
//! last one wins. Scores are `f32` bit patterns and compare as the values do.
use vstd::prelude::*;
use crate::bits::{is_nan, rank, nan_bits, order_key, NEG_INFINITY_BITS};

verus! {

/// No NaN in the row: every pair of its values is ordered.
pub open spec fn row_ordered(s: Seq<u32>) -> bool {
    forall|i: int| 0 <= i < s.len() ==> !is_nan(#[trigger] s[i])
}

/// A row that can be ranked: not empty, and without NaN.
pub open spec fn rankable(s: Seq<u32>) -> bool {
    s.len() > 0 && row_ordered(s)
}

/// The index of the last largest value of a non-empty row.
pub open spec fn last_argmax(s: Seq<u32>) -> int
    decreases s.len(),
{
    if s.len() <= 1 {
        0
    } else {
        let k = last_argmax(s.drop_last());
        if rank(s.last()) >= rank(s[k]) { s.len() - 1 } else { k }
    }
}

/// Whether a prediction row and a target row pick the same class.
pub open spec fn agrees(prediction: Seq<u32>, target: Seq<u32>) -> bool {
    last_argmax(prediction) == last_argmax(target)
}

/// How many of the first `n` rows agree with their targets.
pub open spec fn count_agreeing(predictions: Seq<Vec<u32>>, targets: Seq<Vec<u32>>, n: int) -> nat
    decreases n,
{
    if n <= 0 {
        0
    } else {
        count_agreeing(predictions, targets, n - 1)
            + if agrees(predictions[n - 1]@, targets[n - 1]@) { 1nat } else { 0nat }
    }
}

/// Every row of the batch can be ranked.
pub open spec fn all_rankable(rows: Seq<Vec<u32>>) -> bool {
    forall|i: int| 0 <= i < rows.len() ==> rankable(#[trigger] rows[i]@)
}

/// The last largest value is a largest value, and nothing after it ties.
pub proof fn lemma_last_argmax_is_max(s: Seq<u32>)
    requires
        s.len() > 0,
    ensures
        0 <= last_argmax(s) < s.len(),
        forall|j: int| 0 <= j < s.len() ==> rank(#[trigger] s[j]) <= rank(s[last_argmax(s)]),
        forall|j: int| last_argmax(s) < j < s.len() ==> rank(#[trigger] s[j]) < rank(s[last_argmax(s)]),
    decreases s.len(),
{
    if s.len() > 1 {
        let p = s.drop_last();
        lemma_last_argmax_is_max(p);
        let k = last_argmax(p);
        let r = last_argmax(s);
        assert(p[k] == s[k]);
        assert forall|j: int| 0 <= j < s.len() implies rank(#[trigger] s[j]) <= rank(s[r]) by {
            if j < p.len() {
                assert(p[j] == s[j]);
            }
        }
        assert forall|j: int| r < j < s.len() implies rank(#[trigger] s[j]) < rank(s[r]) by {
            if j < p.len() {
                assert(p[j] == s[j]);
            }
        }
    }
}

/// The index of the last largest value of a row: the class it picks.
pub fn index_of_max(row: &Vec<u32>) -> (r: usize)
    requires
        rankable(row@),
    ensures
        r as int == last_argmax(row@),
        r < row@.len(),
        forall|j: int| 0 <= j < row@.len() ==> rank(#[trigger] row@[j]) <= rank(row@[r as int]),
        forall|j: int| r < j < row@.len() ==> rank(#[trigger] row@[j]) < rank(row@[r as int]),
{
    let mut best: usize = 0;
    let mut best_key: u32 = order_key(row[0]);
    let mut i: usize = 1;
    assert(row@.take(1).len() == 1);
    while i < row.len()
        invariant
            1 <= i <= row@.len(),
            best < i,
            best as int == last_argmax(row@.take(i as int)),
            best_key as int == rank(row@[best as int]) + 0x8000_0000,
        decreases row.len() - i,
    {
        let key = order_key(row[i]);
        let ghost t = row@.take(i as int + 1);
        assert(t.drop_last() =~= row@.take(i as int));
        assert(t[best as int] == row@[best as int]);
        if key >= best_key {
            best = i;
            best_key = key;
        }
        i += 1;
    }
    assert(row@.take(i as int) =~= row@);
    proof {
        lemma_last_argmax_is_max(row@);
    }
    best
}

/// Whether the prediction row picks the class that the target row marks.
pub fn correct_prediction(prediction: &Vec<u32>, target: &Vec<u32>) -> (r: bool)
    requires
        rankable(prediction@),
        rankable(target@),
    ensures
        r == agrees(prediction@, target@),
{
    index_of_max(prediction) == index_of_max(target)
}

/// How many rows of a batch pick the class their target marks.
pub fn correct_predictions(predictions: &Vec<Vec<u32>>, targets: &Vec<Vec<u32>>) -> (r: usize)
    requires
        predictions@.len() == targets@.len(),
        all_rankable(predictions@),
        all_rankable(targets@),
    ensures
        r == count_agreeing(predictions@, targets@, predictions@.len() as int),
        r <= predictions@.len(),
{
    let mut correct: usize = 0;
    let mut i: usize = 0;
    while i < predictions.len()
        invariant
            i <= predictions@.len(),
            predictions@.len() == targets@.len(),
            all_rankable(predictions@),
            all_rankable(targets@),
            correct == count_agreeing(predictions@, targets@, i as int),
            correct <= i,
        decreases predictions.len() - i,
    {
        assert(rankable(predictions@[i as int]@));
        assert(rankable(targets@[i as int]@));
        if correct_prediction(&predictions[i], &targets[i]) {
            correct += 1;
        }
        i += 1;
    }
    correct
}

/// `m` is the largest value of the row, NaN aside: the fold of `f32::max`
/// from negative infinity. Which of two zeros it is stays open.
pub open spec fn is_row_max(row: Seq<u32>, m: u32) -> bool {
    &&& !is_nan(m)
    &&& forall|i: int| 0 <= i < row.len() && !is_nan(#[trigger] row[i]) ==> rank(row[i]) <= rank(m)
    &&& (m == NEG_INFINITY_BITS || exists|i: int| 0 <= i < row.len() && #[trigger] row[i] == m)
}

/// The largest value of a row, ignoring NaN; negative infinity for a row
/// without any other value.
pub fn row_max(row: &Vec<u32>) -> (r: u32)
    ensures
        is_row_max(row@, r),
{
    let mut best: u32 = NEG_INFINITY_BITS;
    let mut i: usize = 0;
    while i < row.len()
        invariant
            i <= row@.len(),
            is_row_max(row@.take(i as int), best),
        decreases row.len() - i,
    {
        let v = row[i];
        let ghost before = row@.take(i as int);
        let ghost after = row@.take(i as int + 1);
        assert forall|j: int| 0 <= j < i implies #[trigger] after[j] == before[j] by {}
        if !nan_bits(v) && order_key(v) > order_key(best) {
            best = v;
        }
        assert(after[i as int] == v);
        proof {
            if best != NEG_INFINITY_BITS && best != v {
                let k = choose|k: int| 0 <= k < before.len() && #[trigger] before[k] == best;
                assert(after[k] == best);
            }
        }
        i += 1;
    }
    assert(row@.take(i as int) =~= row@);
    best
}

/// Whether a row holds no NaN, so that it can be ranked.
pub fn row_is_ordered(row: &Vec<u32>) -> (r: bool)
    ensures
        r == row_ordered(row@),
{
    let mut i: usize = 0;
    while i < row.len()
        invariant
            i <= row@.len(),
            forall|j: int| 0 <= j < i ==> !is_nan(#[trigger] row@[j]),
        decreases row.len() - i,
    {
        if nan_bits(row[i]) {
            return false;
        }
        i += 1;
    }
    true
}

} // verus!
