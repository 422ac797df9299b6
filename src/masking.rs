//! The elementwise masks of the rectifying and the dropout layers.
//!
//! Rows of activations and gradients are flattened into one vector of `f32`
//! bit patterns. A unit that a mask drops becomes `0.0`.
use vstd::prelude::*;
use crate::bits::{is_positive, is_unit_draw, less_than, positive_bits, less_than_bits, ZERO_BITS, ONE_BITS};

verus! {

/// `x` with every unit whose flag is clear set to `0.0`.
pub open spec fn masked(x: Seq<u32>, keep: Seq<bool>) -> Seq<u32> {
    Seq::new(x.len(), |i: int| if keep[i] { x[i] } else { ZERO_BITS })
}

/// The flags of the units that are strictly positive.
pub open spec fn positive_flags(x: Seq<u32>) -> Seq<bool> {
    Seq::new(x.len(), |i: int| is_positive(x[i]))
}

/// A unit survives dropout unless its draw falls below the rate.
pub open spec fn keep_flags(draws: Seq<u32>, rate: u32) -> Seq<bool> {
    Seq::new(draws.len(), |i: int| !less_than(draws[i], rate))
}

/// A sequence of `n` zeros.
pub open spec fn zeros(n: nat) -> Seq<u32> {
    Seq::new(n, |i: int| ZERO_BITS)
}

/// Rectifying forward pass, `max(0, x)` per unit: a positive unit passes, any
/// other (zero, negative or NaN) becomes `0.0`.
pub fn rectify(x: &Vec<u32>) -> (r: Vec<u32>)
    ensures
        r@ == masked(x@, positive_flags(x@)),
{
    let mut r: Vec<u32> = Vec::with_capacity(x.len());
    let mut i: usize = 0;
    while i < x.len()
        invariant
            i <= x.len(),
            r@.len() == i,
            forall|j: int| 0 <= j < i ==> r@[j] == if is_positive(x@[j]) { x@[j] } else { ZERO_BITS },
        decreases x.len() - i,
    {
        let v = x[i];
        if positive_bits(v) {
            r.push(v);
        } else {
            r.push(ZERO_BITS);
        }
        i += 1;
    }
    assert(r@ =~= masked(x@, positive_flags(x@)));
    r
}

/// Rectifying backward pass: the incoming gradient passes unchanged where the
/// cached input was strictly positive and is zero wherever it was not.
pub fn rectify_backward(grad: &Vec<u32>, cached_input: &Vec<u32>) -> (r: Vec<u32>)
    requires
        grad@.len() == cached_input@.len(),
    ensures
        r@ == masked(grad@, positive_flags(cached_input@)),
        forall|i: int| 0 <= i < r@.len() && !is_positive(#[trigger] cached_input@[i]) ==> r@[i] == ZERO_BITS,
        forall|i: int| 0 <= i < r@.len() && is_positive(#[trigger] cached_input@[i]) ==> r@[i] == grad@[i],
{
    let mut r: Vec<u32> = Vec::with_capacity(grad.len());
    let mut i: usize = 0;
    while i < grad.len()
        invariant
            i <= grad.len(),
            grad@.len() == cached_input@.len(),
            r@.len() == i,
            forall|j: int| 0 <= j < i ==> r@[j] == if is_positive(cached_input@[j]) { grad@[j] } else { ZERO_BITS },
        decreases grad.len() - i,
    {
        if positive_bits(cached_input[i]) {
            r.push(grad[i]);
        } else {
            r.push(ZERO_BITS);
        }
        i += 1;
    }
    assert(r@ =~= masked(grad@, positive_flags(cached_input@)));
    r
}

/// The dropout mask for one forward pass: one flag per draw, set where the
/// unit is kept, that is where the draw is not below `rate`.
pub fn dropout_keep(draws: &Vec<u32>, rate: u32) -> (r: Vec<bool>)
    ensures
        r@ == keep_flags(draws@, rate),
{
    let mut r: Vec<bool> = Vec::with_capacity(draws.len());
    let mut i: usize = 0;
    while i < draws.len()
        invariant
            i <= draws.len(),
            r@.len() == i,
            forall|j: int| 0 <= j < i ==> r@[j] == !less_than(draws@[j], rate),
        decreases draws.len() - i,
    {
        r.push(!less_than_bits(draws[i], rate));
        i += 1;
    }
    assert(r@ =~= keep_flags(draws@, rate));
    r
}

/// Multiplies units by a 0/1 mask: used on activations by dropout's forward
/// pass and on gradients by its backward pass.
pub fn apply_mask(x: &Vec<u32>, keep: &Vec<bool>) -> (r: Vec<u32>)
    requires
        x@.len() == keep@.len(),
    ensures
        r@ == masked(x@, keep@),
{
    let mut r: Vec<u32> = Vec::with_capacity(x.len());
    let mut i: usize = 0;
    while i < x.len()
        invariant
            i <= x.len(),
            x@.len() == keep@.len(),
            r@.len() == i,
            forall|j: int| 0 <= j < i ==> r@[j] == if keep@[j] { x@[j] } else { ZERO_BITS },
        decreases x.len() - i,
    {
        if keep[i] {
            r.push(x[i]);
        } else {
            r.push(ZERO_BITS);
        }
        i += 1;
    }
    assert(r@ =~= masked(x@, keep@));
    r
}

/// Dropout at rate `0.0` keeps every unit: forward and backward are both the
/// identity, whatever the unit-interval draws were.
pub proof fn lemma_dropout_rate_zero_is_identity(x: Seq<u32>, draws: Seq<u32>)
    requires
        x.len() == draws.len(),
        forall|i: int| 0 <= i < draws.len() ==> is_unit_draw(#[trigger] draws[i]),
    ensures
        masked(x, keep_flags(draws, ZERO_BITS)) == x,
{
    assert(masked(x, keep_flags(draws, ZERO_BITS)) =~= x);
}

/// Dropout at rate `1.0` drops every unit: forward outputs and backward
/// gradients are all zero, whatever the unit-interval draws were.
pub proof fn lemma_dropout_rate_one_is_zero(x: Seq<u32>, draws: Seq<u32>)
    requires
        x.len() == draws.len(),
        forall|i: int| 0 <= i < draws.len() ==> is_unit_draw(#[trigger] draws[i]),
    ensures
        masked(x, keep_flags(draws, ONE_BITS)) == zeros(x.len()),
{
    assert(masked(x, keep_flags(draws, ONE_BITS)) =~= zeros(x.len()));
}

} // verus!
