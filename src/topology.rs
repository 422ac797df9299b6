//! The shape of a layer stack, checked as layers are appended.
//!
//! An affine layer fixes the width it reads and the width it writes; the
//! activation and dropout layers keep whatever width reaches them. A stack
//! fits when every affine layer reads the width that the affine layer before
//! it writes.
use vstd::prelude::*;

verus! {

/// What a layer does to the feature width of a batch.
#[derive(Clone, Copy, Debug, PartialEq, Eq, Structural)]
pub enum LayerKind {
    /// An affine layer from `in_size` features to `out_size` features.
    Dense { in_size: usize, out_size: usize },
    /// The rectifying activation.
    Relu,
    /// The row-wise normalizing activation.
    Softmax,
    /// Stochastic masking.
    Dropout,
}

/// A width that disagrees with what the stack expects.
#[derive(Clone, Copy, Debug, PartialEq, Eq, Structural)]
pub enum ShapeError {
    Mismatch { expected: usize, found: usize },
}

/// Whether the layer carries trainable parameters.
pub open spec fn is_trainable(k: LayerKind) -> bool {
    k is Dense
}

/// The width that the last affine layer of `s` writes, if there is one.
pub open spec fn output_width(s: Seq<LayerKind>) -> Option<usize>
    decreases s.len(),
{
    if s.len() == 0 {
        None
    } else {
        match s.last() {
            LayerKind::Dense { in_size, out_size } => Some(out_size),
            _ => output_width(s.drop_last()),
        }
    }
}

/// The width that the first affine layer of `s` reads, if there is one.
pub open spec fn input_width(s: Seq<LayerKind>) -> Option<usize>
    decreases s.len(),
{
    if s.len() == 0 {
        None
    } else {
        match input_width(s.drop_last()) {
            Some(w) => Some(w),
            None => match s.last() {
                LayerKind::Dense { in_size, out_size } => Some(in_size),
                _ => None,
            },
        }
    }
}

/// Whether a batch of width `w` is accepted where a layer expects `expected`.
pub open spec fn width_fits(expected: Option<usize>, w: usize) -> bool {
    match expected {
        Some(e) => e == w,
        None => true,
    }
}

/// Whether layer `k` can follow the stack `s`.
pub open spec fn fits_after(s: Seq<LayerKind>, k: LayerKind) -> bool {
    match k {
        LayerKind::Dense { in_size, out_size } => width_fits(output_width(s), in_size),
        _ => true,
    }
}

/// Every layer of `s` fits after the ones before it.
pub open spec fn chain_fits(s: Seq<LayerKind>) -> bool
    decreases s.len(),
{
    s.len() == 0 || (chain_fits(s.drop_last()) && fits_after(s.drop_last(), s.last()))
}

/// An ordered stack of layer shapes that fit together.
pub struct Topology {
    kinds: Vec<LayerKind>,
    first_in: Option<usize>,
    last_out: Option<usize>,
}

impl View for Topology {
    type V = Seq<LayerKind>;

    closed spec fn view(&self) -> Seq<LayerKind> {
        self.kinds@
    }
}

impl Topology {
    /// The stack fits, and the cached widths are those of the stack.
    pub closed spec fn wf(&self) -> bool {
        &&& chain_fits(self@)
        &&& self.first_in == input_width(self@)
        &&& self.last_out == output_width(self@)
    }

    /// The empty stack.
    pub fn new() -> (r: Topology)
        ensures
            r.wf(),
            chain_fits(r@),
            r@ == Seq::<LayerKind>::empty(),
    {
        Topology { kinds: Vec::new(), first_in: None, last_out: None }
    }

    /// Appends a layer, or refuses it with the width it should have read.
    pub fn push_layer(&mut self, kind: LayerKind) -> (r: Result<(), ShapeError>)
        requires
            old(self).wf(),
        ensures
            final(self).wf(),
            chain_fits(final(self)@),
            r is Ok <==> fits_after(old(self)@, kind),
            r is Ok ==> final(self)@ == old(self)@.push(kind),
            r is Err ==> final(self)@ == old(self)@,
            r is Err ==> (match (kind, output_width(old(self)@)) {
                (LayerKind::Dense { in_size, out_size }, Some(w)) => r == Err::<(), ShapeError>(
                    ShapeError::Mismatch { expected: w, found: in_size },
                ),
                _ => false,
            }),
    {
        let ghost s = self@;
        if let LayerKind::Dense { in_size, out_size } = kind {
            if let Some(w) = self.last_out {
                if w != in_size {
                    return Err(ShapeError::Mismatch { expected: w, found: in_size });
                }
            }
            if self.first_in.is_none() {
                self.first_in = Some(in_size);
            }
            self.last_out = Some(out_size);
        }
        self.kinds.push(kind);
        assert(self@.drop_last() =~= s);
        Ok(())
    }

    /// How many layers the stack holds.
    pub fn len(&self) -> (r: usize)
        ensures
            r == self@.len(),
    {
        self.kinds.len()
    }

    /// The layer at position `i`.
    pub fn kind(&self, i: usize) -> (r: LayerKind)
        requires
            i < self@.len(),
        ensures
            r == self@[i as int],
    {
        self.kinds[i]
    }

    /// The width that the stack reads, once an affine layer fixes it.
    pub fn input_width(&self) -> (r: Option<usize>)
        requires
            self.wf(),
        ensures
            r == input_width(self@),
    {
        self.first_in
    }

    /// The width that the stack writes, once an affine layer fixes it.
    pub fn output_width(&self) -> (r: Option<usize>)
        requires
            self.wf(),
        ensures
            r == output_width(self@),
    {
        self.last_out
    }

    /// Checks the width of a batch before a forward pass.
    pub fn check_input(&self, width: usize) -> (r: Result<(), ShapeError>)
        requires
            self.wf(),
        ensures
            r is Ok <==> width_fits(input_width(self@), width),
            r is Err ==> r == Err::<(), ShapeError>(
                ShapeError::Mismatch { expected: input_width(self@)->Some_0, found: width },
            ),
    {
        match self.first_in {
            Some(w) => if w == width {
                Ok(())
            } else {
                Err(ShapeError::Mismatch { expected: w, found: width })
            },
            None => Ok(()),
        }
    }

    /// The positions of the layers with trainable parameters, in order.
    pub fn trainable_indices(&self) -> (r: Vec<usize>)
        ensures
            forall|j: int| 0 <= j < r@.len() ==> (#[trigger] r@[j]) < self@.len() && is_trainable(self@[r@[j] as int]),
            forall|j: int, l: int| 0 <= j < l < r@.len() ==> #[trigger] r@[j] < #[trigger] r@[l],
            forall|i: int| 0 <= i < self@.len() && is_trainable(#[trigger] self@[i]) ==> r@.contains(i as usize),
    {
        let mut r: Vec<usize> = Vec::new();
        let mut i: usize = 0;
        while i < self.kinds.len()
            invariant
                i <= self@.len(),
                forall|j: int| 0 <= j < r@.len() ==> (#[trigger] r@[j]) < i && is_trainable(self@[r@[j] as int]),
                forall|j: int, l: int| 0 <= j < l < r@.len() ==> #[trigger] r@[j] < #[trigger] r@[l],
                forall|m: int| 0 <= m < i && is_trainable(#[trigger] self@[m]) ==> r@.contains(m as usize),
            decreases self@.len() - i,
        {
            if let LayerKind::Dense { .. } = self.kinds[i] {
                let ghost before = r@;
                r.push(i);
                assert forall|m: int| 0 <= m < i + 1 && is_trainable(#[trigger] self@[m]) implies r@.contains(m as usize) by {
                    if m < i {
                        let j = choose|j: int| 0 <= j < before.len() && before[j] == m as usize;
                        assert(r@[j] == m as usize);
                    } else {
                        assert(r@[r@.len() - 1] == i);
                    }
                }
            }
            i += 1;
        }
        r
    }
}

} // verus!
