//! Tensors: a buffer, the extents and strides through which it is read, an
//! identity, and the tape that traces it.

use crate::dtype::copy_of;
use crate::shapes::{
    covers, fits, in_bounds, index_to_i, lemma_count_positive, lemma_covered, lemma_unravel_offset,
    num_elements, offset, row_major_strides, unravel, Shape,
};
use vstd::prelude::*;

verus! {

/// The identity of a buffer. It does not depend on what the buffer holds.
#[derive(Clone, Copy, Debug, PartialEq, Eq, Structural)]
pub struct UniqueId(pub u64);

/// A key for the gradient of a tensor: the identity of its buffer and the
/// length that a gradient buffer for it has. It owns no data.
#[derive(Clone, Copy, Debug, PartialEq, Eq, Structural)]
pub struct GhostTensor {
    /// The identity of the buffer of the tensor.
    pub id: UniqueId,
    /// The length of the buffer of the tensor, and of its gradient.
    pub len: usize,
}

/// A buffer read through extents and strides, with the tape `T` that
/// records how it was computed.
pub struct Tensor<E, T> {
    pub(crate) id: UniqueId,
    pub(crate) data: Vec<E>,
    pub(crate) shape: Shape,
    pub(crate) strides: Vec<usize>,
    pub(crate) tape: T,
}

/// What a tensor is to a contract.
pub struct TensorView<E, T> {
    /// The identity of the buffer.
    pub id: UniqueId,
    /// The buffer as it lies in memory.
    pub data: Seq<E>,
    /// The extents, outermost dimension first.
    pub shape: Seq<usize>,
    /// The distance in the buffer between neighbours along each dimension.
    pub strides: Seq<usize>,
    /// The tape.
    pub tape: T,
}

impl<E, T> View for Tensor<E, T> {
    type V = TensorView<E, T>;

    closed spec fn view(&self) -> TensorView<E, T> {
        TensorView {
            id: self.id,
            data: self.data@,
            shape: self.shape@,
            strides: self.strides@,
            tape: self.tape,
        }
    }
}

impl<E, T> TensorView<E, T> {
    /// The buffer holds every element that the extents and strides address.
    pub open spec fn wf(self) -> bool {
        &&& fits(self.shape)
        &&& covers(self.shape, self.strides, self.data.len())
        &&& self.data.len() <= usize::MAX
    }

    /// The element at a multi-index.
    pub open spec fn at(self, index: Seq<usize>) -> E {
        self.data[offset(self.strides, index) as int]
    }

    /// The elements in row-major order of their multi-indices.
    pub open spec fn logical(self) -> Seq<E> {
        Seq::new(num_elements(self.shape), |k: int| self.at(unravel(self.shape, k)))
    }

    /// The buffer is contiguous: it has the row-major strides of the shape
    /// and as many elements as the shape counts.
    pub open spec fn contiguous(self) -> bool {
        &&& fits(self.shape)
        &&& self.strides == row_major_strides(self.shape)
        &&& self.data.len() == num_elements(self.shape)
    }

    /// The key under which the gradient of this tensor is kept.
    pub open spec fn ghost(self) -> GhostTensor {
        GhostTensor { id: self.id, len: self.data.len() as usize }
    }

    /// A contiguous buffer lies in memory in the order of its multi-indices.
    pub proof fn lemma_contiguous_logical(self)
        requires
            self.contiguous(),
        ensures
            self.wf(),
            self.logical() == self.data,
    {
        crate::shapes::lemma_row_major_covers(self.shape);
        assert(self.shape.skip(0) =~= self.shape);
        assert forall|k: int| 0 <= k < num_elements(self.shape) implies self.logical()[k]
            == self.data[k] by {
            lemma_unravel_offset(self.shape, k);
        }
    }
}

impl<E, T> Tensor<E, T> {
    /// The buffer holds every element that the extents and strides address.
    pub open spec fn wf(&self) -> bool {
        self@.wf()
    }

    /// The tensor with the given parts.
    pub(crate) fn from_parts(
        id: UniqueId,
        data: Vec<E>,
        shape: Shape,
        strides: Vec<usize>,
        tape: T,
    ) -> (r: Self)
        ensures
            r@ == (TensorView { id, data: data@, shape: shape@, strides: strides@, tape }),
    {
        Tensor { id, data, shape, strides, tape }
    }

    /// The identity of the buffer.
    pub fn id(&self) -> (r: UniqueId)
        ensures
            r == self@.id,
    {
        self.id
    }

    /// The extents.
    pub fn shape(&self) -> (r: &Shape)
        ensures
            r@ == self@.shape,
    {
        &self.shape
    }

    /// The strides through which the buffer is read.
    pub fn strides(&self) -> (r: &Vec<usize>)
        ensures
            r@ == self@.strides,
    {
        &self.strides
    }

    /// The buffer as it lies in memory.
    pub fn data(&self) -> (r: &Vec<E>)
        ensures
            r@ == self@.data,
    {
        &self.data
    }

    /// The key under which the gradient of this tensor is kept.
    pub fn ghost(&self) -> (r: GhostTensor)
        ensures
            r == self@.ghost(),
    {
        GhostTensor { id: self.id, len: self.data.len() }
    }

    /// Detaches the tape.
    pub fn split_tape(self) -> (r: (Tensor<E, NoneTape>, T))
        ensures
            r.0@.id == self@.id,
            r.0@.data == self@.data,
            r.0@.shape == self@.shape,
            r.0@.strides == self@.strides,
            r.1 == self@.tape,
    {
        let Tensor { id, data, shape, strides, tape } = self;
        (Tensor { id, data, shape, strides, tape: NoneTape }, tape)
    }

    /// Attaches a tape in place of the one carried.
    pub fn put_tape<T2>(self, tape: T2) -> (r: Tensor<E, T2>)
        ensures
            r@.id == self@.id,
            r@.data == self@.data,
            r@.shape == self@.shape,
            r@.strides == self@.strides,
            r@.tape == tape,
    {
        let Tensor { id, data, shape, strides, tape: _ } = self;
        Tensor { id, data, shape, strides, tape }
    }
}

impl<E: Copy, T> Tensor<E, T> {
    /// The element at a multi-index within the extents.
    pub fn get(&self, index: &[usize]) -> (r: E)
        requires
            self.wf(),
            in_bounds(self@.shape, index@),
        ensures
            r == self@.at(index@),
    {
        let len = self.data.len();
        proof {
            lemma_covered(self@.shape, self@.strides, len as nat, index@);
        }
        let i = index_to_i(&self.shape, self.strides.as_slice(), index);
        self.data[i]
    }
}

impl<E: Copy, T> Tensor<E, T> {
    /// The elements in row-major order of their multi-indices, whatever the
    /// strides through which the buffer is read.
    pub fn as_vec(&self) -> (r: Vec<E>)
        requires
            self.wf(),
        ensures
            r@ == self@.logical(),
    {
        let count = self.shape.num_elements();
        let strides = self.shape.strides();
        let mut out: Vec<E> = Vec::new();
        let mut k: usize = 0;
        while k < count
            invariant
                self.wf(),
                count == num_elements(self@.shape),
                strides@ == row_major_strides(self@.shape),
                k <= count,
                out@.len() == k,
                forall|j: int| 0 <= j < k ==> out@[j] == self@.at(unravel(self@.shape, j)),
            decreases count - k,
        {
            proof {
                lemma_count_positive(self@.shape);
            }
            let index = self.shape.unravel(strides.as_slice(), k);
            out.push(self.get(index.as_slice()));
            k += 1;
        }
        out
    }
}

impl<E: Copy> Clone for Tensor<E, NoneTape> {
    /// A tensor over a copy of the buffer, with the same identity.
    fn clone(&self) -> (r: Self)
        ensures
            r@ == self@,
    {
        Tensor {
            id: self.id,
            data: copy_of(self.data.as_slice()),
            shape: self.shape.clone(),
            strides: copy_of(self.strides.as_slice()),
            tape: NoneTape,
        }
    }
}

/// The tape of a tensor that is not traced: it records nothing.
#[derive(Clone, Copy, Debug, PartialEq, Eq, Structural)]
pub struct NoneTape;

} // verus!
