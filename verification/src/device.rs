//! The host device: it makes tensors and gives each buffer its identity.

use crate::dtype::{zeroed, zeros, Dtype};
use crate::error::Error;
use crate::shapes::{covers, lemma_row_major_covers, num_elements, Shape};
use crate::tensor::{NoneTape, Tensor, UniqueId};
use vstd::prelude::*;

verus! {

/// The host device. It counts the buffers that it has made: the count is the
/// identity of the next one, and starts over after `u64::MAX`.
pub struct Cpu {
    next_id: u64,
}

/// The number that follows `id`, which starts over after `u64::MAX`.
pub open spec fn following(id: u64) -> u64 {
    if id == u64::MAX {
        0
    } else {
        (id + 1) as u64
    }
}

impl Default for Cpu {
    fn default() -> (r: Self)
        ensures
            r.next_id() == 0,
    {
        Cpu { next_id: 0 }
    }
}

impl Cpu {
    /// The identity that the next buffer gets.
    pub closed spec fn next_id(&self) -> u64 {
        self.next_id
    }

    /// An identity for a new buffer.
    pub fn unique_id(&mut self) -> (r: UniqueId)
        ensures
            r == UniqueId(old(self).next_id()),
            final(self).next_id() == following(old(self).next_id()),
    {
        let id = self.next_id;
        self.next_id = id.wrapping_add(1);
        UniqueId(id)
    }

    /// An identity for a new buffer that differs from one in use: the next
    /// identity, or the one after it where the next is the one in use.
    pub fn unique_id_besides(&mut self, used: UniqueId) -> (r: UniqueId)
        ensures
            r != used,
            r == if old(self).next_id() == used.0 {
                UniqueId(following(used.0))
            } else {
                UniqueId(old(self).next_id())
            },
            final(self).next_id() == following(r.0),
    {
        let first = self.unique_id();
        if first.0 == used.0 {
            self.unique_id()
        } else {
            first
        }
    }

    /// A contiguous tensor of the shape over the buffer, unless the buffer
    /// does not have as many elements as the shape counts.
    pub fn tensor_from_vec<E>(&mut self, data: Vec<E>, shape: Shape) -> (r: Result<
        Tensor<E, NoneTape>,
        Error,
    >)
        requires
            shape.wf(),
        ensures
            r is Ok == (data@.len() == num_elements(shape@)),
            r matches Ok(t) ==> {
                &&& t@.id == UniqueId(old(self).next_id())
                &&& t@.data == data@
                &&& t@.shape == shape@
                &&& t@.contiguous()
                &&& t.wf()
                &&& final(self).next_id() == following(old(self).next_id())
            },
            r matches Err(e) ==> {
                &&& e == Error::WrongNumElements
                &&& final(self).next_id() == old(self).next_id()
            },
    {
        if data.len() != shape.num_elements() {
            return Err(Error::WrongNumElements);
        }
        let strides = shape.strides();
        proof {
            lemma_row_major_covers(shape@);
        }
        let id = self.unique_id();
        Ok(Tensor::from_parts(id, data, shape, strides, NoneTape))
    }

    /// A contiguous tensor of zeros of the shape.
    pub fn zeros_like<E: Dtype>(&mut self, shape: &Shape) -> (r: Tensor<E, NoneTape>)
        requires
            shape.wf(),
        ensures
            r@.id == UniqueId(old(self).next_id()),
            r@.data == zeros::<E>(num_elements(shape@)),
            r@.shape == shape@,
            r@.contiguous(),
            r.wf(),
            final(self).next_id() == following(old(self).next_id()),
    {
        let data = zeroed::<E>(shape.num_elements());
        let strides = shape.strides();
        proof {
            lemma_row_major_covers(shape@);
        }
        let id = self.unique_id();
        Tensor::from_parts(id, data, shape.clone(), strides, NoneTape)
    }

    /// A tensor that reads the buffer through the given strides, unless the
    /// strides reach beyond the buffer or are not as many as the extents.
    pub fn build_tensor<E>(
        &mut self,
        shape: Shape,
        strides: Vec<usize>,
        data: Vec<E>,
    ) -> (r: Option<Tensor<E, NoneTape>>)
        requires
            shape.wf(),
        ensures
            r is Some == covers(shape@, strides@, data@.len()),
            r matches Some(t) ==> {
                &&& t@.id == UniqueId(old(self).next_id())
                &&& t@.data == data@
                &&& t@.shape == shape@
                &&& t@.strides == strides@
                &&& t.wf()
                &&& final(self).next_id() == following(old(self).next_id())
            },
            r is None ==> final(self).next_id() == old(self).next_id(),
    {
        if !shape.covered_by(strides.as_slice(), data.len()) {
            return None;
        }
        let id = self.unique_id();
        Some(Tensor::from_parts(id, data, shape, strides, NoneTape))
    }
}

} // verus!
