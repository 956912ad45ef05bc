//! The host kernels: a sequential scatter forward and gather backward.

use crate::device::{following, Cpu};
use crate::dtype::{zeroed, Dtype};
use crate::from_sparse::{
    backward_of, gathered, is_scatter, lemma_count_of_rows, lemma_row_range,
    lemma_scatter_in_some_order, lemma_scatter_step, lemma_target_below, row, rows_in_bounds,
    strided, target, FromSparse,
};
use crate::shapes::{
    index_to_i, lemma_num_elements_unfold, num_elements, offset_from, row_major_strides, unravel,
    Shape,
};
use crate::tape::{BackwardOp, Tape};
use crate::tensor::{GhostTensor, NoneTape, Tensor, TensorView, UniqueId};
use vstd::prelude::*;
use vstd::slice::slice_subrange;

verus! {

/// Index `i` of `n` values that lie `stride` apart in a buffer is a position
/// of the buffer.
pub proof fn lemma_strided_position(n: nat, stride: nat, len: nat, i: int)
    requires
        0 <= i < n,
        (n - 1) * stride < len,
    ensures
        0 <= i * stride < len,
{
    assert(0 <= i * stride <= (n - 1) * stride) by (nonlinear_arith)
        requires
            0 <= i < n,
            0 <= stride,
    ;
}

/// The flat position that row `i` of the coordinates names.
pub fn target_of(shape: &Shape, strides: &[usize], coordinates: &[usize], n: usize, i: usize) -> (r:
    usize)
    requires
        shape.wf(),
        strides@ == row_major_strides(shape@),
        rows_in_bounds(shape@, coordinates@, n as nat),
        i < n,
    ensures
        r == target(shape@, coordinates@, i as int),
        r < num_elements(shape@),
{
    let rank = shape.num_dims();
    let total = coordinates.len();
    proof {
        lemma_row_range(n as nat, rank as nat, i as int);
        lemma_target_below(shape@, coordinates@, n as nat, i as int);
    }
    let index = slice_subrange(coordinates, i * rank, i * rank + rank);
    index_to_i(shape, strides, index)
}

/// Scatters `n` values, which lie `stride` apart in `values`, into a fresh
/// contiguous buffer of the shape: the buffer starts as zeros, and value `i`
/// is then written at the position of coordinate `i`, for `i` from zero up.
/// Of two values with one coordinate the later stays.
pub fn forward<E: Dtype>(
    values: &[E],
    stride: usize,
    coordinates: &[usize],
    n: usize,
    shape: &Shape,
) -> (out: Vec<E>)
    requires
        shape.wf(),
        rows_in_bounds(shape@, coordinates@, n as nat),
        n > 0 ==> (n - 1) * stride < values@.len(),
    ensures
        is_scatter(out@, strided(values@, stride as nat, n as nat), shape@, coordinates@),
{
    let len = shape.num_elements();
    let strides = shape.strides();
    let mut out = zeroed::<E>(len);
    let mut k: usize = 0;
    while k < n
        invariant
            k <= n,
            shape.wf(),
            strides@ == row_major_strides(shape@),
            rows_in_bounds(shape@, coordinates@, n as nat),
            n > 0 ==> (n - 1) * stride < values@.len(),
            is_scatter(out@, strided(values@, stride as nat, k as nat), shape@, coordinates@),
        decreases n - k,
    {
        let t = target_of(shape, strides.as_slice(), coordinates, n, k);
        let held = values.len();
        proof {
            lemma_strided_position(n as nat, stride as nat, held as nat, k as int);
            lemma_scatter_step(
                out@,
                strided(values@, stride as nat, k as nat),
                shape@,
                coordinates@,
                n as nat,
                values@[k * stride],
            );
        }
        out[t] = values[k * stride];
        k += 1;
    }
    out
}

/// Routes the gradient of the output back to the values: for `i` from zero
/// up, the output gradient at the position of coordinate `i` is added to the
/// gradient of value `i`, which lies at `i * stride`.
pub fn backward<E: Dtype>(
    grad_inp: &mut [E],
    grad_out: &[E],
    stride: usize,
    coordinates: &[usize],
    n: usize,
    shape: &Shape,
)
    requires
        shape.wf(),
        rows_in_bounds(shape@, coordinates@, n as nat),
        n > 0 ==> (n - 1) * stride < old(grad_inp)@.len(),
        grad_out@.len() == num_elements(shape@),
    ensures
        final(grad_inp)@ == gathered(
            old(grad_inp)@,
            grad_out@,
            stride as nat,
            shape@,
            coordinates@,
            n as nat,
        ),
        final(grad_inp)@.len() == old(grad_inp)@.len(),
{
    let strides = shape.strides();
    let mut k: usize = 0;
    while k < n
        invariant
            k <= n,
            shape.wf(),
            strides@ == row_major_strides(shape@),
            rows_in_bounds(shape@, coordinates@, n as nat),
            n > 0 ==> (n - 1) * stride < old(grad_inp)@.len(),
            grad_out@.len() == num_elements(shape@),
            grad_inp@.len() == old(grad_inp)@.len(),
            grad_inp@ == gathered(
                old(grad_inp)@,
                grad_out@,
                stride as nat,
                shape@,
                coordinates@,
                k as nat,
            ),
        decreases n - k,
    {
        let t = target_of(shape, strides.as_slice(), coordinates, n, k);
        let held = grad_inp.len();
        proof {
            lemma_strided_position(n as nat, stride as nat, held as nat, k as int);
        }
        let at = k * stride;
        grad_inp[at] = grad_inp[at].plus(grad_out[t]);
        k += 1;
    }
}

/// The elements of a tensor of rank one are those that its buffer holds at
/// the multiples of its stride, and the last of them lies in the buffer.
pub proof fn lemma_rank_one<E, T>(t: TensorView<E, T>)
    requires
        t.wf(),
        t.shape.len() == 1,
    ensures
        t.logical() == strided(t.data, t.strides[0] as nat, t.shape[0] as nat),
        t.shape[0] > 0 ==> (t.shape[0] - 1) * t.strides[0] < t.data.len(),
{
    let n = t.shape[0] as nat;
    let s = t.strides[0] as nat;
    assert forall|k: int| 0 <= k < n implies t.logical()[k] == t.data[k * s] by {
        let index = unravel(t.shape, k);
        assert(index[0] == k) by {
            assert(k / 1 == k);
            vstd::arithmetic::div_mod::lemma_small_mod(k as nat, n);
        }
        assert(offset_from(t.strides, index, 0) == k * s) by {
            reveal_with_fuel(offset_from, 2);
        }
    }
}

/// Element `(i, d)` of a tensor of rank two is element `i * columns + d` in
/// row-major order, and lies in the buffer at `i` times the first stride plus
/// `d` times the second.
pub proof fn lemma_rank_two<E, T>(t: TensorView<E, T>, i: int, d: int)
    requires
        t.wf(),
        t.shape.len() == 2,
        0 <= i < t.shape[0],
        0 <= d < t.shape[1],
    ensures
        t.logical().len() == t.shape[0] * t.shape[1],
        0 <= i * t.shape[1] + d < t.shape[0] * t.shape[1],
        0 <= i * t.strides[0] + d * t.strides[1] < t.data.len(),
        t.logical()[i * t.shape[1] + d] == t.data[i * t.strides[0] + d * t.strides[1]],
{
    let n = t.shape[0] as int;
    let columns = t.shape[1] as int;
    let k = i * columns + d;
    lemma_count_of_rows(t.shape);
    assert(0 <= k < n * columns) by (nonlinear_arith)
        requires
            k == i * columns + d,
            0 <= i < n,
            0 <= d < columns,
    ;
    lemma_num_elements_unfold(t.shape, 1);
    let index = unravel(t.shape, k);
    vstd::arithmetic::div_mod::lemma_fundamental_div_mod_converse(k, columns, i, d);
    vstd::arithmetic::div_mod::lemma_small_mod(i as nat, n as nat);
    assert(k / 1 == k);
    crate::shapes::lemma_covered(t.shape, t.strides, t.data.len(), index);
    assert(offset_from(t.strides, index, 0) == i * t.strides[0] + d * t.strides[1]) by {
        reveal_with_fuel(offset_from, 3);
    }
}

impl Cpu {
    /// Makes the result of a scatter out of the buffer that a kernel filled:
    /// a contiguous tensor of the shape over the buffer, with an identity
    /// that differs from that of the values, and with the tape of the
    /// values, on which the backward computation is registered.
    pub fn finish_from_sparse<E: Dtype, T: Tape<E>>(
        &mut self,
        values: Tensor<E, T>,
        coordinates: Vec<usize>,
        output_shape: Shape,
        data: Vec<E>,
    ) -> (out: Tensor<E, T>)
        requires
            values.wf(),
            values@.tape.wf(),
            values@.shape.len() == 1,
            output_shape.wf(),
            rows_in_bounds(output_shape@, coordinates@, values@.shape[0] as nat),
            data@.len() == num_elements(output_shape@),
        ensures
            out@.data == data@,
            out@.shape == output_shape@,
            out@.contiguous(),
            out@.id == if old(self).next_id() == values@.id.0 {
                UniqueId(following(values@.id.0))
            } else {
                UniqueId(old(self).next_id())
            },
            final(self).next_id() == following(out@.id.0),
            out@.tape.wf(),
            out@.tape.ledger() == values@.tape.ledger(),
            out@.tape.recorded() == if T::records() {
                values@.tape.recorded().push(
                    backward_of(values@, out@.ghost(), coordinates@, output_shape@),
                )
            } else {
                values@.tape.recorded()
            },
    {
        let (values, tape) = values.split_tape();
        let mut tape = tape;
        let n = values.shape().concrete()[0];
        let stride = values.strides()[0];
        let id = self.unique_id_besides(values.id());
        let strides = output_shape.strides();
        let inp = values.ghost();
        let out = GhostTensor { id, len: data.len() };
        let operation = BackwardOp::new(inp, out, stride, coordinates, n, output_shape.clone());
        tape.add_backward_op(operation);
        Tensor::from_parts(id, data, output_shape, strides, tape)
    }
}

impl<E: Dtype, T: Tape<E>> FromSparse<E, T> for Cpu {
    /// The scatter on the host: the values are written in their order, so
    /// that of two values with one coordinate the later stays.
    fn from_sparse(
        &mut self,
        values: Tensor<E, T>,
        indices: Tensor<usize, NoneTape>,
        output_shape: Shape,
    ) -> (out: Tensor<E, T>)
        ensures
            is_scatter(out@.data, values@.logical(), output_shape@, indices@.logical()),
            out@.id == if old(self).next_id() == values@.id.0 {
                UniqueId(following(values@.id.0))
            } else {
                UniqueId(old(self).next_id())
            },
            final(self).next_id() == following(out@.id.0),
    {
        let n = values.shape().concrete()[0];
        let stride = values.strides()[0];
        let coordinates = indices.as_vec();
        proof {
            lemma_rank_one(values@);
        }
        let data = forward(
            values.data().as_slice(),
            stride,
            coordinates.as_slice(),
            n,
            &output_shape,
        );
        proof {
            lemma_scatter_in_some_order(
                data@,
                values@.logical(),
                output_shape@,
                indices@.logical(),
            );
        }
        self.finish_from_sparse(values, coordinates, output_shape, data)
    }
}

} // verus!
