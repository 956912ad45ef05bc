//! The sparse-to-dense operator: what it computes, forward and backward.

use crate::dtype::{zeros, Dtype};
use crate::shapes::{
    fits, in_bounds, lemma_num_elements_unfold, lemma_offset_below, lemma_offset_injective,
    num_elements, offset, row_major_strides, Shape,
};
use crate::gradients::allocated;
use crate::tape::{
    backward_pass, lemma_gradient_round_trip, BackwardOpView, OwnedTape, Tape,
};
use crate::tensor::{GhostTensor, NoneTape, Tensor, TensorView};
use vstd::prelude::*;
use vstd::slice::slice_subrange;

verus! {

/// Row `i` of a flat list of coordinates of rank `rank`.
pub open spec fn row(coordinates: Seq<usize>, rank: nat, i: int) -> Seq<usize> {
    coordinates.subrange(i * rank, i * rank + rank)
}

/// The flat position in a contiguous buffer of the given shape that row `i`
/// of the coordinates names.
pub open spec fn target(shape: Seq<usize>, coordinates: Seq<usize>, i: int) -> nat {
    offset(row_major_strides(shape), row(coordinates, shape.len(), i))
}

/// The list holds `n` coordinates of the rank of the shape, each within
/// its extents.
pub open spec fn rows_in_bounds(shape: Seq<usize>, coordinates: Seq<usize>, n: nat) -> bool {
    &&& coordinates.len() == n * shape.len()
    &&& forall|i: int| 0 <= i < n ==> in_bounds(shape, #[trigger] row(coordinates, shape.len(), i))
}

/// No coordinate names position `p`.
pub open spec fn unaddressed(shape: Seq<usize>, coordinates: Seq<usize>, n: nat, p: int) -> bool {
    forall|i: int| 0 <= i < n ==> #[trigger] target(shape, coordinates, i) != p
}

/// No coordinate behind row `i` names the position that row `i` names.
pub open spec fn last_writer(shape: Seq<usize>, coordinates: Seq<usize>, n: nat, i: int) -> bool {
    forall|j: int|
        i < j < n ==> #[trigger] target(shape, coordinates, j) != target(shape, coordinates, i)
}

/// `out` is the dense buffer of the shape in which each value lies at the
/// position of its coordinate, the later of two values with one position
/// wins, and every other position holds zero.
pub open spec fn is_scatter<E: Dtype>(
    out: Seq<E>,
    values: Seq<E>,
    shape: Seq<usize>,
    coordinates: Seq<usize>,
) -> bool {
    &&& out.len() == num_elements(shape)
    &&& forall|p: int|
        0 <= p < out.len() && unaddressed(shape, coordinates, values.len(), p)
            ==> #[trigger] out[p] == E::spec_zero()
    &&& forall|i: int|
        0 <= i < values.len() && last_writer(shape, coordinates, values.len(), i)
            ==> out[#[trigger] target(shape, coordinates, i) as int] == values[i]
}

/// `out` is a dense buffer of the shape in which every position that a
/// coordinate names holds one of the values with that coordinate, and every
/// other position holds zero.
pub open spec fn is_scatter_in_some_order<E: Dtype>(
    out: Seq<E>,
    values: Seq<E>,
    shape: Seq<usize>,
    coordinates: Seq<usize>,
) -> bool {
    &&& out.len() == num_elements(shape)
    &&& forall|p: int|
        0 <= p < out.len() ==> #[trigger] out[p] == E::spec_zero() && unaddressed(
            shape,
            coordinates,
            values.len(),
            p,
        ) || exists|i: int|
            0 <= i < values.len() && #[trigger] target(shape, coordinates, i) == p && out[p]
                == values[i]
}

/// The values that a buffer holds at the multiples of a stride.
pub open spec fn strided<E>(data: Seq<E>, stride: nat, n: nat) -> Seq<E> {
    Seq::new(n, |i: int| data[i * stride])
}

/// The gradient of the values after rows `0` to `k - 1` were routed back in
/// that order: the gradient at the position of each row's value has the
/// output gradient at the row's target added to it.
pub open spec fn gathered<E: Dtype>(
    grad_inp: Seq<E>,
    grad_out: Seq<E>,
    stride: nat,
    shape: Seq<usize>,
    coordinates: Seq<usize>,
    k: nat,
) -> Seq<E>
    decreases k,
{
    if k == 0 {
        grad_inp
    } else {
        let before = gathered(grad_inp, grad_out, stride, shape, coordinates, (k - 1) as nat);
        let at = (k - 1) * stride;
        before.update(
            at,
            before[at].spec_plus(grad_out[target(shape, coordinates, k - 1) as int]),
        )
    }
}

/// Where the values lie apart, routing the gradients back through rows `0`
/// to `k - 1` adds, for each of these rows, the output gradient at the
/// row's target to the gradient of the row's value, and leaves the
/// gradients of the values of the other rows as they were.
pub proof fn lemma_gathered_at<E: Dtype>(
    grad_inp: Seq<E>,
    grad_out: Seq<E>,
    stride: nat,
    shape: Seq<usize>,
    coordinates: Seq<usize>,
    n: nat,
    k: nat,
    i: int,
)
    requires
        stride >= 1,
        k <= n,
        0 <= i < n,
        (n - 1) * stride < grad_inp.len(),
    ensures
        gathered(grad_inp, grad_out, stride, shape, coordinates, k).len() == grad_inp.len(),
        0 <= i * stride < grad_inp.len(),
        gathered(grad_inp, grad_out, stride, shape, coordinates, k)[i * stride] == if i < k {
            grad_inp[i * stride].spec_plus(grad_out[target(shape, coordinates, i) as int])
        } else {
            grad_inp[i * stride]
        },
    decreases k,
{
    assert(0 <= i * stride <= (n - 1) * stride) by (nonlinear_arith)
        requires
            0 <= i < n,
            stride >= 1,
    ;
    if k > 0 {
        lemma_gathered_at(grad_inp, grad_out, stride, shape, coordinates, n, (k - 1) as nat, i);
        lemma_gathered_at(
            grad_inp,
            grad_out,
            stride,
            shape,
            coordinates,
            n,
            (k - 1) as nat,
            k - 1,
        );
        if i != k - 1 {
            assert(i * stride != (k - 1) * stride) by (nonlinear_arith)
                requires
                    i != k - 1,
                    stride >= 1,
            ;
        }
    }
}

/// A row of a list of `n` rows lies within the list.
pub proof fn lemma_row_range(n: nat, rank: nat, i: int)
    requires
        0 <= i < n,
    ensures
        0 <= i * rank,
        i * rank + rank <= n * rank,
{
    assert(0 <= i * rank && i * rank + rank <= n * rank) by (nonlinear_arith)
        requires
            0 <= i < n,
            0 <= rank,
    ;
}

/// The target of a row within the extents is a position of the buffer.
pub proof fn lemma_target_below(shape: Seq<usize>, coordinates: Seq<usize>, n: nat, i: int)
    requires
        fits(shape),
        rows_in_bounds(shape, coordinates, n),
        0 <= i < n,
    ensures
        target(shape, coordinates, i) < num_elements(shape) <= usize::MAX,
{
    lemma_offset_below(shape, row(coordinates, shape.len(), i));
}

/// Rows with one target are one coordinate.
pub proof fn lemma_target_injective(
    shape: Seq<usize>,
    coordinates: Seq<usize>,
    n: nat,
    i: int,
    j: int,
)
    requires
        fits(shape),
        rows_in_bounds(shape, coordinates, n),
        0 <= i < n,
        0 <= j < n,
        target(shape, coordinates, i) == target(shape, coordinates, j),
    ensures
        row(coordinates, shape.len(), i) == row(coordinates, shape.len(), j),
{
    lemma_offset_injective(
        shape,
        row(coordinates, shape.len(), i),
        row(coordinates, shape.len(), j),
    );
}

/// Writing one more value at the target of its row makes the scatter of the
/// values so far the scatter of these and the new value.
pub proof fn lemma_scatter_step<E: Dtype>(
    out: Seq<E>,
    values: Seq<E>,
    shape: Seq<usize>,
    coordinates: Seq<usize>,
    n: nat,
    v: E,
)
    requires
        fits(shape),
        rows_in_bounds(shape, coordinates, n),
        values.len() < n,
        is_scatter(out, values, shape, coordinates),
    ensures
        is_scatter(
            out.update(target(shape, coordinates, values.len() as int) as int, v),
            values.push(v),
            shape,
            coordinates,
        ),
{
    let k = values.len();
    let t = target(shape, coordinates, k as int) as int;
    let after = out.update(t, v);
    let more = values.push(v);
    lemma_target_below(shape, coordinates, n, k as int);
    assert forall|i: int|
        0 <= i < more.len() && last_writer(
            shape,
            coordinates,
            more.len(),
            i,
        ) implies after[#[trigger] target(shape, coordinates, i) as int] == more[i] by {
        lemma_target_below(shape, coordinates, n, i);
    }
}

/// The last row that names position `p`.
proof fn last_addressing(shape: Seq<usize>, coordinates: Seq<usize>, n: nat, p: int) -> (i: int)
    requires
        !unaddressed(shape, coordinates, n, p),
    ensures
        0 <= i < n,
        target(shape, coordinates, i) == p,
        last_writer(shape, coordinates, n, i),
    decreases n,
{
    if n == 0 {
        0
    } else if target(shape, coordinates, n - 1) == p {
        n - 1
    } else {
        last_addressing(shape, coordinates, (n - 1) as nat, p)
    }
}

/// A scatter in which the later value wins is a scatter in some order.
pub proof fn lemma_scatter_in_some_order<E: Dtype>(
    out: Seq<E>,
    values: Seq<E>,
    shape: Seq<usize>,
    coordinates: Seq<usize>,
)
    requires
        is_scatter(out, values, shape, coordinates),
    ensures
        is_scatter_in_some_order(out, values, shape, coordinates),
{
    assert forall|p: int| 0 <= p < out.len() implies #[trigger] out[p] == E::spec_zero()
        && unaddressed(shape, coordinates, values.len(), p) || exists|i: int|
        0 <= i < values.len() && #[trigger] target(shape, coordinates, i) == p && out[p]
            == values[i] by {
        if !unaddressed(shape, coordinates, values.len(), p) {
            last_addressing(shape, coordinates, values.len(), p);
        }
    }
}

/// Where no two coordinates are equal, each value lies at the position of
/// its coordinate, in whatever order the values were written, and every
/// position that no coordinate names holds zero.
pub proof fn lemma_scatter_without_duplicates<E: Dtype>(
    out: Seq<E>,
    values: Seq<E>,
    shape: Seq<usize>,
    coordinates: Seq<usize>,
)
    requires
        fits(shape),
        rows_in_bounds(shape, coordinates, values.len()),
        is_scatter_in_some_order(out, values, shape, coordinates),
        forall|i: int, j: int|
            0 <= i < j < values.len() ==> row(coordinates, shape.len(), i) != row(
                coordinates,
                shape.len(),
                j,
            ),
    ensures
        forall|i: int|
            0 <= i < values.len() ==> out[#[trigger] target(shape, coordinates, i) as int]
                == values[i],
        forall|p: int|
            0 <= p < out.len() && unaddressed(shape, coordinates, values.len(), p)
                ==> #[trigger] out[p] == E::spec_zero(),
{
    assert forall|i: int| 0 <= i < values.len() implies out[#[trigger] target(
        shape,
        coordinates,
        i,
    ) as int] == values[i] by {
        let p = target(shape, coordinates, i) as int;
        lemma_target_below(shape, coordinates, values.len(), i);
        let j = choose|j: int|
            0 <= j < values.len() && #[trigger] target(shape, coordinates, j) == p && out[p]
                == values[j];
        lemma_target_injective(shape, coordinates, values.len(), i, j);
    }
}

/// Why a call of the operator is refused.
#[derive(Clone, Copy, Debug, PartialEq, Eq, Structural)]
pub enum UsageError {
    /// The values are not of rank one.
    ValuesRank,
    /// The coordinates are not of rank two.
    IndicesRank,
    /// There are not as many coordinates as values.
    LengthMismatch,
    /// The coordinates do not have the rank of the output.
    RankMismatch,
    /// A coordinate lies outside the output.
    OutOfBounds,
}

/// Whether the shapes of the arguments go together, and if not, why: the
/// first of the reasons, in the order of [`UsageError`], that holds.
pub open spec fn shape_usage(
    values_shape: Seq<usize>,
    indices_shape: Seq<usize>,
    output_shape: Seq<usize>,
) -> Result<(), UsageError> {
    if values_shape.len() != 1 {
        Err(UsageError::ValuesRank)
    } else if indices_shape.len() != 2 {
        Err(UsageError::IndicesRank)
    } else if values_shape[0] != indices_shape[0] {
        Err(UsageError::LengthMismatch)
    } else if indices_shape[1] != output_shape.len() {
        Err(UsageError::RankMismatch)
    } else {
        Ok(())
    }
}

/// Whether the operator takes the arguments, and if not, why: what is wrong
/// with the shapes, or else that a coordinate lies outside the output.
pub open spec fn usage(
    values_shape: Seq<usize>,
    indices: TensorView<usize, NoneTape>,
    output_shape: Seq<usize>,
) -> Result<(), UsageError> {
    if shape_usage(values_shape, indices.shape, output_shape) is Err {
        shape_usage(values_shape, indices.shape, output_shape)
    } else if !rows_in_bounds(output_shape, indices.logical(), values_shape[0] as nat) {
        Err(UsageError::OutOfBounds)
    } else {
        Ok(())
    }
}

/// The backward computation that a scatter of the values registers.
pub open spec fn backward_of<E, T>(
    values: TensorView<E, T>,
    out: GhostTensor,
    coordinates: Seq<usize>,
    shape: Seq<usize>,
) -> BackwardOpView {
    BackwardOpView {
        inp: values.ghost(),
        out,
        stride: values.strides[0],
        coordinates,
        n: values.shape[0],
        shape,
    }
}

/// `out` is what the operator makes of the values and the coordinates: a
/// new contiguous buffer of the shape that is a scatter of the values in
/// some order, with the tape of the values, on which, if it records, the
/// backward computation is registered last.
pub open spec fn is_from_sparse<E: Dtype, T: Tape<E>>(
    out: TensorView<E, T>,
    values: TensorView<E, T>,
    indices: TensorView<usize, NoneTape>,
    shape: Seq<usize>,
) -> bool {
    &&& out.shape == shape
    &&& out.contiguous()
    &&& is_scatter_in_some_order(out.data, values.logical(), shape, indices.logical())
    &&& out.id != values.id
    &&& out.tape.wf()
    &&& out.tape.ledger() == values.tape.ledger()
    &&& out.tape.recorded() == if T::records() {
        values.tape.recorded().push(backward_of(values, out.ghost(), indices.logical(), shape))
    } else {
        values.tape.recorded()
    }
}

/// The gradient makes the round trip: where values that lie apart and were
/// not traced before are scattered, and the backward pass starts from a
/// ledger in which their gradient is not yet allocated or is zero, each
/// value gets the gradient that the output has at the position of its
/// coordinate.
pub proof fn lemma_from_sparse_round_trip<E: Dtype>(
    out: TensorView<E, OwnedTape<E>>,
    values: TensorView<E, OwnedTape<E>>,
    indices: TensorView<usize, NoneTape>,
    shape: Seq<usize>,
    seeded: Map<GhostTensor, Seq<E>>,
    i: int,
)
    requires
        is_from_sparse(out, values, indices, shape),
        values.tape.recorded().len() == 0,
        values.strides[0] >= 1,
        seeded.contains_key(values.ghost()) ==> seeded[values.ghost()] == zeros::<E>(
            values.ghost().len as nat,
        ),
        0 <= i < values.shape[0],
    ensures
        backward_pass(out.tape.recorded(), seeded).contains_key(values.ghost()),
        backward_pass(out.tape.recorded(), seeded)[values.ghost()][i * values.strides[0]]
            == allocated(seeded, out.ghost())[out.ghost()][target(
            shape,
            indices.logical(),
            i,
        ) as int],
{
    let operation = backward_of(values, out.ghost(), indices.logical(), shape);
    assert(out.tape.recorded() =~= seq![operation]);
    assert(out.tape.recorded()[0] == out.tape.operations@[0]@);
    lemma_gradient_round_trip(operation, seeded, i);
}

/// A device that can scatter values into a dense buffer.
pub trait FromSparse<E: Dtype, T: Tape<E>> {
    /// A new dense tensor of the given shape that holds each value at its
    /// coordinate and zero elsewhere. The values are of rank one; the
    /// coordinates are one row per value, of the rank of the output, and lie
    /// within it. Where two coordinates are equal, one of their values
    /// stays. If the values are traced, so is the result, and the gradient
    /// of the values is computed from that of the result on the backward
    /// pass.
    fn from_sparse(
        &mut self,
        values: Tensor<E, T>,
        indices: Tensor<usize, NoneTape>,
        output_shape: Shape,
    ) -> (out: Tensor<E, T>)
        requires
            values.wf(),
            values@.tape.wf(),
            indices.wf(),
            output_shape.wf(),
            usage(values@.shape, indices@, output_shape@) is Ok,
        ensures
            is_from_sparse(out@, values@, indices@, output_shape@),
    ;
}

/// Whether every row of the coordinates lies within the shape.
pub fn rows_within(shape: &Shape, coordinates: &[usize], n: usize) -> (r: bool)
    requires
        coordinates@.len() == n * shape@.len(),
    ensures
        r == rows_in_bounds(shape@, coordinates@, n as nat),
{
    let rank = shape.num_dims();
    let total = coordinates.len();
    let mut i: usize = 0;
    while i < n
        invariant
            i <= n,
            rank == shape@.len(),
            total == coordinates@.len(),
            coordinates@.len() == n * rank,
            forall|j: int|
                0 <= j < i ==> in_bounds(shape@, #[trigger] row(coordinates@, rank as nat, j)),
        decreases n - i,
    {
        proof {
            lemma_row_range(n as nat, rank as nat, i as int);
        }
        let index = slice_subrange(coordinates, i * rank, i * rank + rank);
        if !shape.contains(index) {
            assert(!in_bounds(shape@, row(coordinates@, rank as nat, i as int)));
            return false;
        }
        i += 1;
    }
    true
}

/// A shape of rank two counts its rows times its columns.
pub proof fn lemma_count_of_rows(shape: Seq<usize>)
    requires
        shape.len() == 2,
    ensures
        num_elements(shape) == shape[0] * shape[1],
{
    lemma_num_elements_unfold(shape, 1);
    assert(shape[1] * 1 == shape[1]) by (nonlinear_arith);
}

/// Says whether the shapes of the arguments go together, and if not, why.
/// No buffer is looked at.
pub fn check_shapes(values: &Shape, indices: &Shape, output: &Shape) -> (r: Result<
    (),
    UsageError,
>)
    ensures
        r == shape_usage(values@, indices@, output@),
{
    if values.num_dims() != 1 {
        return Err(UsageError::ValuesRank);
    }
    if indices.num_dims() != 2 {
        return Err(UsageError::IndicesRank);
    }
    if values.concrete()[0] != indices.concrete()[0] {
        return Err(UsageError::LengthMismatch);
    }
    if indices.concrete()[1] != output.num_dims() {
        return Err(UsageError::RankMismatch);
    }
    Ok(())
}

/// Says whether the operator takes the arguments, and if not, why. The
/// shapes are compared first; only where they go together are the
/// coordinates read.
pub fn check_usage<E, T>(
    values: &Tensor<E, T>,
    indices: &Tensor<usize, NoneTape>,
    output_shape: &Shape,
) -> (r: Result<(), UsageError>)
    requires
        indices.wf(),
    ensures
        r == usage(values@.shape, indices@, output_shape@),
{
    match check_shapes(values.shape(), indices.shape(), output_shape) {
        Ok(_) => {},
        Err(e) => {
            return Err(e);
        },
    }
    let n = values.shape().concrete()[0];
    let coordinates = indices.as_vec();
    proof {
        lemma_count_of_rows(indices@.shape);
    }
    if !rows_within(output_shape, coordinates.as_slice(), n) {
        return Err(UsageError::OutOfBounds);
    }
    Ok(())
}

/// The operator on any device, for arguments that it may refuse: the
/// arguments are checked, and the device is asked only for what it takes.
/// Where they are refused nothing has happened: the device is as it was, and
/// the values come back with their tape as it was.
pub fn try_from_sparse<E: Dtype, T: Tape<E>, D: FromSparse<E, T>>(
    device: &mut D,
    values: Tensor<E, T>,
    indices: Tensor<usize, NoneTape>,
    output_shape: Shape,
) -> (r: Result<Tensor<E, T>, (UsageError, Tensor<E, T>)>)
    requires
        values.wf(),
        values@.tape.wf(),
        indices.wf(),
        output_shape.wf(),
    ensures
        r is Ok == usage(values@.shape, indices@, output_shape@) is Ok,
        r matches Ok(out) ==> is_from_sparse(out@, values@, indices@, output_shape@),
        r matches Err(refused) ==> {
            &&& usage(values@.shape, indices@, output_shape@) == Err::<(), UsageError>(refused.0)
            &&& refused.1@ == values@
            &&& *final(device) == *old(device)
        },
{
    match check_usage(&values, &indices, &output_shape) {
        Ok(_) => Ok(device.from_sparse(values, indices, output_shape)),
        Err(e) => Err((e, values)),
    }
}

/// Values of rank one and coordinates of rank two are refused for their
/// lengths exactly where there are not as many coordinates as values, by
/// however many they differ and whatever else holds of them; and where the
/// lengths differ the operator does not take them.
pub proof fn lemma_length_mismatch_refused(
    values_shape: Seq<usize>,
    indices: TensorView<usize, NoneTape>,
    output_shape: Seq<usize>,
)
    requires
        values_shape.len() == 1,
        indices.shape.len() == 2,
    ensures
        usage(values_shape, indices, output_shape) == Err::<(), UsageError>(
            UsageError::LengthMismatch,
        ) <==> values_shape[0] != indices.shape[0],
        values_shape[0] != indices.shape[0] ==> shape_usage(
            values_shape,
            indices.shape,
            output_shape,
        ) == Err::<(), UsageError>(UsageError::LengthMismatch),
{
}

} // verus!
