//! The accelerator kernels: how a launch is sized, what the host hands to
//! the device, and what each worker does with it.

use crate::cpu_kernel::{lemma_rank_one, lemma_rank_two, lemma_strided_position};
use crate::dtype::{zeros, Dtype};
use crate::from_sparse::{
    gathered, is_scatter, is_scatter_in_some_order, lemma_row_range, lemma_scatter_step,
    lemma_target_below, row, rows_in_bounds, strided, target, unaddressed, usage,
};
use crate::shapes::{fits, num_elements, offset, offset_from, row_major_strides, Shape};
use crate::tape::BackwardOp;
use crate::tensor::{NoneTape, Tensor, TensorView, UniqueId};
use vstd::prelude::*;

verus! {

/// The number of workers in a group.
pub const BLOCK_SIZE: u32 = 128;

/// The element types for which the device has kernels.
#[derive(Clone, Copy, Debug, PartialEq, Eq, Structural)]
pub enum KernelDtype {
    /// Half precision.
    F16,
    /// Single precision.
    F32,
    /// Double precision.
    F64,
}

/// The name of the module that holds the two kernels for an element type.
pub open spec fn spec_module_name(dtype: KernelDtype) -> Seq<char> {
    match dtype {
        KernelDtype::F16 => "from_sparse_f16"@,
        KernelDtype::F32 => "from_sparse_f32"@,
        KernelDtype::F64 => "from_sparse_f64"@,
    }
}

/// The name of the forward kernel for an element type.
pub open spec fn spec_fwd_name(dtype: KernelDtype) -> Seq<char> {
    match dtype {
        KernelDtype::F16 => "from_sparse_fwd_f16"@,
        KernelDtype::F32 => "from_sparse_fwd_f32"@,
        KernelDtype::F64 => "from_sparse_fwd_f64"@,
    }
}

/// The name of the backward kernel for an element type.
pub open spec fn spec_bwd_name(dtype: KernelDtype) -> Seq<char> {
    match dtype {
        KernelDtype::F16 => "from_sparse_bwd_f16"@,
        KernelDtype::F32 => "from_sparse_bwd_f32"@,
        KernelDtype::F64 => "from_sparse_bwd_f64"@,
    }
}

/// The name of the module that holds the two kernels for an element type.
pub fn module_name(dtype: KernelDtype) -> (r: &'static str)
    ensures
        r@ == spec_module_name(dtype),
{
    match dtype {
        KernelDtype::F16 => "from_sparse_f16",
        KernelDtype::F32 => "from_sparse_f32",
        KernelDtype::F64 => "from_sparse_f64",
    }
}

/// The name of the forward kernel for an element type.
pub fn fwd_name(dtype: KernelDtype) -> (r: &'static str)
    ensures
        r@ == spec_fwd_name(dtype),
{
    match dtype {
        KernelDtype::F16 => "from_sparse_fwd_f16",
        KernelDtype::F32 => "from_sparse_fwd_f32",
        KernelDtype::F64 => "from_sparse_fwd_f64",
    }
}

/// The name of the backward kernel for an element type.
pub fn bwd_name(dtype: KernelDtype) -> (r: &'static str)
    ensures
        r@ == spec_bwd_name(dtype),
{
    match dtype {
        KernelDtype::F16 => "from_sparse_bwd_f16",
        KernelDtype::F32 => "from_sparse_bwd_f32",
        KernelDtype::F64 => "from_sparse_bwd_f64",
    }
}

/// Which kernel modules a device has loaded. A module is loaded once, before
/// its first launch, and stays loaded.
pub struct KernelCache {
    half: bool,
    single: bool,
    double: bool,
}

impl KernelCache {
    /// Whether the module for the element type is loaded.
    pub closed spec fn is_loaded(&self, dtype: KernelDtype) -> bool {
        match dtype {
            KernelDtype::F16 => self.half,
            KernelDtype::F32 => self.single,
            KernelDtype::F64 => self.double,
        }
    }

    /// A cache in which no module is loaded.
    pub fn new() -> (r: Self)
        ensures
            forall|dtype: KernelDtype| !r.is_loaded(dtype),
    {
        KernelCache { half: false, single: false, double: false }
    }

    /// Whether the module for the element type is loaded.
    pub fn has_module(&self, dtype: KernelDtype) -> (r: bool)
        ensures
            r == self.is_loaded(dtype),
    {
        match dtype {
            KernelDtype::F16 => self.half,
            KernelDtype::F32 => self.single,
            KernelDtype::F64 => self.double,
        }
    }

    /// Records that the module for the element type is loaded, and says
    /// whether the caller has to load it now: it has to on the first call for
    /// the element type, and on no later one.
    pub fn ensure_loaded(&mut self, dtype: KernelDtype) -> (load: bool)
        ensures
            load == !old(self).is_loaded(dtype),
            final(self).is_loaded(dtype),
            forall|other: KernelDtype|
                other != dtype ==> final(self).is_loaded(other) == old(self).is_loaded(other),
    {
        let load = !self.has_module(dtype);
        match dtype {
            KernelDtype::F16 => {
                self.half = true;
            },
            KernelDtype::F32 => {
                self.single = true;
            },
            KernelDtype::F64 => {
                self.double = true;
            },
        }
        load
    }
}

/// How many workers run a kernel, and in what groups.
#[derive(Clone, Copy, Debug, PartialEq, Eq)]
pub struct LaunchConfig {
    /// The number of groups, in three dimensions.
    pub grid_dim: (u32, u32, u32),
    /// The number of workers in a group, in three dimensions.
    pub block_dim: (u32, u32, u32),
    /// The memory that the workers of a group share, in bytes.
    pub shared_mem_bytes: u32,
}

impl LaunchConfig {
    /// The number of workers along the first dimension.
    pub open spec fn workers(self) -> nat {
        (self.grid_dim.0 * self.block_dim.0) as nat
    }
}

/// The number of groups of `size` workers that hold `n` workers: `n / size`,
/// rounded up.
pub open spec fn groups(n: nat, size: nat) -> nat {
    n / size + if n % size == 0 {
        0nat
    } else {
        1nat
    }
}

/// Groups of `size` hold `n` workers with less than one group to spare.
pub proof fn lemma_groups(n: nat, size: nat)
    requires
        size > 0,
    ensures
        n <= groups(n, size) * size < n + size,
        size >= 2 ==> groups(n, size) <= n / 2 + 1,
        size == 1 ==> groups(n, size) == n,
{
    let q = n / size;
    let r = n % size;
    assert(n == q * size + r && 0 <= r < size) by (nonlinear_arith)
        requires
            size > 0,
            q == n / size,
            r == n % size,
    ;
    assert((q + 1) * size == q * size + size) by (nonlinear_arith);
    if size >= 2 {
        assert(q <= n / 2) by (nonlinear_arith)
            requires
                size >= 2,
                n == q * size + r,
                0 <= r,
                0 <= q,
        ;
    }
}

/// A launch with one worker for each of `n` elements, in groups of
/// `NUM_THREADS`: as many groups as hold `n` workers, the last one perhaps
/// in part.
pub fn launch_cfg<const NUM_THREADS: u32>(n: u32) -> (cfg: LaunchConfig)
    requires
        NUM_THREADS > 0,
    ensures
        cfg.grid_dim == (groups(n as nat, NUM_THREADS as nat) as u32, 1u32, 1u32),
        cfg.block_dim == (NUM_THREADS, 1u32, 1u32),
        cfg.shared_mem_bytes == 0,
        groups(n as nat, NUM_THREADS as nat) <= u32::MAX,
        n <= cfg.workers() < n + NUM_THREADS,
{
    proof {
        lemma_groups(n as nat, NUM_THREADS as nat);
    }
    let full = n / NUM_THREADS;
    let num_blocks = if n % NUM_THREADS == 0 {
        full
    } else {
        full + 1
    };
    LaunchConfig {
        grid_dim: (num_blocks, 1, 1),
        block_dim: (NUM_THREADS, 1, 1),
        shared_mem_bytes: 0,
    }
}

/// A launch with one worker for each of `n` elements, in groups of
/// `NUM_THREADS`, for a count that may be beyond what a launch can hold:
/// there is one as long as the number of groups is within `u32::MAX`.
pub fn launch_for<const NUM_THREADS: u32>(n: usize) -> (r: Option<LaunchConfig>)
    requires
        NUM_THREADS > 0,
    ensures
        r is Some == (groups(n as nat, NUM_THREADS as nat) <= u32::MAX),
        r matches Some(cfg) ==> {
            &&& cfg.grid_dim == (groups(n as nat, NUM_THREADS as nat) as u32, 1u32, 1u32)
            &&& cfg.block_dim == (NUM_THREADS, 1u32, 1u32)
            &&& cfg.shared_mem_bytes == 0
            &&& n <= cfg.workers() < n + NUM_THREADS
        },
{
    proof {
        lemma_groups(n as nat, NUM_THREADS as nat);
    }
    let size = NUM_THREADS as usize;
    let full = n / size;
    let num_blocks = if n % size == 0 {
        full
    } else {
        full + 1
    };
    if num_blocks > u32::MAX as usize {
        return None;
    }
    Some(
        LaunchConfig {
            grid_dim: (num_blocks as u32, 1, 1),
            block_dim: (NUM_THREADS, 1, 1),
            shared_mem_bytes: 0,
        },
    )
}

/// The extents and the strides of a buffer as the device gets them: in one
/// list, the extents first.
pub fn shape_info(extents: &[usize], strides: &[usize]) -> (info: Vec<usize>)
    ensures
        info@ == extents@ + strides@,
{
    let mut info: Vec<usize> = Vec::new();
    let mut i: usize = 0;
    while i < extents.len()
        invariant
            i <= extents@.len(),
            info@ == extents@.subrange(0, i as int),
        decreases extents@.len() - i,
    {
        info.push(extents[i]);
        i += 1;
    }
    let mut j: usize = 0;
    while j < strides.len()
        invariant
            j <= strides@.len(),
            info@ == extents@ + strides@.subrange(0, j as int),
        decreases strides@.len() - j,
    {
        info.push(strides[j]);
        j += 1;
    }
    info
}

/// The buffer as the device reads it through a list of extents and strides.
pub open spec fn described<E>(data: Seq<E>, info: Seq<usize>, rank: nat) -> TensorView<
    E,
    NoneTape,
> {
    TensorView {
        id: UniqueId(0),
        data,
        shape: info.subrange(0, rank as int),
        strides: info.subrange(rank as int, 2 * rank as int),
        tape: NoneTape,
    }
}

/// What a kernel needs of the coordinates and the output to stay within its
/// buffers: the lists describe `numel` coordinates of the rank of the
/// output, and a contiguous output that holds every one of them.
pub open spec fn coordinates_ok(
    numel: nat,
    indices: Seq<usize>,
    indices_info: Seq<usize>,
    output_len: nat,
    output_info: Seq<usize>,
    num_dims: nat,
) -> bool {
    let shape = output_info.subrange(0, num_dims as int);
    &&& indices_info.len() == 4
    &&& indices_info[0] == numel
    &&& indices_info[1] == num_dims
    &&& described(indices, indices_info, 2).wf()
    &&& output_info.len() == 2 * num_dims
    &&& fits(shape)
    &&& output_info.subrange(num_dims as int, 2 * num_dims as int) == row_major_strides(shape)
    &&& output_len == num_elements(shape)
    &&& rows_in_bounds(shape, described(indices, indices_info, 2).logical(), numel)
}

/// What a kernel needs of its arguments to stay within its buffers: the
/// first list describes `numel` values that lie in their buffer, and the
/// others are as [`coordinates_ok`] says.
pub open spec fn args_ok(
    numel: nat,
    values_len: nat,
    values_info: Seq<usize>,
    indices: Seq<usize>,
    indices_info: Seq<usize>,
    output_len: nat,
    output_info: Seq<usize>,
    num_dims: nat,
) -> bool {
    &&& values_info.len() == 2
    &&& values_info[0] == numel
    &&& numel > 0 ==> (numel - 1) * values_info[1] < values_len
    &&& coordinates_ok(numel, indices, indices_info, output_len, output_info, num_dims)
}

/// The coordinates as the device reads them, row after row.
pub open spec fn device_rows(indices: Seq<usize>, indices_info: Seq<usize>) -> Seq<usize> {
    described(indices, indices_info, 2).logical()
}

/// The extents of the output as the device gets them.
pub open spec fn device_shape(output_info: Seq<usize>, num_dims: nat) -> Seq<usize> {
    output_info.subrange(0, num_dims as int)
}

/// What the host prepares for a launch of the forward or the backward
/// kernel.
pub struct LaunchPlan {
    /// One worker per value, in groups of [`BLOCK_SIZE`].
    pub cfg: LaunchConfig,
    /// The number of values.
    pub numel: usize,
    /// The extent and the stride of the values.
    pub values_info: Vec<usize>,
    /// The extents and the strides of the coordinates.
    pub indices_info: Vec<usize>,
    /// The extents and the strides of the output.
    pub output_info: Vec<usize>,
    /// The number of elements of the output.
    pub output_len: usize,
    /// The rank of the output.
    pub num_dims: usize,
}

/// The plan for a launch over arguments that the operator takes: one worker
/// per value, in groups of [`BLOCK_SIZE`], rounded up. There is none only
/// where the groups are more than `u32::MAX`.
pub fn plan<E, T>(
    values: &Tensor<E, T>,
    indices: &Tensor<usize, NoneTape>,
    output_shape: &Shape,
) -> (r: Option<LaunchPlan>)
    requires
        values.wf(),
        indices.wf(),
        output_shape.wf(),
        usage(values@.shape, indices@, output_shape@) is Ok,
    ensures
        r is Some == (groups(values@.shape[0] as nat, BLOCK_SIZE as nat) <= u32::MAX),
        r matches Some(p) ==> {
            &&& p.numel == values@.shape[0]
            &&& p.values_info@ == values@.shape + values@.strides
            &&& p.indices_info@ == indices@.shape + indices@.strides
            &&& p.output_info@ == output_shape@ + row_major_strides(output_shape@)
            &&& p.output_len == num_elements(output_shape@)
            &&& p.num_dims == output_shape@.len()
            &&& p.cfg.grid_dim == (groups(p.numel as nat, BLOCK_SIZE as nat) as u32, 1u32, 1u32)
            &&& p.cfg.block_dim == (BLOCK_SIZE, 1u32, 1u32)
            &&& p.cfg.shared_mem_bytes == 0
            &&& p.numel <= p.cfg.workers()
            &&& args_ok(
                p.numel as nat,
                values@.data.len(),
                p.values_info@,
                indices@.data,
                p.indices_info@,
                p.output_len as nat,
                p.output_info@,
                p.num_dims as nat,
            )
            &&& strided(values@.data, p.values_info@[1] as nat, p.numel as nat)
                == values@.logical()
            &&& device_rows(indices@.data, p.indices_info@) == indices@.logical()
            &&& device_shape(p.output_info@, p.num_dims as nat) == output_shape@
        },
{
    let numel = values.shape().concrete()[0];
    let cfg = match launch_for::<BLOCK_SIZE>(numel) {
        Some(cfg) => cfg,
        None => {
            return None;
        },
    };
    let values_info = shape_info(values.shape().concrete().as_slice(), values.strides().as_slice());
    let indices_info = shape_info(
        indices.shape().concrete().as_slice(),
        indices.strides().as_slice(),
    );
    let strides = output_shape.strides();
    let output_info = shape_info(output_shape.concrete().as_slice(), strides.as_slice());
    let output_len = output_shape.num_elements();
    let num_dims = output_shape.num_dims();
    proof {
        lemma_rank_one(values@);
        let ix = described(indices@.data, indices_info@, 2);
        assert(ix.shape =~= indices@.shape);
        assert(ix.strides =~= indices@.strides);
        assert(output_info@.subrange(0, num_dims as int) =~= output_shape@);
        assert(output_info@.subrange(num_dims as int, 2 * num_dims) =~= row_major_strides(
            output_shape@,
        ));
        assert(ix.logical() =~= indices@.logical());
    }
    Some(LaunchPlan { cfg, numel, values_info, indices_info, output_info, output_len, num_dims })
}

/// The plan for a launch of the backward kernel over a recorded computation,
/// whose coordinates lie row after row: one worker per value, in groups of
/// [`BLOCK_SIZE`], rounded up. There is none only where the groups are more
/// than `u32::MAX`.
pub fn plan_backward(operation: &BackwardOp) -> (r: Option<LaunchPlan>)
    requires
        operation@.wf(),
    ensures
        r is Some == (groups(operation@.n as nat, BLOCK_SIZE as nat) <= u32::MAX),
        r matches Some(p) ==> {
            &&& p.numel == operation@.n
            &&& p.values_info@ == seq![operation@.n, operation@.stride]
            &&& p.indices_info@ == seq![
                operation@.n,
                operation@.shape.len() as usize,
                operation@.shape.len() as usize,
                1usize,
            ]
            &&& p.output_info@ == operation@.shape + row_major_strides(operation@.shape)
            &&& p.output_len == operation@.out.len
            &&& p.num_dims == operation@.shape.len()
            &&& p.cfg.grid_dim == (groups(p.numel as nat, BLOCK_SIZE as nat) as u32, 1u32, 1u32)
            &&& p.cfg.block_dim == (BLOCK_SIZE, 1u32, 1u32)
            &&& p.cfg.shared_mem_bytes == 0
            &&& p.numel <= p.cfg.workers()
            &&& args_ok(
                p.numel as nat,
                operation@.inp.len as nat,
                p.values_info@,
                operation@.coordinates,
                p.indices_info@,
                p.output_len as nat,
                p.output_info@,
                p.num_dims as nat,
            )
            &&& device_rows(operation@.coordinates, p.indices_info@) == operation@.coordinates
            &&& device_shape(p.output_info@, p.num_dims as nat) == operation@.shape
        },
{
    let numel = operation.n();
    let cfg = match launch_for::<BLOCK_SIZE>(numel) {
        Some(cfg) => cfg,
        None => {
            return None;
        },
    };
    let num_dims = operation.shape().num_dims();
    let held = operation.coordinates().len();
    let mut values_info: Vec<usize> = Vec::new();
    values_info.push(numel);
    values_info.push(operation.stride());
    let mut indices_info: Vec<usize> = Vec::new();
    indices_info.push(numel);
    indices_info.push(num_dims);
    indices_info.push(num_dims);
    indices_info.push(1);
    let strides = operation.shape().strides();
    let output_info = shape_info(operation.shape().concrete().as_slice(), strides.as_slice());
    let output_len = operation.shape().num_elements();
    proof {
        let rows = described(operation@.coordinates, indices_info@, 2);
        let extents = seq![numel, num_dims];
        assert(rows.shape =~= extents);
        assert(extents.skip(2) =~= Seq::<usize>::empty());
        assert(extents.skip(1) =~= seq![num_dims]);
        assert(extents.skip(0) =~= extents);
        assert(seq![num_dims].skip(1) =~= Seq::<usize>::empty());
        assert(num_elements(extents.skip(2)) == 1);
        assert(num_elements(extents.skip(1)) == num_dims) by {
            assert(num_dims * 1 == num_dims) by (nonlinear_arith);
        }
        assert(rows.strides =~= row_major_strides(extents));
        rows.lemma_contiguous_logical();
        assert(output_info@.subrange(0, num_dims as int) =~= operation@.shape);
        assert(output_info@.subrange(num_dims as int, 2 * num_dims as int) =~= row_major_strides(
            operation@.shape,
        ));
    }
    Some(LaunchPlan { cfg, numel, values_info, indices_info, output_info, output_len, num_dims })
}

/// The position of the output that worker `i` writes or reads: its
/// coordinate, read through the strides of the coordinates, times the
/// strides of the output.
fn target_on_device(
    i: usize,
    numel: usize,
    indices: &[usize],
    indices_info: &[usize],
    output_len: usize,
    output_info: &[usize],
    num_dims: usize,
) -> (r: usize)
    requires
        i < numel,
        coordinates_ok(
            numel as nat,
            indices@,
            indices_info@,
            output_len as nat,
            output_info@,
            num_dims as nat,
        ),
    ensures
        r == target(
            device_shape(output_info@, num_dims as nat),
            device_rows(indices@, indices_info@),
            i as int,
        ),
        r < output_len,
{
    let ghost shape = device_shape(output_info@, num_dims as nat);
    let ghost strides = output_info@.subrange(num_dims as int, 2 * num_dims as int);
    let ghost rows = device_rows(indices@, indices_info@);
    let ghost index = row(rows, num_dims as nat, i as int);
    let ghost read = described(indices@, indices_info@, 2);
    let row_stride = indices_info[2];
    let column_stride = indices_info[3];
    let held = indices.len();
    let listed = output_info.len();
    proof {
        lemma_target_below(shape, rows, numel as nat, i as int);
        lemma_row_range(numel as nat, num_dims as nat, i as int);
    }
    let mut d: usize = 0;
    let mut acc: usize = 0;
    while d < num_dims
        invariant
            d <= num_dims,
            i < numel,
            held == indices@.len(),
            listed == output_info@.len(),
            coordinates_ok(
                numel as nat,
                indices@,
                indices_info@,
                output_len as nat,
                output_info@,
                num_dims as nat,
            ),
            row_stride == indices_info@[2],
            column_stride == indices_info@[3],
            shape == device_shape(output_info@, num_dims as nat),
            strides == output_info@.subrange(num_dims as int, 2 * num_dims as int),
            rows == device_rows(indices@, indices_info@),
            index == row(rows, num_dims as nat, i as int),
            read == described(indices@, indices_info@, 2),
            0 <= i * num_dims,
            i * num_dims + num_dims <= numel * num_dims,
            index.len() == num_dims,
            acc + offset_from(strides, index, d as int) == offset(strides, index),
            offset(strides, index) < output_len,
        decreases num_dims - d,
    {
        proof {
            lemma_rank_two(read, i as int, d as int);
        }
        let c = indices[i * row_stride + d * column_stride];
        acc = acc + c * output_info[num_dims + d];
        d += 1;
    }
    acc
}

/// What worker `i` of the forward kernel does: a worker beyond the values
/// does nothing; any other writes its value to the output, at the position
/// of its coordinate.
pub fn from_sparse_fwd<E: Dtype>(
    i: usize,
    numel: usize,
    values: &[E],
    values_info: &[usize],
    indices: &[usize],
    indices_info: &[usize],
    output: &mut [E],
    output_info: &[usize],
    num_dims: usize,
)
    requires
        args_ok(
            numel as nat,
            values@.len(),
            values_info@,
            indices@,
            indices_info@,
            old(output)@.len(),
            output_info@,
            num_dims as nat,
        ),
    ensures
        final(output)@ == if i < numel {
            old(output)@.update(
                target(
                    device_shape(output_info@, num_dims as nat),
                    device_rows(indices@, indices_info@),
                    i as int,
                ) as int,
                values@[i * values_info@[1]],
            )
        } else {
            old(output)@
        },
{
    if i >= numel {
        return ;
    }
    let output_len = output.len();
    let t = target_on_device(i, numel, indices, indices_info, output_len, output_info, num_dims);
    let held = values.len();
    proof {
        lemma_strided_position(numel as nat, values_info@[1] as nat, held as nat, i as int);
    }
    output[t] = values[i * values_info[1]];
}

/// What worker `i` of the backward kernel does: a worker beyond the values
/// does nothing; any other adds the output gradient at the position of its
/// coordinate to the gradient of its value.
pub fn from_sparse_bwd<E: Dtype>(
    i: usize,
    numel: usize,
    grad_inp: &mut [E],
    values_info: &[usize],
    indices: &[usize],
    indices_info: &[usize],
    grad_out: &[E],
    output_info: &[usize],
    num_dims: usize,
)
    requires
        args_ok(
            numel as nat,
            old(grad_inp)@.len(),
            values_info@,
            indices@,
            indices_info@,
            grad_out@.len(),
            output_info@,
            num_dims as nat,
        ),
    ensures
        final(grad_inp)@ == if i < numel {
            old(grad_inp)@.update(
                i * values_info@[1],
                old(grad_inp)@[i * values_info@[1]].spec_plus(
                    grad_out@[target(
                        device_shape(output_info@, num_dims as nat),
                        device_rows(indices@, indices_info@),
                        i as int,
                    ) as int],
                ),
            )
        } else {
            old(grad_inp)@
        },
{
    if i >= numel {
        return ;
    }
    let output_len = grad_out.len();
    let t = target_on_device(i, numel, indices, indices_info, output_len, output_info, num_dims);
    let held = grad_inp.len();
    proof {
        lemma_strided_position(numel as nat, values_info@[1] as nat, held as nat, i as int);
    }
    let at = i * values_info[1];
    grad_inp[at] = grad_inp[at].plus(grad_out[t]);
}

/// Runs the forward kernel on the host: the workers of the launch run one
/// after the other, in the order of their numbers, over an output of zeros.
pub fn launch_fwd<E: Dtype>(
    cfg: &LaunchConfig,
    numel: usize,
    values: &[E],
    values_info: &[usize],
    indices: &[usize],
    indices_info: &[usize],
    output: &mut [E],
    output_info: &[usize],
    num_dims: usize,
)
    requires
        args_ok(
            numel as nat,
            values@.len(),
            values_info@,
            indices@,
            indices_info@,
            old(output)@.len(),
            output_info@,
            num_dims as nat,
        ),
        numel <= cfg.workers(),
        old(output)@ == zeros::<E>(old(output)@.len()),
    ensures
        is_scatter(
            final(output)@,
            strided(values@, values_info@[1] as nat, numel as nat),
            device_shape(output_info@, num_dims as nat),
            device_rows(indices@, indices_info@),
        ),
{
    let ghost shape = device_shape(output_info@, num_dims as nat);
    let ghost rows = device_rows(indices@, indices_info@);
    let ghost stride = values_info@[1] as nat;
    assert(cfg.grid_dim.0 * cfg.block_dim.0 <= u64::MAX) by (nonlinear_arith)
        requires
            cfg.grid_dim.0 <= u32::MAX,
            cfg.block_dim.0 <= u32::MAX,
    ;
    let workers: u64 = (cfg.grid_dim.0 as u64) * (cfg.block_dim.0 as u64);
    let mut w: u64 = 0;
    while w < workers
        invariant
            w <= workers,
            numel <= workers,
            shape == device_shape(output_info@, num_dims as nat),
            rows == device_rows(indices@, indices_info@),
            stride == values_info@[1],
            output@.len() == old(output)@.len(),
            args_ok(
                numel as nat,
                values@.len(),
                values_info@,
                indices@,
                indices_info@,
                output@.len(),
                output_info@,
                num_dims as nat,
            ),
            is_scatter(
                output@,
                strided(values@, stride, if w < numel { w as nat } else { numel as nat }),
                shape,
                rows,
            ),
        decreases workers - w,
    {
        if w < numel as u64 {
            let i = w as usize;
            proof {
                lemma_scatter_step(
                    output@,
                    strided(values@, stride, i as nat),
                    shape,
                    rows,
                    numel as nat,
                    values@[i * stride],
                );
            }
            from_sparse_fwd(
                i,
                numel,
                values,
                values_info,
                indices,
                indices_info,
                output,
                output_info,
                num_dims,
            );
        }
        w += 1;
    }
}

/// Runs the backward kernel on the host: the workers of the launch run one
/// after the other, in the order of their numbers.
pub fn launch_bwd<E: Dtype>(
    cfg: &LaunchConfig,
    numel: usize,
    grad_inp: &mut [E],
    values_info: &[usize],
    indices: &[usize],
    indices_info: &[usize],
    grad_out: &[E],
    output_info: &[usize],
    num_dims: usize,
)
    requires
        args_ok(
            numel as nat,
            old(grad_inp)@.len(),
            values_info@,
            indices@,
            indices_info@,
            grad_out@.len(),
            output_info@,
            num_dims as nat,
        ),
        numel <= cfg.workers(),
    ensures
        final(grad_inp)@ == gathered(
            old(grad_inp)@,
            grad_out@,
            values_info@[1] as nat,
            device_shape(output_info@, num_dims as nat),
            device_rows(indices@, indices_info@),
            numel as nat,
        ),
        final(grad_inp)@.len() == old(grad_inp)@.len(),
{
    let ghost shape = device_shape(output_info@, num_dims as nat);
    let ghost rows = device_rows(indices@, indices_info@);
    let ghost stride = values_info@[1] as nat;
    assert(cfg.grid_dim.0 * cfg.block_dim.0 <= u64::MAX) by (nonlinear_arith)
        requires
            cfg.grid_dim.0 <= u32::MAX,
            cfg.block_dim.0 <= u32::MAX,
    ;
    let workers: u64 = (cfg.grid_dim.0 as u64) * (cfg.block_dim.0 as u64);
    let mut w: u64 = 0;
    while w < workers
        invariant
            w <= workers,
            numel <= workers,
            shape == device_shape(output_info@, num_dims as nat),
            rows == device_rows(indices@, indices_info@),
            stride == values_info@[1],
            grad_inp@.len() == old(grad_inp)@.len(),
            args_ok(
                numel as nat,
                grad_inp@.len(),
                values_info@,
                indices@,
                indices_info@,
                grad_out@.len(),
                output_info@,
                num_dims as nat,
            ),
            grad_inp@ == gathered(
                old(grad_inp)@,
                grad_out@,
                stride,
                shape,
                rows,
                if w < numel {
                    w as nat
                } else {
                    numel as nat
                },
            ),
        decreases workers - w,
    {
        if w < numel as u64 {
            let i = w as usize;
            proof {
                lemma_strided_position(numel as nat, stride, grad_inp@.len(), i as int);
            }
            from_sparse_bwd(
                i,
                numel,
                grad_inp,
                values_info,
                indices,
                indices_info,
                grad_out,
                output_info,
                num_dims,
            );
        }
        w += 1;
    }
}

/// The output after the workers named in `order` wrote their values one
/// after the other, in that order.
pub open spec fn written<E>(
    out: Seq<E>,
    values: Seq<E>,
    shape: Seq<usize>,
    coordinates: Seq<usize>,
    order: Seq<int>,
) -> Seq<E>
    decreases order.len(),
{
    if order.len() == 0 {
        out
    } else {
        written(out, values, shape, coordinates, order.drop_last()).update(
            target(shape, coordinates, order.last()) as int,
            values[order.last()],
        )
    }
}

/// Position `p` holds the value of a worker in `order` that wrote there, or
/// zero where none of them did.
spec fn settled<E: Dtype>(
    out: Seq<E>,
    values: Seq<E>,
    shape: Seq<usize>,
    coordinates: Seq<usize>,
    order: Seq<int>,
    p: int,
) -> bool {
    ||| out[p] == E::spec_zero() && forall|j: int|
        0 <= j < order.len() ==> target(shape, coordinates, #[trigger] order[j]) != p
    ||| exists|j: int|
        0 <= j < order.len() && target(shape, coordinates, #[trigger] order[j]) == p && out[p]
            == values[order[j]]
}

/// After any workers wrote over an output of zeros, every position is
/// settled.
proof fn lemma_written_settled<E: Dtype>(
    values: Seq<E>,
    shape: Seq<usize>,
    coordinates: Seq<usize>,
    order: Seq<int>,
    p: int,
)
    requires
        fits(shape),
        rows_in_bounds(shape, coordinates, values.len()),
        forall|j: int| 0 <= j < order.len() ==> 0 <= #[trigger] order[j] < values.len(),
        0 <= p < num_elements(shape),
    ensures
        written(zeros::<E>(num_elements(shape)), values, shape, coordinates, order).len()
            == num_elements(shape),
        settled(
            written(zeros::<E>(num_elements(shape)), values, shape, coordinates, order),
            values,
            shape,
            coordinates,
            order,
            p,
        ),
    decreases order.len(),
{
    let start = zeros::<E>(num_elements(shape));
    if order.len() > 0 {
        let before = order.drop_last();
        let last = order.last();
        let prior = written(start, values, shape, coordinates, before);
        lemma_written_settled(values, shape, coordinates, before, p);
        lemma_target_below(shape, coordinates, values.len(), last);
        if target(shape, coordinates, last) != p && prior[p] == E::spec_zero() && forall|j: int|
            0 <= j < before.len() ==> target(shape, coordinates, #[trigger] before[j]) != p {
            assert forall|j: int| 0 <= j < order.len() implies target(
                shape,
                coordinates,
                #[trigger] order[j],
            ) != p by {
                if j < before.len() {
                    assert(before[j] == order[j]);
                }
            }
        }
    }
}

/// In whatever order the workers of the forward kernel write, as long as
/// each of them does, the output is a scatter of the values: a position
/// that coordinates name holds the value of one of them, and any other
/// holds zero.
pub proof fn lemma_scatter_in_any_order<E: Dtype>(
    values: Seq<E>,
    shape: Seq<usize>,
    coordinates: Seq<usize>,
    order: Seq<int>,
)
    requires
        fits(shape),
        rows_in_bounds(shape, coordinates, values.len()),
        forall|j: int| 0 <= j < order.len() ==> 0 <= #[trigger] order[j] < values.len(),
        forall|i: int| 0 <= i < values.len() ==> order.contains(i),
    ensures
        is_scatter_in_some_order(
            written(zeros::<E>(num_elements(shape)), values, shape, coordinates, order),
            values,
            shape,
            coordinates,
        ),
{
    let out = written(zeros::<E>(num_elements(shape)), values, shape, coordinates, order);
    if num_elements(shape) > 0 {
        lemma_written_settled(values, shape, coordinates, order, 0);
    } else if order.len() > 0 {
        lemma_target_below(shape, coordinates, values.len(), order[0]);
    }
    assert forall|p: int| 0 <= p < out.len() implies #[trigger] out[p] == E::spec_zero()
        && unaddressed(shape, coordinates, values.len(), p) || exists|i: int|
        0 <= i < values.len() && #[trigger] target(shape, coordinates, i) == p && out[p]
            == values[i] by {
        lemma_written_settled(values, shape, coordinates, order, p);
        if out[p] == E::spec_zero() && forall|j: int|
            0 <= j < order.len() ==> target(shape, coordinates, #[trigger] order[j]) != p {
            assert forall|i: int| 0 <= i < values.len() implies #[trigger] target(
                shape,
                coordinates,
                i,
            ) != p by {
                assert(order.contains(i));
                let j = choose|j: int| 0 <= j < order.len() && order[j] == i;
            }
        } else {
            let j = choose|j: int|
                0 <= j < order.len() && target(shape, coordinates, #[trigger] order[j]) == p
                    && out[p] == values[order[j]];
        }
    }
}

/// The gradient of the values after the workers named in `order` routed
/// their gradients back one after the other, in that order.
pub open spec fn routed<E: Dtype>(
    grad_inp: Seq<E>,
    grad_out: Seq<E>,
    stride: nat,
    shape: Seq<usize>,
    coordinates: Seq<usize>,
    order: Seq<int>,
) -> Seq<E>
    decreases order.len(),
{
    if order.len() == 0 {
        grad_inp
    } else {
        let before = routed(grad_inp, grad_out, stride, shape, coordinates, order.drop_last());
        let at = order.last() * stride;
        before.update(
            at,
            before[at].spec_plus(grad_out[target(shape, coordinates, order.last()) as int]),
        )
    }
}

/// Each worker below `n` is named in `order` once, and no other is.
pub open spec fn each_once(order: Seq<int>, n: nat) -> bool {
    &&& order.len() == n
    &&& order.no_duplicates()
    &&& forall|j: int| 0 <= j < order.len() ==> 0 <= #[trigger] order[j] < n
}

/// Where the values lie apart and no worker runs twice, the gradient at a
/// position is what it was, with the output gradient of the worker added
/// whose value lies there, if that worker ran.
proof fn lemma_routed_at<E: Dtype>(
    grad_inp: Seq<E>,
    grad_out: Seq<E>,
    stride: nat,
    shape: Seq<usize>,
    coordinates: Seq<usize>,
    n: nat,
    order: Seq<int>,
    q: int,
)
    requires
        stride >= 1,
        n > 0 ==> (n - 1) * stride < grad_inp.len(),
        order.no_duplicates(),
        forall|j: int| 0 <= j < order.len() ==> 0 <= #[trigger] order[j] < n,
        0 <= q < grad_inp.len(),
    ensures
        routed(grad_inp, grad_out, stride, shape, coordinates, order).len() == grad_inp.len(),
        (forall|j: int| 0 <= j < order.len() ==> #[trigger] order[j] * stride != q) ==> routed(
            grad_inp,
            grad_out,
            stride,
            shape,
            coordinates,
            order,
        )[q] == grad_inp[q],
        forall|j: int|
            0 <= j < order.len() && #[trigger] order[j] * stride == q ==> routed(
                grad_inp,
                grad_out,
                stride,
                shape,
                coordinates,
                order,
            )[q] == grad_inp[q].spec_plus(grad_out[target(shape, coordinates, order[j]) as int]),
    decreases order.len(),
{
    if order.len() > 0 {
        let before = order.drop_last();
        let last = order.last();
        let at = last * stride;
        lemma_strided_position(n, stride, grad_inp.len(), last);
        lemma_routed_at(grad_inp, grad_out, stride, shape, coordinates, n, before, q);
        assert forall|j: int| 0 <= j < before.len() implies #[trigger] before[j] * stride
            != at by {
            let a = before[j];
            assert(a * stride != last * stride) by (nonlinear_arith)
                requires
                    a != last,
                    stride >= 1,
            ;
        }
        assert forall|j: int| 0 <= j < order.len() && #[trigger] order[j] * stride
            == q implies routed(grad_inp, grad_out, stride, shape, coordinates, order)[q]
            == grad_inp[q].spec_plus(grad_out[target(shape, coordinates, order[j]) as int]) by {
            if j < before.len() {
                assert(before[j] == order[j]);
            }
        }
    }
}

/// The position of the value of worker `i`.
spec fn place(i: int, stride: nat) -> int {
    i * stride
}

/// The workers in the order of their numbers.
pub open spec fn in_turn(n: nat) -> Seq<int> {
    Seq::new(n, |i: int| i)
}

/// The host routes the gradients back as the workers do in the order of
/// their numbers.
proof fn lemma_gathered_in_turn<E: Dtype>(
    grad_inp: Seq<E>,
    grad_out: Seq<E>,
    stride: nat,
    shape: Seq<usize>,
    coordinates: Seq<usize>,
    n: nat,
)
    ensures
        gathered(grad_inp, grad_out, stride, shape, coordinates, n) == routed(
            grad_inp,
            grad_out,
            stride,
            shape,
            coordinates,
            in_turn(n),
        ),
    decreases n,
{
    if n > 0 {
        lemma_gathered_in_turn(grad_inp, grad_out, stride, shape, coordinates, (n - 1) as nat);
        assert(in_turn(n).drop_last() =~= in_turn((n - 1) as nat));
    }
}

/// Where the values lie apart, the workers of the backward kernel leave the
/// same gradients in whatever order they run, as long as each runs once:
/// those that the host leaves, which runs them in the order of the values.
/// No two workers add to one position.
pub proof fn lemma_gather_in_any_order<E: Dtype>(
    grad_inp: Seq<E>,
    grad_out: Seq<E>,
    stride: nat,
    shape: Seq<usize>,
    coordinates: Seq<usize>,
    n: nat,
    order: Seq<int>,
)
    requires
        stride >= 1,
        n > 0 ==> (n - 1) * stride < grad_inp.len(),
        each_once(order, n),
    ensures
        routed(grad_inp, grad_out, stride, shape, coordinates, order) == gathered(
            grad_inp,
            grad_out,
            stride,
            shape,
            coordinates,
            n,
        ),
{
    let turn = in_turn(n);
    let any = routed(grad_inp, grad_out, stride, shape, coordinates, order);
    let host = routed(grad_inp, grad_out, stride, shape, coordinates, turn);
    lemma_gathered_in_turn(grad_inp, grad_out, stride, shape, coordinates, n);
    lemma_each_once_names_all(order, n);
    if grad_inp.len() > 0 {
        lemma_routed_at(grad_inp, grad_out, stride, shape, coordinates, n, order, 0);
        lemma_routed_at(grad_inp, grad_out, stride, shape, coordinates, n, turn, 0);
        assert forall|q: int| 0 <= q < grad_inp.len() implies any[q] == host[q] by {
            lemma_routed_at(grad_inp, grad_out, stride, shape, coordinates, n, order, q);
            lemma_routed_at(grad_inp, grad_out, stride, shape, coordinates, n, turn, q);
            if exists|i: int| 0 <= i < n && #[trigger] place(i, stride) == q {
                let i = choose|i: int| 0 <= i < n && #[trigger] place(i, stride) == q;
                assert(order.contains(i));
                assert(turn[i] * stride == q);
            } else {
                assert forall|j: int| 0 <= j < order.len() implies #[trigger] order[j] * stride
                    != q by {
                    assert(place(order[j], stride) != q);
                }
                assert forall|j: int| 0 <= j < turn.len() implies #[trigger] turn[j] * stride
                    != q by {
                    assert(place(turn[j], stride) != q);
                }
            }
        }
    }
}

/// A list that names `n` workers below `n`, none of them twice, names each.
proof fn lemma_each_once_names_all(order: Seq<int>, n: nat)
    requires
        each_once(order, n),
    ensures
        forall|i: int| 0 <= i < n ==> order.contains(i),
{
    assert forall|i: int| 0 <= i < n implies order.contains(i) by {
        if !order.contains(i) {
            // The workers named would all lie among the other `n - 1`.
            let below = Set::new(|x: int| 0 <= x < n);
            vstd::seq_lib::seq_to_set_is_finite(order);
            order.unique_seq_to_set();
            lemma_below_len(n);
            vstd::set_lib::lemma_len_subset(order.to_set(), below.remove(i));
        }
    }
}

/// There are `n` numbers below `n`.
proof fn lemma_below_len(n: nat)
    ensures
        Set::new(|x: int| 0 <= x < n).finite(),
        Set::new(|x: int| 0 <= x < n).len() == n,
{
    vstd::set_lib::lemma_int_range(0, n as int);
    assert(Set::new(|x: int| 0 <= x < n) =~= vstd::set_lib::set_int_range(0, n as int));
}

} // verus!
