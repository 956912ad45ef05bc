//! The tape: backward computations that the forward pass defers, and their
//! execution against one gradient ledger.

use crate::cpu_kernel::backward;
use crate::device::Cpu;
use crate::dtype::{zeros, Dtype};
use crate::error::Error;
use crate::from_sparse::{gathered, lemma_gathered_at, rows_in_bounds, target};
use crate::gradients::{allocated, Gradients};
use crate::shapes::{fits, num_elements, Shape};
use crate::tensor::{GhostTensor, NoneTape, Tensor};
use vstd::prelude::*;

verus! {

/// The backward computation of one scatter. It holds the keys of the two
/// gradients and the coordinates by value, and no buffer.
pub struct BackwardOp {
    pub(crate) inp: GhostTensor,
    pub(crate) out: GhostTensor,
    pub(crate) stride: usize,
    pub(crate) coordinates: Vec<usize>,
    pub(crate) n: usize,
    pub(crate) shape: Shape,
}

/// What a backward computation is to a contract.
pub struct BackwardOpView {
    /// The key of the gradient of the values.
    pub inp: GhostTensor,
    /// The key of the gradient of the dense output.
    pub out: GhostTensor,
    /// The distance between two values in their buffer.
    pub stride: usize,
    /// The coordinates, row after row.
    pub coordinates: Seq<usize>,
    /// The number of values.
    pub n: usize,
    /// The shape of the dense output.
    pub shape: Seq<usize>,
}

impl View for BackwardOp {
    type V = BackwardOpView;

    closed spec fn view(&self) -> BackwardOpView {
        BackwardOpView {
            inp: self.inp,
            out: self.out,
            stride: self.stride,
            coordinates: self.coordinates@,
            n: self.n,
            shape: self.shape@,
        }
    }
}

impl BackwardOpView {
    /// The two gradients are different buffers of the lengths that the
    /// values and the output have, and every coordinate lies in the output.
    pub open spec fn wf(self) -> bool {
        &&& self.inp != self.out
        &&& fits(self.shape)
        &&& rows_in_bounds(self.shape, self.coordinates, self.n as nat)
        &&& self.n > 0 ==> (self.n - 1) * self.stride < self.inp.len
        &&& self.out.len == num_elements(self.shape)
    }

    /// The ledger after this computation: both gradients are allocated, and
    /// the output gradient at each coordinate is added to the gradient of
    /// the value that was written there.
    pub open spec fn apply<E: Dtype>(self, ledger: Map<GhostTensor, Seq<E>>) -> Map<
        GhostTensor,
        Seq<E>,
    > {
        let ready = allocated(allocated(ledger, self.inp), self.out);
        ready.insert(
            self.inp,
            gathered(
                ready[self.inp],
                ready[self.out],
                self.stride as nat,
                self.shape,
                self.coordinates,
                self.n as nat,
            ),
        )
    }
}

impl BackwardOp {
    /// The backward computation of a scatter with the given parts.
    pub(crate) fn new(
        inp: GhostTensor,
        out: GhostTensor,
        stride: usize,
        coordinates: Vec<usize>,
        n: usize,
        shape: Shape,
    ) -> (r: Self)
        ensures
            r@ == (BackwardOpView {
                inp,
                out,
                stride,
                coordinates: coordinates@,
                n,
                shape: shape@,
            }),
    {
        BackwardOp { inp, out, stride, coordinates, n, shape }
    }

    /// The key of the gradient of the values.
    pub fn inp(&self) -> (r: GhostTensor)
        ensures
            r == self@.inp,
    {
        self.inp
    }

    /// The key of the gradient of the dense output.
    pub fn out(&self) -> (r: GhostTensor)
        ensures
            r == self@.out,
    {
        self.out
    }

    /// The distance between two values in their buffer.
    pub fn stride(&self) -> (r: usize)
        ensures
            r == self@.stride,
    {
        self.stride
    }

    /// The number of values.
    pub fn n(&self) -> (r: usize)
        ensures
            r == self@.n,
    {
        self.n
    }

    /// The coordinates, row after row.
    pub fn coordinates(&self) -> (r: &Vec<usize>)
        ensures
            r@ == self@.coordinates,
    {
        &self.coordinates
    }

    /// The shape of the dense output.
    pub fn shape(&self) -> (r: &Shape)
        ensures
            r@ == self@.shape,
    {
        &self.shape
    }

    /// Runs this computation against the ledger. It fails only where a
    /// gradient has to be allocated and the allocator refuses.
    pub fn apply<E: Dtype>(&self, grads: &mut Gradients<E>) -> (r: Result<(), Error>)
        requires
            self@.wf(),
            old(grads).wf(),
        ensures
            final(grads).wf(),
            r is Ok ==> final(grads)@ == self@.apply(old(grads)@),
            r matches Err(e) ==> e == Error::OutOfMemory && (final(grads)@ == old(grads)@
                || final(grads)@ == allocated(old(grads)@, self@.inp)),
            old(grads)@.contains_key(self@.inp) && old(grads)@.contains_key(self@.out) ==> r is Ok,
    {
        match grads.try_alloc_for(&self.inp) {
            Ok(_) => {},
            Err(e) => {
                return Err(e);
            },
        }
        match grads.try_alloc_for(&self.out) {
            Ok(_) => {},
            Err(e) => {
                return Err(e);
            },
        }
        let (grad_inp, grad_out) = grads.mut_and_ref(&self.inp, &self.out);
        backward(
            grad_inp,
            grad_out,
            self.stride,
            self.coordinates.as_slice(),
            self.n,
            &self.shape,
        );
        Ok(())
    }
}

/// What the computations are to a contract, oldest first.
pub open spec fn views(operations: Seq<BackwardOp>) -> Seq<BackwardOpView> {
    operations.map_values(|op: BackwardOp| op@)
}

/// The ledger after the computations ran in the reverse of the order in
/// which they were recorded: the last one first.
pub open spec fn backward_pass<E: Dtype>(
    operations: Seq<BackwardOpView>,
    ledger: Map<GhostTensor, Seq<E>>,
) -> Map<GhostTensor, Seq<E>>
    decreases operations.len(),
{
    if operations.len() == 0 {
        ledger
    } else {
        backward_pass(operations.drop_last(), operations.last().apply(ledger))
    }
}

/// A backward pass over one scatter whose values lie apart, with a ledger in
/// which the gradient of the values is not yet allocated or is zero, brings
/// to each value the output gradient at the position of its coordinate.
pub proof fn lemma_gradient_round_trip<E: Dtype>(
    operation: BackwardOpView,
    ledger: Map<GhostTensor, Seq<E>>,
    i: int,
)
    requires
        operation.wf(),
        operation.stride >= 1,
        ledger.contains_key(operation.inp) ==> ledger[operation.inp] == zeros::<E>(
            operation.inp.len as nat,
        ),
        0 <= i < operation.n,
    ensures
        backward_pass(seq![operation], ledger).contains_key(operation.inp),
        backward_pass(seq![operation], ledger)[operation.inp][i * operation.stride] == allocated(
            ledger,
            operation.out,
        )[operation.out][target(operation.shape, operation.coordinates, i) as int],
{
    let ready = allocated(allocated(ledger, operation.inp), operation.out);
    lemma_gathered_at(
        ready[operation.inp],
        ready[operation.out],
        operation.stride as nat,
        operation.shape,
        operation.coordinates,
        operation.n as nat,
        operation.n as nat,
        i,
    );
    let t = target(operation.shape, operation.coordinates, i) as int;
    E::lemma_zero_plus(ready[operation.out][t]);
    assert(backward_pass(seq![operation], ledger) == operation.apply(ledger)) by {
        reveal_with_fuel(backward_pass, 2);
    }
}

/// The ledger holds both gradients of every computation, so that running
/// them allocates nothing.
pub open spec fn all_allocated<E>(
    operations: Seq<BackwardOpView>,
    ledger: Map<GhostTensor, Seq<E>>,
) -> bool {
    forall|i: int|
        0 <= i < operations.len() ==> ledger.contains_key(#[trigger] operations[i].inp)
            && ledger.contains_key(operations[i].out)
}

/// What a tensor carries to be traced: either nothing, or the record of the
/// backward computations together with the ledger that they will fill.
pub trait Tape<E: Dtype>: Sized {
    /// The ledger and every recorded computation are well formed.
    spec fn wf(&self) -> bool;

    /// Whether a tape of this kind records what is registered.
    spec fn records() -> bool;

    /// The recorded computations, oldest first.
    spec fn recorded(&self) -> Seq<BackwardOpView>;

    /// The gradients held so far.
    spec fn ledger(&self) -> Map<GhostTensor, Seq<E>>;

    /// Registers a backward computation behind those recorded so far.
    /// Nothing is run, and no gradient is touched.
    fn add_backward_op(&mut self, operation: BackwardOp)
        requires
            old(self).wf(),
            operation@.wf(),
        ensures
            final(self).wf(),
            final(self).ledger() == old(self).ledger(),
            final(self).recorded() == if Self::records() {
                old(self).recorded().push(operation@)
            } else {
                old(self).recorded()
            },
    ;
}

impl<E: Dtype> Tape<E> for NoneTape {
    open spec fn wf(&self) -> bool {
        true
    }

    open spec fn records() -> bool {
        false
    }

    open spec fn recorded(&self) -> Seq<BackwardOpView> {
        Seq::empty()
    }

    open spec fn ledger(&self) -> Map<GhostTensor, Seq<E>> {
        Map::empty()
    }

    fn add_backward_op(&mut self, operation: BackwardOp) {
    }
}

/// The values of every computation lie apart, so that no two of them share
/// a gradient.
pub open spec fn apart(operations: Seq<BackwardOpView>) -> bool {
    forall|i: int| 0 <= i < operations.len() ==> (#[trigger] operations[i]).stride >= 1
}

/// What runs a recorded computation: the host, or an accelerator.
pub trait Backend<E: Dtype> {
    /// Whether the backend adds the gradients of a computation in the order
    /// of the values. One that does not still leaves the same gradients
    /// where the values lie apart.
    spec fn in_order() -> bool;

    /// Whether a computation fails on this backend only where it has to
    /// allocate a gradient and the allocator refuses.
    spec fn fails_only_for_memory() -> bool;

    /// Runs the computation against the ledger. No gradient leaves the
    /// ledger, whatever the outcome.
    fn run(&mut self, operation: &BackwardOp, grads: &mut Gradients<E>) -> (r: Result<(), Error>)
        requires
            operation@.wf(),
            old(grads).wf(),
        ensures
            final(grads).wf(),
            forall|k: GhostTensor|
                old(grads)@.contains_key(k) ==> #[trigger] final(grads)@.contains_key(k),
            r is Ok && (Self::in_order() || operation@.stride >= 1) ==> final(grads)@
                == operation@.apply(old(grads)@),
            r matches Err(e) ==> Self::fails_only_for_memory() ==> e == Error::OutOfMemory,
            Self::fails_only_for_memory() && old(grads)@.contains_key(operation@.inp)
                && old(grads)@.contains_key(operation@.out) ==> r is Ok,
    ;
}

impl<E: Dtype> Backend<E> for Cpu {
    open spec fn in_order() -> bool {
        true
    }

    open spec fn fails_only_for_memory() -> bool {
        true
    }

    fn run(&mut self, operation: &BackwardOp, grads: &mut Gradients<E>) -> (r: Result<(), Error>) {
        operation.apply(grads)
    }
}

/// The tape of a traced tensor.
pub struct OwnedTape<E> {
    /// The recorded computations, oldest first.
    pub operations: Vec<BackwardOp>,
    /// The gradients held so far.
    pub gradients: Gradients<E>,
}

impl<E: Dtype> Tape<E> for OwnedTape<E> {
    open spec fn wf(&self) -> bool {
        &&& self.gradients.wf()
        &&& forall|i: int|
            0 <= i < self.operations@.len() ==> (#[trigger] self.operations@[i])@.wf()
    }

    open spec fn records() -> bool {
        true
    }

    open spec fn recorded(&self) -> Seq<BackwardOpView> {
        views(self.operations@)
    }

    open spec fn ledger(&self) -> Map<GhostTensor, Seq<E>> {
        self.gradients@
    }

    fn add_backward_op(&mut self, operation: BackwardOp) {
        self.operations.push(operation);
    }
}

impl<E: Dtype> OwnedTape<E> {
    /// An empty tape over the given ledger.
    pub fn new(gradients: Gradients<E>) -> (r: Self)
        requires
            gradients.wf(),
        ensures
            r.wf(),
            r.recorded() == Seq::<BackwardOpView>::empty(),
            r.ledger() == gradients@,
    {
        let r = OwnedTape { operations: Vec::new(), gradients };
        r
    }

    /// Runs every recorded computation on the backend, the one recorded last
    /// first, each against the one ledger, and hands the ledger out. The
    /// first failure ends the run and is returned: the computations recorded
    /// before are not run, and the partial gradients are dropped.
    pub fn execute_on<B: Backend<E>>(self, backend: &mut B) -> (r: Result<Gradients<E>, Error>)
        requires
            self.wf(),
        ensures
            r matches Ok(grads) ==> grads.wf() && (B::in_order() || apart(self.recorded())
                ==> grads@ == backward_pass(self.recorded(), self.ledger())),
            r matches Err(e) ==> B::fails_only_for_memory() ==> e == Error::OutOfMemory,
            B::fails_only_for_memory() && all_allocated(self.recorded(), self.ledger()) ==> r is Ok,
    {
        let ghost recorded = self.recorded();
        let ghost ledger = self.ledger();
        let OwnedTape { operations, gradients } = self;
        let mut operations = operations;
        let mut gradients = gradients;
        while operations.len() > 0
            invariant
                recorded == self.recorded(),
                ledger == self.ledger(),
                gradients.wf(),
                forall|i: int| 0 <= i < operations@.len() ==> (#[trigger] operations@[i])@.wf(),
                apart(recorded) ==> apart(views(operations@)),
                B::in_order() || apart(recorded) ==> backward_pass(
                    views(operations@),
                    gradients@,
                ) == backward_pass(recorded, ledger),
                all_allocated(recorded, ledger) ==> all_allocated(views(operations@), gradients@),
            decreases operations.len(),
        {
            let ghost before = operations@;
            let found = operations.pop();
            let operation = found.unwrap();
            proof {
                assert(views(before).drop_last() =~= views(operations@));
                assert(views(before).last() == operation@);
            }
            match backend.run(&operation, &mut gradients) {
                Ok(_) => {},
                Err(e) => {
                    return Err(e);
                },
            }
        }
        Ok(gradients)
    }

    /// Runs every recorded computation on the host, the one recorded last
    /// first, and hands the ledger out. The first failure ends the run: the
    /// computations recorded before are not run, and the partial gradients
    /// are dropped.
    pub fn execute(self) -> (r: Result<Gradients<E>, Error>)
        requires
            self.wf(),
        ensures
            r matches Ok(grads) ==> grads.wf() && grads@ == backward_pass(
                self.recorded(),
                self.ledger(),
            ),
            r matches Err(e) ==> e == Error::OutOfMemory,
            all_allocated(self.recorded(), self.ledger()) ==> r is Ok,
    {
        let mut host = Cpu::default();
        self.execute_on(&mut host)
    }
}

impl<E: Dtype> Tensor<E, NoneTape> {
    /// Starts to trace this tensor, with the given ledger.
    pub fn traced(self, gradients: Gradients<E>) -> (r: Tensor<E, OwnedTape<E>>)
        requires
            gradients.wf(),
        ensures
            r@.id == self@.id,
            r@.data == self@.data,
            r@.shape == self@.shape,
            r@.strides == self@.strides,
            r@.tape.wf(),
            r@.tape.recorded() == Seq::<BackwardOpView>::empty(),
            r@.tape.ledger() == gradients@,
    {
        self.put_tape(OwnedTape::new(gradients))
    }

    /// Starts to trace this tensor, with an empty ledger.
    pub fn leaky_traced(self) -> (r: Tensor<E, OwnedTape<E>>)
        ensures
            r@.id == self@.id,
            r@.data == self@.data,
            r@.shape == self@.shape,
            r@.strides == self@.strides,
            r@.tape.wf(),
            r@.tape.recorded() == Seq::<BackwardOpView>::empty(),
            r@.tape.ledger() == Map::<GhostTensor, Seq<E>>::empty(),
    {
        self.traced(Gradients::leaky())
    }
}

} // verus!
