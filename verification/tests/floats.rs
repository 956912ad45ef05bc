use from_sparse::device::Cpu;
use from_sparse::dtype::Dtype;
use from_sparse::from_sparse::FromSparse;
use from_sparse::gradients::Gradients;
use from_sparse::shapes::Shape;
use from_sparse::tensor::{NoneTape, Tensor};

/// Single precision as an element type. The trait's ghost items are given
/// the bodies of the executable ones; nothing checks them against the
/// arithmetic, and the identity law holds up to the sign of zero only.
#[derive(Clone, Copy, Debug, PartialEq)]
struct Real(f32);

impl Dtype for Real {
    fn spec_zero() -> Self {
        Real(0.0)
    }

    fn spec_plus(self, rhs: Self) -> Self {
        Real(self.0 + rhs.0)
    }

    fn lemma_zero_plus(_x: Self) {}

    fn zero() -> Self {
        Real(0.0)
    }

    fn plus(self, rhs: Self) -> Self {
        Real(self.0 + rhs.0)
    }
}

fn reals(values: &[f32]) -> Vec<Real> {
    values.iter().map(|v| Real(*v)).collect()
}

fn floats(values: &[Real]) -> Vec<f32> {
    values.iter().map(|v| v.0).collect()
}

fn shape(dims: &[usize]) -> Shape {
    Shape::new(dims.to_vec()).unwrap()
}

#[test]
fn test_from_sparse() {
    let mut dev = Cpu::default();
    let gradients: Gradients<Real> = Gradients::leaky();
    let sparse: Tensor<Real, NoneTape> =
        dev.tensor_from_vec(reals(&[1.0; 5]), shape(&[5])).unwrap();
    let indeces: Tensor<usize, NoneTape> = dev
        .tensor_from_vec(vec![0, 0, 1, 1, 2, 2, 3, 3, 4, 4], shape(&[5, 2]))
        .unwrap();
    let (output, mut tape) = dev
        .from_sparse(sparse.clone().traced(gradients), indeces, shape(&[5, 5]))
        .split_tape();
    for (i, e) in tape
        .gradients
        .get_or_alloc_mut(&output.ghost())
        .unwrap()
        .iter_mut()
        .enumerate()
    {
        *e = Real(i as f32);
    }
    let mut one_hot = vec![0.0f32; 25];
    for (row, class) in [0usize, 1, 2, 3, 4].iter().enumerate() {
        one_hot[row * 5 + class] = 1.0;
    }
    assert_eq!(floats(&output.as_vec()), one_hot);
    let gradients = tape.execute().unwrap();
    assert_eq!(
        floats(gradients.get(&sparse.ghost())),
        vec![0.0, 6.0, 12.0, 18.0, 24.0]
    );
}

#[test]
fn from_sparse() {
    let mut dev = Cpu::default();

    let indeces = dev
        .tensor_from_vec(vec![0, 0, 1, 1, 2, 2, 3, 3, 4, 4], shape(&[5, 2]))
        .unwrap();
    let values = dev
        .tensor_from_vec(reals(&[0.0, 1.0, 2.0, 3.0, 4.0]), shape(&[5]))
        .unwrap();

    let (output, mut tape) = dev
        .from_sparse(values.clone().leaky_traced(), indeces, shape(&[5, 5]))
        .split_tape();

    let expected = vec![
        0.0, 0.0, 0.0, 0.0, 0.0, 0.0, 1.0, 0.0, 0.0, 0.0, 0.0, 0.0, 2.0, 0.0, 0.0, 0.0, 0.0,
        0.0, 3.0, 0.0, 0.0, 0.0, 0.0, 0.0, 4.0,
    ];

    assert_eq!(floats(&output.as_vec()), expected);

    for (i, g) in tape
        .gradients
        .get_or_alloc_mut(&output.ghost())
        .unwrap()
        .iter_mut()
        .enumerate()
    {
        *g = Real(i as f32);
    }

    let grads = tape.execute().unwrap();

    let gradients = grads.get(&values.ghost());
    let expected = vec![0.0, 6.0, 12.0, 18.0, 24.0];
    assert_eq!(floats(gradients), expected);
}

#[test]
fn float_gradients_accumulate_in_the_order_of_the_values() {
    let mut dev = Cpu::default();
    let values = dev
        .build_tensor(shape(&[3]), vec![0], reals(&[1.0]))
        .unwrap();
    let indices = dev
        .tensor_from_vec(vec![0usize, 1, 2], shape(&[3, 1]))
        .unwrap();
    let (out, mut tape) = dev
        .from_sparse(values.clone().leaky_traced(), indices, shape(&[3]))
        .split_tape();
    tape.gradients
        .get_or_alloc_mut(&out.ghost())
        .unwrap()
        .copy_from_slice(&reals(&[1.0e8, 1.0, -1.0e8]));
    let grads = tape.execute().unwrap();
    assert_eq!(
        floats(grads.get(&values.ghost())),
        vec![((0.0f32 + 1.0e8) + 1.0) + -1.0e8]
    );
}

#[test]
fn zero_is_the_identity_up_to_the_sign_of_zero() {
    for x in [1.5f32, -2.25, 0.0, f32::MAX, f32::MIN_POSITIVE, f32::INFINITY] {
        assert_eq!(Real::zero().plus(Real(x)).0.to_bits(), x.to_bits());
    }
    let sum = Real::zero().plus(Real(-0.0)).0;
    assert_eq!(sum, -0.0);
    assert_ne!(sum.to_bits(), (-0.0f32).to_bits());
}
