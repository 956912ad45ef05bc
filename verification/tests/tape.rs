use from_sparse::device::Cpu;
use from_sparse::error::Error;
use from_sparse::from_sparse::FromSparse;
use from_sparse::gradients::Gradients;
use from_sparse::shapes::Shape;
use from_sparse::tape::{Backend, BackwardOp, OwnedTape};
use from_sparse::tensor::GhostTensor;

fn shape(dims: &[usize]) -> Shape {
    Shape::new(dims.to_vec()).unwrap()
}

/// A backend that runs the computations as the host does, notes which it
/// ran, and fails to launch from the given run on.
struct Faulty {
    ran: Vec<GhostTensor>,
    fails_from: usize,
}

impl Backend<i64> for Faulty {
    fn in_order() -> bool {
        true
    }

    fn fails_only_for_memory() -> bool {
        false
    }

    fn run(&mut self, operation: &BackwardOp, grads: &mut Gradients<i64>) -> Result<(), Error> {
        if self.ran.len() >= self.fails_from {
            return Err(Error::Launch);
        }
        self.ran.push(operation.out());
        operation.apply(grads)
    }
}

fn chain() -> (OwnedTape<i64>, Vec<GhostTensor>) {
    let mut dev = Cpu::default();
    let values = dev.tensor_from_vec(vec![1i64, 2], shape(&[2])).unwrap();
    let first = dev.tensor_from_vec(vec![2usize, 0], shape(&[2, 1])).unwrap();
    let second = dev
        .tensor_from_vec(vec![0usize, 1, 2], shape(&[3, 1]))
        .unwrap();
    let middle = dev.from_sparse(values.clone().leaky_traced(), first, shape(&[3]));
    let middle_key = middle.ghost();
    let (out, mut tape) = dev.from_sparse(middle, second, shape(&[4])).split_tape();
    tape.gradients
        .get_or_alloc_mut(&out.ghost())
        .unwrap()
        .copy_from_slice(&[1, 2, 3, 4]);
    (tape, vec![values.ghost(), middle_key, out.ghost()])
}

#[test]
fn backend_runs_the_last_recorded_first() {
    let (tape, keys) = chain();
    let mut backend = Faulty {
        ran: vec![],
        fails_from: 2,
    };
    let grads = tape.execute_on(&mut backend).unwrap();
    assert_eq!(backend.ran, vec![keys[2], keys[1]]);
    assert_eq!(grads.get(&keys[1]).to_vec(), vec![1, 2, 3]);
    assert_eq!(grads.get(&keys[0]).to_vec(), vec![3, 1]);
}

#[test]
fn failed_launch_ends_the_run() {
    let (tape, keys) = chain();
    let mut backend = Faulty {
        ran: vec![],
        fails_from: 1,
    };
    assert!(matches!(tape.execute_on(&mut backend), Err(Error::Launch)));
    assert_eq!(backend.ran, vec![keys[2]]);

    let (tape, _) = chain();
    let mut backend = Faulty {
        ran: vec![],
        fails_from: 0,
    };
    assert!(matches!(tape.execute_on(&mut backend), Err(Error::Launch)));
    assert!(backend.ran.is_empty());
}

#[test]
fn host_is_a_backend() {
    let (tape, keys) = chain();
    let (again, _) = chain();
    let mut host = Cpu::default();
    let on_host = tape.execute_on(&mut host).unwrap();
    let plain = again.execute().unwrap();
    for key in keys {
        assert_eq!(on_host.get(&key), plain.get(&key));
    }
}

#[test]
fn empty_tape_hands_the_ledger_out() {
    let mut gradients: Gradients<i64> = Gradients::leaky();
    let key = GhostTensor {
        id: from_sparse::tensor::UniqueId(3),
        len: 2,
    };
    gradients
        .get_or_alloc_mut(&key)
        .unwrap()
        .copy_from_slice(&[4, 5]);
    let grads = OwnedTape::new(gradients).execute().unwrap();
    assert_eq!(grads.get(&key), &[4, 5]);
}
