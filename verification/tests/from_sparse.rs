use from_sparse::device::Cpu;
use from_sparse::error::Error;
use from_sparse::from_sparse::{
    check_shapes, check_usage, try_from_sparse, FromSparse, UsageError,
};
use from_sparse::gradients::Gradients;
use from_sparse::shapes::Shape;
use from_sparse::tape::{OwnedTape, Tape};
use from_sparse::tensor::{NoneTape, Tensor};

fn shape(dims: &[usize]) -> Shape {
    Shape::new(dims.to_vec()).unwrap()
}

fn diagonal() -> Vec<usize> {
    vec![0, 0, 1, 1, 2, 2, 3, 3, 4, 4]
}

#[test]
fn identity_matrix_from_ones() {
    let mut dev = Cpu::default();
    let gradients: Gradients<i64> = Gradients::leaky();
    let sparse: Tensor<i64, NoneTape> = dev.tensor_from_vec(vec![1; 5], shape(&[5])).unwrap();
    let indeces: Tensor<usize, NoneTape> =
        dev.tensor_from_vec(diagonal(), shape(&[5, 2])).unwrap();
    let (output, mut tape) = dev
        .from_sparse(sparse.clone().traced(gradients), indeces, shape(&[5, 5]))
        .split_tape();
    for (i, e) in tape
        .gradients
        .get_or_alloc_mut(&output.ghost())
        .unwrap()
        .iter_mut()
        .enumerate()
    {
        *e = i as i64;
    }
    let mut one_hot = vec![0i64; 25];
    for (row, class) in [0usize, 1, 2, 3, 4].iter().enumerate() {
        one_hot[row * 5 + class] = 1;
    }
    assert_eq!(output.as_vec(), one_hot);
    let gradients = tape.execute().unwrap();
    assert_eq!(
        gradients.get(&sparse.ghost()).to_vec(),
        vec![0, 6, 12, 18, 24]
    );
}

#[test]
fn diagonal_from_integers() {
    let mut dev = Cpu::default();

    let indeces = dev
        .tensor_from_vec(diagonal(), shape(&[5, 2]))
        .unwrap();
    let values = dev
        .tensor_from_vec(vec![0i64, 1, 2, 3, 4], shape(&[5]))
        .unwrap();

    let (output, mut tape) = dev
        .from_sparse(values.clone().leaky_traced(), indeces, shape(&[5, 5]))
        .split_tape();

    let expected = vec![
        0, 0, 0, 0, 0, 0, 1, 0, 0, 0, 0, 0, 2, 0, 0, 0, 0, 0, 3, 0, 0, 0, 0, 0, 4,
    ];

    assert_eq!(output.as_vec(), expected);

    for (i, g) in tape
        .gradients
        .get_or_alloc_mut(&output.ghost())
        .unwrap()
        .iter_mut()
        .enumerate()
    {
        *g = i as i64;
    }

    let grads = tape.execute().unwrap();

    let gradients = grads.get(&values.ghost());
    let expected = vec![0, 6, 12, 18, 24];
    assert_eq!(gradients.to_vec(), expected);
}

#[test]
fn later_value_wins_at_a_repeated_coordinate() {
    let mut dev = Cpu::default();
    let values = dev.tensor_from_vec(vec![7i32, 8, 9], shape(&[3])).unwrap();
    let indices = dev
        .tensor_from_vec(vec![1usize, 0, 0, 1, 1, 0], shape(&[3, 2]))
        .unwrap();
    let out = dev.from_sparse(values, indices, shape(&[2, 2]));
    assert_eq!(out.as_vec(), vec![0, 8, 9, 0]);
}

#[test]
fn repeated_coordinates_each_get_the_gradient() {
    let mut dev = Cpu::default();
    let values = dev.tensor_from_vec(vec![7i32, 8, 9], shape(&[3])).unwrap();
    let indices = dev
        .tensor_from_vec(vec![1usize, 0, 0, 1, 1, 0], shape(&[3, 2]))
        .unwrap();
    let (out, mut tape) = dev
        .from_sparse(values.clone().leaky_traced(), indices, shape(&[2, 2]))
        .split_tape();
    tape.gradients
        .get_or_alloc_mut(&out.ghost())
        .unwrap()
        .copy_from_slice(&[10, 20, 30, 40]);
    let grads = tape.execute().unwrap();
    assert_eq!(grads.get(&values.ghost()).to_vec(), vec![30, 20, 30]);
}

#[test]
fn no_values_give_zeros() {
    let mut dev = Cpu::default();
    let values: Tensor<u32, NoneTape> = dev.tensor_from_vec(vec![], shape(&[0])).unwrap();
    let indices = dev.tensor_from_vec(vec![], shape(&[0, 3])).unwrap();
    let out = dev.from_sparse(values, indices, shape(&[2, 1, 2]));
    assert_eq!(out.as_vec(), vec![0, 0, 0, 0]);
    assert_eq!(out.strides(), &vec![2, 2, 1]);
}

#[test]
fn rank_zero_output_holds_the_last_value() {
    let mut dev = Cpu::default();
    let values = dev.tensor_from_vec(vec![3u64, 5], shape(&[2])).unwrap();
    let indices = dev.tensor_from_vec(vec![], shape(&[2, 0])).unwrap();
    let out = dev.from_sparse(values, indices, shape(&[]));
    assert_eq!(out.as_vec(), vec![5]);
}

#[test]
fn untraced_values_record_nothing() {
    let mut dev = Cpu::default();
    let values = dev.tensor_from_vec(vec![1usize, 2], shape(&[2])).unwrap();
    let indices = dev.tensor_from_vec(vec![0usize, 2], shape(&[2, 1])).unwrap();
    let (out, tape) = dev.from_sparse(values, indices, shape(&[3])).split_tape();
    assert_eq!(tape, NoneTape);
    assert_eq!(out.as_vec(), vec![1, 0, 2]);
}

#[test]
fn output_gets_an_identity_of_its_own() {
    let mut dev = Cpu::default();
    let values = dev.tensor_from_vec(vec![1i64], shape(&[1])).unwrap();
    let indices = dev.tensor_from_vec(vec![0usize], shape(&[1, 1])).unwrap();
    let id = values.id();
    let out = dev.from_sparse(values, indices, shape(&[1]));
    assert_ne!(out.id(), id);
}

#[test]
fn output_identity_skips_the_one_in_use() {
    let mut first = Cpu::default();
    let mut second = Cpu::default();
    let unused = second.tensor_from_vec(vec![0usize], shape(&[1, 1])).unwrap();
    let indices = second.tensor_from_vec(vec![0usize], shape(&[1, 1])).unwrap();
    let _third = second.tensor_from_vec(vec![9i64], shape(&[1])).unwrap();
    let values = second.tensor_from_vec(vec![1i64], shape(&[1])).unwrap();
    assert_eq!(unused.id().0, 0);
    assert_eq!(values.id().0, 3);
    first.unique_id();
    first.unique_id();
    first.unique_id();
    let out = first.from_sparse(values, indices, shape(&[1]));
    assert_eq!(out.id().0, 4);
    assert_eq!(first.unique_id().0, 5);
}

#[test]
fn strided_values_are_read_through_their_stride() {
    let mut dev = Cpu::default();
    let values = dev
        .build_tensor(shape(&[3]), vec![2], vec![1i64, -1, 2, -2, 3])
        .unwrap();
    assert_eq!(values.as_vec(), vec![1, 2, 3]);
    let indices = dev
        .tensor_from_vec(vec![2usize, 1, 0], shape(&[3, 1]))
        .unwrap();
    let (out, mut tape) = dev
        .from_sparse(values.clone().leaky_traced(), indices, shape(&[3]))
        .split_tape();
    assert_eq!(out.as_vec(), vec![3, 2, 1]);
    tape.gradients
        .get_or_alloc_mut(&out.ghost())
        .unwrap()
        .copy_from_slice(&[100, 200, 300]);
    let grads = tape.execute().unwrap();
    assert_eq!(
        grads.get(&values.ghost()).to_vec(),
        vec![300, 0, 200, 0, 100]
    );
}

#[test]
fn broadcast_values_accumulate_every_gradient() {
    let mut dev = Cpu::default();
    let values = dev.build_tensor(shape(&[3]), vec![0], vec![4i64]).unwrap();
    let indices = dev
        .tensor_from_vec(vec![0usize, 1, 2], shape(&[3, 1]))
        .unwrap();
    let (out, mut tape) = dev
        .from_sparse(values.clone().leaky_traced(), indices, shape(&[4]))
        .split_tape();
    assert_eq!(out.as_vec(), vec![4, 4, 4, 0]);
    tape.gradients
        .get_or_alloc_mut(&out.ghost())
        .unwrap()
        .copy_from_slice(&[1, 10, 100, 1000]);
    let grads = tape.execute().unwrap();
    assert_eq!(grads.get(&values.ghost()).to_vec(), vec![111]);
}

#[test]
fn transposed_coordinates_are_read_through_their_strides() {
    let mut dev = Cpu::default();
    let values = dev.tensor_from_vec(vec![1i64, 2], shape(&[2])).unwrap();
    // Rows (0, 1) and (1, 0), stored column after column.
    let indices = dev
        .build_tensor(shape(&[2, 2]), vec![1, 2], vec![0usize, 1, 1, 0])
        .unwrap();
    assert_eq!(indices.as_vec(), vec![0, 1, 1, 0]);
    let out = dev.from_sparse(values, indices, shape(&[2, 2]));
    assert_eq!(out.as_vec(), vec![0, 1, 2, 0]);
}

#[test]
fn gradient_accumulates_into_what_is_there() {
    let mut dev = Cpu::default();
    let values = dev.tensor_from_vec(vec![1i64, 2], shape(&[2])).unwrap();
    let indices = dev.tensor_from_vec(vec![1usize, 0], shape(&[2, 1])).unwrap();
    let mut gradients: Gradients<i64> = Gradients::leaky();
    gradients
        .get_or_alloc_mut(&values.ghost())
        .unwrap()
        .copy_from_slice(&[5, 6]);
    let (out, mut tape) = dev
        .from_sparse(values.clone().traced(gradients), indices, shape(&[2]))
        .split_tape();
    tape.gradients
        .get_or_alloc_mut(&out.ghost())
        .unwrap()
        .copy_from_slice(&[10, 20]);
    let grads = tape.execute().unwrap();
    assert_eq!(grads.get(&values.ghost()).to_vec(), vec![25, 16]);
    assert_eq!(grads.get(&out.ghost()).to_vec(), vec![10, 20]);
}

#[test]
fn unseeded_output_gradient_is_zero() {
    let mut dev = Cpu::default();
    let values = dev.tensor_from_vec(vec![1i64, 2], shape(&[2])).unwrap();
    let indices = dev.tensor_from_vec(vec![1usize, 0], shape(&[2, 1])).unwrap();
    let (out, tape) = dev
        .from_sparse(values.clone().leaky_traced(), indices, shape(&[2]))
        .split_tape();
    let grads = tape.execute().unwrap();
    assert_eq!(grads.get(&values.ghost()).to_vec(), vec![0, 0]);
    assert_eq!(grads.get(&out.ghost()).to_vec(), vec![0, 0]);
}

#[test]
fn chained_scatters_run_backward_last_first() {
    let mut dev = Cpu::default();
    let values = dev.tensor_from_vec(vec![1i64, 2], shape(&[2])).unwrap();
    let first = dev.tensor_from_vec(vec![2usize, 0], shape(&[2, 1])).unwrap();
    let second = dev
        .tensor_from_vec(vec![0usize, 0, 1, 1, 0, 1], shape(&[3, 2]))
        .unwrap();
    let middle = dev.from_sparse(values.clone().leaky_traced(), first, shape(&[3]));
    let middle_ghost = middle.ghost();
    assert_eq!(middle.data(), &vec![2, 0, 1]);
    let (out, mut tape) = dev.from_sparse(middle, second, shape(&[2, 2])).split_tape();
    assert_eq!(out.as_vec(), vec![2, 1, 0, 0]);
    assert_eq!(tape.operations.len(), 2);
    tape.gradients
        .get_or_alloc_mut(&out.ghost())
        .unwrap()
        .copy_from_slice(&[1, 2, 3, 4]);
    let grads = tape.execute().unwrap();
    assert_eq!(grads.get(&middle_ghost).to_vec(), vec![1, 4, 2]);
    assert_eq!(grads.get(&values.ghost()).to_vec(), vec![2, 1]);
}

#[test]
fn length_mismatch_is_refused() {
    let mut dev = Cpu::default();
    let values = dev.tensor_from_vec(vec![1i64, 2, 3], shape(&[3])).unwrap();
    let indices = dev.tensor_from_vec(vec![0usize, 1], shape(&[2, 1])).unwrap();
    let target = shape(&[4]);
    assert_eq!(
        check_usage(&values, &indices, &target),
        Err(UsageError::LengthMismatch)
    );
    let before = dev.unique_id();
    let traced = values.clone().leaky_traced();
    match try_from_sparse(&mut dev, traced, indices, target) {
        Err((UsageError::LengthMismatch, back)) => {
            assert_eq!(back.id(), values.id());
            assert_eq!(back.data(), values.data());
            let (_, tape) = back.split_tape();
            assert_eq!(tape.operations.len(), 0);
            assert!(!tape.gradients.contains(&values.ghost()));
        }
        _ => panic!("values and coordinates of unequal lengths were taken"),
    }
    assert_eq!(dev.unique_id().0, before.0 + 1);
}

#[test]
fn lengths_that_differ_by_one_are_refused() {
    let mut dev = Cpu::default();
    for n in [0usize, 1, 3, 4] {
        let values = dev.tensor_from_vec(vec![1i64; n], shape(&[n])).unwrap();
        let indices = dev
            .tensor_from_vec(vec![0usize, 1], shape(&[2, 1]))
            .unwrap();
        assert_eq!(
            check_usage(&values, &indices, &shape(&[4])),
            Err(UsageError::LengthMismatch)
        );
    }
}

#[test]
fn each_misuse_has_its_error() {
    let mut dev = Cpu::default();
    let values = dev.tensor_from_vec(vec![1i64, 2], shape(&[2])).unwrap();
    let square = dev
        .tensor_from_vec(vec![1i64, 2, 3, 4], shape(&[2, 2]))
        .unwrap();
    let rows = dev
        .tensor_from_vec(vec![0usize, 1, 1, 0], shape(&[2, 2]))
        .unwrap();
    let flat = dev.tensor_from_vec(vec![0usize, 1], shape(&[2])).unwrap();
    let beyond = dev
        .tensor_from_vec(vec![0usize, 1, 2, 0], shape(&[2, 2]))
        .unwrap();
    assert_eq!(
        check_usage(&square, &rows, &shape(&[2, 2])),
        Err(UsageError::ValuesRank)
    );
    assert_eq!(
        check_usage(&values, &flat, &shape(&[2])),
        Err(UsageError::IndicesRank)
    );
    assert_eq!(
        check_usage(&values, &rows, &shape(&[2, 2, 2])),
        Err(UsageError::RankMismatch)
    );
    assert_eq!(
        check_usage(&values, &beyond, &shape(&[2, 2])),
        Err(UsageError::OutOfBounds)
    );
    assert_eq!(check_usage(&values, &rows, &shape(&[2, 2])), Ok(()));
    let out = try_from_sparse(&mut dev, values, rows, shape(&[2, 2]))
        .ok()
        .unwrap();
    assert_eq!(out.as_vec(), vec![0, 1, 2, 0]);
}

#[test]
fn wrong_number_of_elements_is_refused() {
    let mut dev = Cpu::default();
    let r: Result<Tensor<i64, NoneTape>, Error> = dev.tensor_from_vec(vec![1, 2, 3], shape(&[2]));
    assert!(matches!(r, Err(Error::WrongNumElements)));
    assert_eq!(dev.unique_id().0, 0);
}

#[test]
fn strides_beyond_the_buffer_are_refused() {
    let mut dev = Cpu::default();
    assert!(dev
        .build_tensor(shape(&[3]), vec![2], vec![1i64, 2, 3, 4])
        .is_none());
    assert!(dev
        .build_tensor(shape(&[3]), vec![2, 1], vec![1i64; 9])
        .is_none());
    assert!(dev
        .build_tensor(shape(&[2, 2]), vec![usize::MAX, 2], vec![1i64; 9])
        .is_none());
    assert!(dev
        .build_tensor(shape(&[0, 7]), vec![5, 5], Vec::<i64>::new())
        .is_some());
}

#[test]
fn tape_can_be_taken_off_and_put_back() {
    let mut dev = Cpu::default();
    let values = dev.tensor_from_vec(vec![1i64, 2], shape(&[2])).unwrap();
    let indices = dev.tensor_from_vec(vec![1usize, 0], shape(&[2, 1])).unwrap();
    let (plain, tape) = values.clone().leaky_traced().split_tape();
    let mut tape: OwnedTape<i64> = tape;
    assert_eq!(tape.operations.len(), 0);
    let traced = plain.put_tape(OwnedTape::new(Gradients::leaky()));
    let (out, more) = dev.from_sparse(traced, indices, shape(&[2])).split_tape();
    assert_eq!(more.operations.len(), 1);
    for operation in more.operations {
        tape.add_backward_op(operation);
    }
    let grads = tape.execute().unwrap();
    assert!(grads.contains(&out.ghost()));
    assert!(grads.contains(&values.ghost()));
    assert!(grads.get_ref_checked(&indices_ghost_of_nothing()).is_none());
}

fn indices_ghost_of_nothing() -> from_sparse::tensor::GhostTensor {
    from_sparse::tensor::GhostTensor {
        id: from_sparse::tensor::UniqueId(77),
        len: 1,
    }
}

#[test]
fn shapes_are_checked_in_order() {
    assert_eq!(
        check_shapes(&shape(&[2, 2]), &shape(&[3]), &shape(&[4])),
        Err(UsageError::ValuesRank)
    );
    assert_eq!(
        check_shapes(&shape(&[2]), &shape(&[3]), &shape(&[4])),
        Err(UsageError::IndicesRank)
    );
    assert_eq!(
        check_shapes(&shape(&[2]), &shape(&[3, 2]), &shape(&[4])),
        Err(UsageError::LengthMismatch)
    );
    assert_eq!(
        check_shapes(&shape(&[3]), &shape(&[3, 2]), &shape(&[4])),
        Err(UsageError::RankMismatch)
    );
    assert_eq!(
        check_shapes(&shape(&[3]), &shape(&[3, 1]), &shape(&[4])),
        Ok(())
    );
    assert_eq!(
        check_shapes(&shape(&[0]), &shape(&[0, 0]), &shape(&[])),
        Ok(())
    );
}
