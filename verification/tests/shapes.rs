use from_sparse::shapes::{index_to_i, Shape};

#[test]
fn strides_are_row_major() {
    let shape = Shape::new(vec![2, 3, 4]).unwrap();
    assert_eq!(shape.strides(), vec![12, 4, 1]);
    assert_eq!(shape.num_elements(), 24);
    assert_eq!(shape.num_dims(), 3);
    assert_eq!(shape.concrete(), &vec![2, 3, 4]);
}

#[test]
fn rank_zero_has_one_element() {
    let shape = Shape::new(vec![]).unwrap();
    assert_eq!(shape.strides(), Vec::<usize>::new());
    assert_eq!(shape.num_elements(), 1);
    assert!(shape.has_elements());
    assert!(shape.contains(&[]));
    assert_eq!(index_to_i(&shape, &[], &[]), 0);
}

#[test]
fn zero_extent_has_no_element() {
    let shape = Shape::new(vec![3, 0, 2]).unwrap();
    assert_eq!(shape.num_elements(), 0);
    assert_eq!(shape.strides(), vec![0, 2, 1]);
    assert!(!shape.has_elements());
    assert!(!shape.contains(&[0, 0, 0]));
}

#[test]
fn offset_of_an_index() {
    let shape = Shape::new(vec![5, 5]).unwrap();
    let strides = shape.strides();
    assert!(shape.contains(&[3, 3]));
    assert_eq!(index_to_i(&shape, &strides, &[3, 3]), 18);
    assert_eq!(index_to_i(&shape, &strides, &[4, 4]), 24);
    assert_eq!(index_to_i(&shape, &strides, &[0, 0]), 0);
    assert_eq!(index_to_i(&shape, &[1, 5], &[3, 4]), 23);
}

#[test]
fn index_outside_the_extents() {
    let shape = Shape::new(vec![5, 5]).unwrap();
    assert!(!shape.contains(&[5, 0]));
    assert!(!shape.contains(&[0, 5]));
    assert!(!shape.contains(&[0]));
    assert!(!shape.contains(&[0, 0, 0]));
}

#[test]
fn unravel_inverts_the_offset() {
    let shape = Shape::new(vec![2, 3, 4]).unwrap();
    let strides = shape.strides();
    assert_eq!(shape.unravel(&strides, 0), vec![0, 0, 0]);
    assert_eq!(shape.unravel(&strides, 17), vec![1, 1, 1]);
    assert_eq!(shape.unravel(&strides, 23), vec![1, 2, 3]);
    for k in 0..24 {
        let index = shape.unravel(&strides, k);
        assert!(shape.contains(&index));
        assert_eq!(index_to_i(&shape, &strides, &index), k);
    }
}

#[test]
fn overflowing_extents_are_no_shape() {
    assert!(Shape::new(vec![usize::MAX, 2]).is_none());
    assert!(Shape::new(vec![0, usize::MAX, 2]).is_none());
    assert!(Shape::new(vec![usize::MAX, 1, 1]).is_some());
    assert!(Shape::new(vec![usize::MAX, 0]).is_some());
}

#[test]
fn buffer_covers_what_strides_reach() {
    let shape = Shape::new(vec![2, 3]).unwrap();
    assert!(shape.covered_by(&[3, 1], 6));
    assert!(!shape.covered_by(&[3, 1], 5));
    assert!(shape.covered_by(&[0, 0], 1));
    assert!(!shape.covered_by(&[0, 0], 0));
    assert!(shape.covered_by(&[1, 2], 6));
    assert!(!shape.covered_by(&[3], 6));
    assert!(!shape.covered_by(&[usize::MAX, usize::MAX], usize::MAX));
}
