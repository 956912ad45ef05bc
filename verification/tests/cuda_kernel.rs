use from_sparse::cuda_kernel::{
    bwd_name, from_sparse_bwd, from_sparse_fwd, fwd_name, launch_bwd, launch_cfg, launch_for,
    launch_fwd, module_name, plan, plan_backward, shape_info, KernelCache, KernelDtype,
    LaunchConfig, BLOCK_SIZE,
};
use from_sparse::device::Cpu;
use from_sparse::from_sparse::FromSparse;
use from_sparse::shapes::Shape;

fn shape(dims: &[usize]) -> Shape {
    Shape::new(dims.to_vec()).unwrap()
}

#[test]
fn launch_has_a_worker_for_each_element() {
    assert_eq!(BLOCK_SIZE, 128);
    let cfg = launch_cfg::<128>(5);
    assert_eq!(
        cfg,
        LaunchConfig {
            grid_dim: (1, 1, 1),
            block_dim: (128, 1, 1),
            shared_mem_bytes: 0
        }
    );
    assert_eq!(launch_cfg::<128>(0).grid_dim, (0, 1, 1));
    assert_eq!(launch_cfg::<128>(128).grid_dim, (1, 1, 1));
    assert_eq!(launch_cfg::<128>(129).grid_dim, (2, 1, 1));
    assert_eq!(launch_cfg::<1024>(2049).grid_dim, (3, 1, 1));
    assert_eq!(launch_cfg::<1024>(2049).block_dim, (1024, 1, 1));
    assert_eq!(launch_cfg::<128>(127).grid_dim, (1, 1, 1));
    assert_eq!(launch_cfg::<128>(u32::MAX - 127).grid_dim, (33554431, 1, 1));
    assert_eq!(launch_cfg::<128>(u32::MAX - 126).grid_dim, (33554432, 1, 1));
    assert_eq!(launch_cfg::<128>(u32::MAX).grid_dim, (33554432, 1, 1));
    assert_eq!(launch_cfg::<1>(u32::MAX).grid_dim, (u32::MAX, 1, 1));
    assert_eq!(launch_cfg::<2>(u32::MAX).grid_dim, (2147483648, 1, 1));
}

#[test]
fn launch_holds_counts_beyond_a_u32() {
    assert_eq!(launch_for::<128>(5), Some(launch_cfg::<128>(5)));
    assert_eq!(launch_for::<128>(0).unwrap().grid_dim, (0, 1, 1));
    let beyond = u32::MAX as usize + 6;
    let cfg = launch_for::<128>(beyond).unwrap();
    assert_eq!(cfg.grid_dim, (33554433, 1, 1));
    assert_eq!(cfg.block_dim, (128, 1, 1));
    assert_eq!(cfg.shared_mem_bytes, 0);
    let most = u32::MAX as usize * 128;
    assert_eq!(launch_for::<128>(most).unwrap().grid_dim, (u32::MAX, 1, 1));
    assert_eq!(launch_for::<128>(most - 1).unwrap().grid_dim, (u32::MAX, 1, 1));
    assert_eq!(launch_for::<128>(most - 128).unwrap().grid_dim, (u32::MAX - 1, 1, 1));
    assert!(launch_for::<128>(most + 1).is_none());
    assert!(launch_for::<1>(u32::MAX as usize + 1).is_none());
    assert!(launch_for::<1>(u32::MAX as usize).is_some());
}

#[test]
fn info_lists_extents_before_strides() {
    assert_eq!(shape_info(&[5, 2], &[2, 1]), vec![5, 2, 2, 1]);
    assert_eq!(shape_info(&[], &[]), Vec::<usize>::new());
}

#[test]
fn plan_of_the_diagonal() {
    let mut dev = Cpu::default();
    let values = dev
        .tensor_from_vec(vec![0i64, 1, 2, 3, 4], shape(&[5]))
        .unwrap();
    let indices = dev
        .tensor_from_vec(vec![0usize, 0, 1, 1, 2, 2, 3, 3, 4, 4], shape(&[5, 2]))
        .unwrap();
    let p = plan(&values, &indices, &shape(&[5, 5])).unwrap();
    assert_eq!(p.numel, 5);
    assert_eq!(p.values_info, vec![5, 1]);
    assert_eq!(p.indices_info, vec![5, 2, 2, 1]);
    assert_eq!(p.output_info, vec![5, 5, 5, 1]);
    assert_eq!(p.output_len, 25);
    assert_eq!(p.num_dims, 2);
    assert_eq!(p.cfg, launch_cfg::<128>(5));
}

#[test]
fn plan_has_a_worker_for_each_of_many_values() {
    let mut dev = Cpu::default();
    for (many, groups) in [
        ((u32::MAX - 127) as usize, 33554431u32),
        ((u32::MAX - 126) as usize, 33554432),
        (u32::MAX as usize + 1, 33554432),
        (u32::MAX as usize + 2, 33554433),
        (u32::MAX as usize * 128, u32::MAX),
    ] {
        let values = dev.build_tensor(shape(&[many]), vec![0], vec![1i64]).unwrap();
        let indices = dev
            .build_tensor(shape(&[many, 0]), vec![0, 0], Vec::<usize>::new())
            .unwrap();
        let p = plan(&values, &indices, &shape(&[])).unwrap();
        assert_eq!(p.numel, many);
        assert_eq!(p.cfg.grid_dim, (groups, 1, 1));
        assert_eq!(p.cfg.block_dim, (128, 1, 1));
        assert!(p.cfg.grid_dim.0 as u64 * 128 >= many as u64);
        assert_eq!(p.values_info, vec![many, 0]);
        assert_eq!(p.output_len, 1);
    }
}

#[test]
fn no_plan_for_more_groups_than_a_launch_holds() {
    let mut dev = Cpu::default();
    let many = u32::MAX as usize * 128 + 1;
    let values = dev.build_tensor(shape(&[many]), vec![0], vec![1i64]).unwrap();
    let indices = dev
        .build_tensor(shape(&[many, 0]), vec![0, 0], Vec::<usize>::new())
        .unwrap();
    assert!(plan(&values, &indices, &shape(&[])).is_none());
}

#[test]
fn kernels_on_the_host_agree_with_the_host_path() {
    let mut dev = Cpu::default();
    let values = dev
        .build_tensor(shape(&[4]), vec![2], vec![7i64, 0, 8, 0, 9, 0, 10])
        .unwrap();
    // Rows (1, 0), (0, 1), (1, 0), (1, 1), stored column after column.
    let indices = dev
        .build_tensor(shape(&[4, 2]), vec![1, 4], vec![1usize, 0, 1, 1, 0, 1, 0, 1])
        .unwrap();
    let target = shape(&[2, 2]);
    let p = plan(&values, &indices, &target).unwrap();
    assert_eq!(p.values_info, vec![4, 2]);
    assert_eq!(p.indices_info, vec![4, 2, 1, 4]);
    let mut output = vec![0i64; p.output_len];
    launch_fwd(
        &p.cfg,
        p.numel,
        values.data(),
        &p.values_info,
        indices.data(),
        &p.indices_info,
        &mut output,
        &p.output_info,
        p.num_dims,
    );
    assert_eq!(output, vec![0, 8, 9, 10]);

    let (host, tape) = dev
        .from_sparse(values.clone().leaky_traced(), indices.clone(), target)
        .split_tape();
    assert_eq!(host.data(), &output);

    let grad_out = vec![1i64, 10, 100, 1000];
    let mut grad_inp = vec![0i64; 7];
    launch_bwd(
        &p.cfg,
        p.numel,
        &mut grad_inp,
        &p.values_info,
        indices.data(),
        &p.indices_info,
        &grad_out,
        &p.output_info,
        p.num_dims,
    );
    assert_eq!(grad_inp, vec![100, 0, 10, 0, 100, 0, 1000]);

    let operation = &tape.operations[0];
    let back = plan_backward(operation).unwrap();
    assert_eq!(back.values_info, vec![4, 2]);
    assert_eq!(back.indices_info, vec![4, 2, 2, 1]);
    assert_eq!(back.output_info, vec![2, 2, 2, 1]);
    assert_eq!(back.output_len, 4);
    assert_eq!(operation.coordinates(), &vec![1, 0, 0, 1, 1, 0, 1, 1]);
    assert_eq!(operation.inp(), values.ghost());
    assert_eq!(operation.out(), host.ghost());
    assert_eq!(operation.stride(), 2);
    assert_eq!(operation.n(), 4);
    assert_eq!(operation.shape().concrete(), &vec![2, 2]);
    let mut again = vec![0i64; 7];
    launch_bwd(
        &back.cfg,
        back.numel,
        &mut again,
        &back.values_info,
        operation.coordinates(),
        &back.indices_info,
        &grad_out,
        &back.output_info,
        back.num_dims,
    );
    assert_eq!(again, grad_inp);

    let mut tape = tape;
    tape.gradients
        .get_or_alloc_mut(&host.ghost())
        .unwrap()
        .copy_from_slice(&grad_out);
    let grads = tape.execute().unwrap();
    assert_eq!(grads.get(&values.ghost()).to_vec(), grad_inp);
}

#[test]
fn worker_beyond_the_values_does_nothing() {
    let values = [5i32, 6];
    let indices = [1usize, 0];
    let mut output = [0i32, 0, 0];
    from_sparse_fwd(2, 2, &values, &[2, 1], &indices, &[2, 1, 1, 1], &mut output, &[3, 1], 1);
    assert_eq!(output, [0, 0, 0]);
    from_sparse_fwd(1, 2, &values, &[2, 1], &indices, &[2, 1, 1, 1], &mut output, &[3, 1], 1);
    assert_eq!(output, [6, 0, 0]);
    from_sparse_fwd(0, 2, &values, &[2, 1], &indices, &[2, 1, 1, 1], &mut output, &[3, 1], 1);
    assert_eq!(output, [6, 5, 0]);
    let mut grad = [1i32, 1];
    from_sparse_bwd(7, 2, &mut grad, &[2, 1], &indices, &[2, 1, 1, 1], &[10, 20, 30], &[3, 1], 1);
    assert_eq!(grad, [1, 1]);
    from_sparse_bwd(0, 2, &mut grad, &[2, 1], &indices, &[2, 1, 1, 1], &[10, 20, 30], &[3, 1], 1);
    assert_eq!(grad, [21, 1]);
}

#[test]
fn workers_in_another_order_leave_one_of_the_values() {
    let values = [5i32, 6, 7];
    let indices = [1usize, 1, 0];
    let mut output = [0i32, 0, 0];
    for worker in [2usize, 1, 0] {
        from_sparse_fwd(
            worker,
            3,
            &values,
            &[3, 1],
            &indices,
            &[3, 1, 1, 1],
            &mut output,
            &[3, 1],
            1,
        );
    }
    assert_eq!(output, [7, 5, 0]);
}

#[test]
fn kernel_names_follow_the_element_type() {
    assert_eq!(module_name(KernelDtype::F32), "from_sparse_f32");
    assert_eq!(fwd_name(KernelDtype::F32), "from_sparse_fwd_f32");
    assert_eq!(bwd_name(KernelDtype::F32), "from_sparse_bwd_f32");
    assert_eq!(module_name(KernelDtype::F16), "from_sparse_f16");
    assert_eq!(fwd_name(KernelDtype::F16), "from_sparse_fwd_f16");
    assert_eq!(bwd_name(KernelDtype::F16), "from_sparse_bwd_f16");
    assert_eq!(module_name(KernelDtype::F64), "from_sparse_f64");
    assert_eq!(fwd_name(KernelDtype::F64), "from_sparse_fwd_f64");
    assert_eq!(bwd_name(KernelDtype::F64), "from_sparse_bwd_f64");
}

#[test]
fn module_is_loaded_once() {
    let mut cache = KernelCache::new();
    assert!(!cache.has_module(KernelDtype::F32));
    assert!(cache.ensure_loaded(KernelDtype::F32));
    assert!(cache.has_module(KernelDtype::F32));
    assert!(!cache.ensure_loaded(KernelDtype::F32));
    assert!(!cache.has_module(KernelDtype::F64));
    assert!(cache.ensure_loaded(KernelDtype::F64));
    assert!(!cache.has_module(KernelDtype::F16));
}
