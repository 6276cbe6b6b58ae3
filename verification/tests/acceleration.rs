use cubetracer::blas::{BlasVariable, InstanceData};
use cubetracer::gpu::{GpuContext, GpuOp, ScratchBuffer};
use cubetracer::tlas::TlasVariable;

fn transform(seed: u32) -> [u32; 12] {
    let mut t = [0u32; 12];
    let mut i = 0;
    while i < 12 {
        t[i] = seed + i as u32;
        i += 1;
    }
    t
}

#[test]
fn empty_build_runs_once() {
    let mut gpu = GpuContext::new();
    let mut tlas = TlasVariable::new();

    // a fresh manager is dirty: the first build makes a valid, empty structure
    assert!(tlas.is_dirty());
    assert!(tlas.build(&mut gpu, 16));
    assert!(!tlas.is_dirty());
    assert_eq!(
        gpu.ops().as_slice(),
        &[
            GpuOp::CreateTopLevel { handle: 1, instance_count: 0 },
            GpuOp::UploadInstances { buffer: 2, record_count: 0 },
            GpuOp::AllocateScratch { buffer: 3, size: 16 },
            GpuOp::BuildTopLevel { handle: 1, instance_buffer: 2 },
            GpuOp::MemoryBarrier,
        ]
    );
}

#[test]
fn scenario_one_unit_instance_count_one() {
    let mut gpu = GpuContext::new();
    let mut tlas = TlasVariable::new();

    let a = BlasVariable::new(&mut gpu, vec![7, 8, 9], transform(100), 64);
    tlas.register(String::from("A"), a);

    assert!(tlas.build(&mut gpu, 32));

    // the whole recorded protocol, in order
    assert_eq!(
        gpu.ops().as_slice(),
        &[
            GpuOp::CreateBottomLevel { handle: 1 },
            GpuOp::UploadGeometry { handle: 1, word_count: 3 },
            GpuOp::CreateTopLevel { handle: 2, instance_count: 1 },
            GpuOp::UploadInstances { buffer: 3, record_count: 1 },
            GpuOp::AllocateScratch { buffer: 4, size: 64 },
            GpuOp::BuildBottomLevel { handle: 1 },
            GpuOp::MemoryBarrier,
            GpuOp::BuildTopLevel { handle: 2, instance_buffer: 3 },
            GpuOp::MemoryBarrier,
        ]
    );

    // the generation is consistent: handle, instance buffer and records
    assert_eq!(tlas.top_level_handle(), Some(2));
    let buffer = tlas.instance_buffer().as_ref().unwrap();
    assert_eq!(buffer.id, 3);
    assert_eq!(
        buffer.records.as_slice(),
        &[InstanceData { transform: transform(100), blas_handle: 1 }]
    );
}

#[test]
fn scenario_unregister_rebuilds_with_remaining_unit() {
    let mut gpu = GpuContext::new();
    let mut tlas = TlasVariable::new();

    let a = BlasVariable::new(&mut gpu, vec![1], transform(0), 10);
    let b = BlasVariable::new(&mut gpu, vec![2, 3], transform(50), 20);
    tlas.register(String::from("A"), a);
    tlas.register(String::from("B"), b);
    assert!(tlas.build(&mut gpu, 5));

    tlas.unregister(String::from("A"));
    assert!(tlas.is_dirty());
    let before = gpu.op_count();
    assert!(tlas.build(&mut gpu, 5));

    // only "B" is left: one instance, pointing at B's structure (handle 2)
    let tail = &gpu.ops().as_slice()[before..];
    assert_eq!(tail[0], GpuOp::CreateTopLevel { handle: 6, instance_count: 1 });
    let buffer = tlas.instance_buffer().as_ref().unwrap();
    assert_eq!(buffer.records.len(), 1);
    assert_eq!(buffer.records[0].blas_handle, 2);
    // both units were already built: no bottom-level build, no first barrier
    assert_eq!(
        tail,
        &[
            GpuOp::CreateTopLevel { handle: 6, instance_count: 1 },
            GpuOp::UploadInstances { buffer: 7, record_count: 1 },
            GpuOp::AllocateScratch { buffer: 8, size: 20 },
            GpuOp::BuildTopLevel { handle: 6, instance_buffer: 7 },
            GpuOp::MemoryBarrier,
        ]
    );
}

#[test]
fn scenario_steady_state_build_is_free() {
    let mut gpu = GpuContext::new();
    let mut tlas = TlasVariable::new();

    let a = BlasVariable::new(&mut gpu, vec![4], transform(7), 48);
    tlas.register(String::from("A"), a);
    assert!(tlas.build(&mut gpu, 8));

    let generation_one = tlas.top_level_handle();
    let ops_after_first = gpu.op_count();

    // no mutation between the calls: the second build does nothing at all
    assert!(!tlas.build(&mut gpu, 8));
    assert_eq!(gpu.op_count(), ops_after_first);
    assert_eq!(tlas.top_level_handle(), generation_one);
    assert!(!tlas.is_dirty());
}

#[test]
fn scratch_size_is_largest_single_step() {
    let mut gpu = GpuContext::new();
    let mut tlas = TlasVariable::new();

    let a = BlasVariable::new(&mut gpu, vec![1], transform(1), 10);
    let b = BlasVariable::new(&mut gpu, vec![2], transform(2), 99);
    let c = BlasVariable::new(&mut gpu, vec![3], transform(3), 40);
    tlas.register(String::from("A"), a);
    tlas.register(String::from("B"), b);
    tlas.register(String::from("C"), c);
    assert!(tlas.build(&mut gpu, 5));

    // max(10, 99, 40, 5) — the max, never the sum
    let scratch: Vec<&GpuOp> = gpu
        .ops()
        .iter()
        .filter(|op| matches!(op, GpuOp::AllocateScratch { .. }))
        .collect();
    assert_eq!(scratch, vec![&GpuOp::AllocateScratch { buffer: 6, size: 99 }]);
}

#[test]
fn scratch_size_covers_top_level_requirement() {
    let mut gpu = GpuContext::new();
    let mut tlas = TlasVariable::new();

    let a = BlasVariable::new(&mut gpu, vec![1], transform(1), 10);
    tlas.register(String::from("A"), a);
    assert!(tlas.build(&mut gpu, 200));

    assert!(gpu
        .ops()
        .iter()
        .any(|op| *op == GpuOp::AllocateScratch { buffer: 4, size: 200 }));
}

#[test]
fn register_overwrites_same_name() {
    let mut gpu = GpuContext::new();
    let mut tlas = TlasVariable::new();

    let first = BlasVariable::new(&mut gpu, vec![1], transform(1), 10);
    let second = BlasVariable::new(&mut gpu, vec![2], transform(2), 30);
    tlas.register(String::from("A"), first);
    tlas.register(String::from("A"), second);
    assert_eq!(tlas.unit_count(), 1);

    assert!(tlas.build(&mut gpu, 1));
    // last write wins: the surviving unit is the second one (handle 2)
    let buffer = tlas.instance_buffer().as_ref().unwrap();
    assert_eq!(buffer.records.len(), 1);
    assert_eq!(buffer.records[0].blas_handle, 2);
}

#[test]
fn register_then_unregister_leaves_no_stale_entry() {
    let mut gpu = GpuContext::new();
    let mut tlas = TlasVariable::new();

    let a = BlasVariable::new(&mut gpu, vec![1], transform(1), 10);
    tlas.register(String::from("X"), a);
    tlas.unregister(String::from("X"));

    assert_eq!(tlas.unit_count(), 0);
    assert!(!tlas.contains(&String::from("X")));

    // the visible rebuild outcome is that of an untouched, fresh manager
    assert!(tlas.build(&mut gpu, 16));
    let tail = &gpu.ops().as_slice()[2..];
    assert_eq!(
        tail,
        &[
            GpuOp::CreateTopLevel { handle: 2, instance_count: 0 },
            GpuOp::UploadInstances { buffer: 3, record_count: 0 },
            GpuOp::AllocateScratch { buffer: 4, size: 16 },
            GpuOp::BuildTopLevel { handle: 2, instance_buffer: 3 },
            GpuOp::MemoryBarrier,
        ]
    );
}

#[test]
fn unregister_absent_name_is_a_no_op() {
    let mut gpu = GpuContext::new();
    let mut tlas = TlasVariable::new();
    assert!(tlas.build(&mut gpu, 4));
    assert!(!tlas.is_dirty());

    tlas.unregister(String::from("nobody"));
    assert!(!tlas.is_dirty());
    assert!(!tlas.build(&mut gpu, 4));
}

#[test]
fn final_membership_alone_decides_the_build() {
    // churn on one manager...
    let mut gpu1 = GpuContext::new();
    let mut m1 = TlasVariable::new();
    let a = BlasVariable::new(&mut gpu1, vec![1], transform(1), 10);
    let b = BlasVariable::new(&mut gpu1, vec![2], transform(2), 20);
    let c = BlasVariable::new(&mut gpu1, vec![3], transform(3), 30);
    m1.register(String::from("A"), a);
    m1.register(String::from("B"), b);
    m1.unregister(String::from("A"));
    m1.register(String::from("C"), c);
    assert!(m1.build(&mut gpu1, 5));

    // ...and a fresh manager populated with the final membership only
    let mut gpu2 = GpuContext::new();
    let mut m2 = TlasVariable::new();
    let b2 = BlasVariable::new(&mut gpu2, vec![2], transform(2), 20);
    let c2 = BlasVariable::new(&mut gpu2, vec![3], transform(3), 30);
    m2.register(String::from("C"), c2);
    m2.register(String::from("B"), b2);
    assert!(m2.build(&mut gpu2, 5));

    // same instance count, same scratch size, same barrier pattern
    assert_eq!(m1.unit_count(), m2.unit_count());
    let count = |g: &GpuContext, f: &dyn Fn(&GpuOp) -> bool| g.ops().iter().filter(|o| f(o)).count();
    assert_eq!(
        count(&gpu1, &|o| matches!(o, GpuOp::MemoryBarrier)),
        count(&gpu2, &|o| matches!(o, GpuOp::MemoryBarrier))
    );
    let scratch_of = |g: &GpuContext| {
        g.ops()
            .iter()
            .find_map(|o| match o {
                GpuOp::AllocateScratch { size, .. } => Some(*size),
                _ => None,
            })
            .unwrap()
    };
    assert_eq!(scratch_of(&gpu1), 30);
    assert_eq!(scratch_of(&gpu2), 30);
    assert_eq!(
        m1.instance_buffer().as_ref().unwrap().records.len(),
        m2.instance_buffer().as_ref().unwrap().records.len()
    );
}

#[test]
fn descriptor_payload_only_after_a_build() {
    let mut gpu = GpuContext::new();
    let mut tlas = TlasVariable::new();

    // before any build there is no generation: the caller must treat a
    // descriptor request now as a fatal contract violation
    assert!(!tlas.has_built());

    assert!(tlas.build(&mut gpu, 4));
    assert!(tlas.has_built());
    let payload = tlas.write_descriptor_builder();
    assert_eq!(payload.structures, vec![1]);
}

#[test]
fn blas_build_records_if_and_only_if_dirty() {
    let mut gpu = GpuContext::new();
    let mut unit = BlasVariable::new(&mut gpu, vec![1, 2], transform(9), 32);
    let scratch = ScratchBuffer { id: 77, size: 64 };

    assert!(unit.is_dirty());
    assert!(!unit.is_built());
    assert!(unit.build(&mut gpu, &scratch));
    assert!(!unit.is_dirty());
    assert!(unit.is_built());
    assert_eq!(*gpu.ops().last().unwrap(), GpuOp::BuildBottomLevel { handle: 1 });

    let before = gpu.op_count();
    assert!(!unit.build(&mut gpu, &scratch));
    assert_eq!(gpu.op_count(), before);
}

#[test]
fn replacing_geometry_marks_the_unit_dirty() {
    let mut gpu = GpuContext::new();
    let mut unit = BlasVariable::new(&mut gpu, vec![1], transform(3), 16);
    let scratch = ScratchBuffer { id: 5, size: 100 };
    assert!(unit.build(&mut gpu, &scratch));

    unit.set_geometry(&mut gpu, vec![9, 9, 9], 48);
    assert!(unit.is_dirty());
    assert_eq!(unit.memory_requirement(), 48);
    assert_eq!(
        *gpu.ops().last().unwrap(),
        GpuOp::UploadGeometry { handle: 1, word_count: 3 }
    );
    assert!(unit.build(&mut gpu, &scratch));
}

#[test]
fn set_transform_updates_the_instance_record() {
    let mut gpu = GpuContext::new();
    let mut unit = BlasVariable::new(&mut gpu, vec![1], transform(1), 8);
    unit.set_transform(transform(42));
    assert_eq!(unit.instance_data().transform, transform(42));
    assert_eq!(unit.instance_data().blas_handle, 1);
}

#[test]
fn instance_data_is_available_before_first_build() {
    let mut gpu = GpuContext::new();
    let unit = BlasVariable::new(&mut gpu, vec![1], transform(11), 8);
    let record = unit.instance_data();
    assert_eq!(record.transform, transform(11));
    assert_eq!(record.blas_handle, 1);
}
