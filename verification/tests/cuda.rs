use gpucr::cuda::{rollback_calls, CleanupCall, MappingStage};
use gpucr::cuda::{
    advance_context, ensure_context, free_status, memory_snapshot, remap_size, take_physical,
    untrack_allocation, Allocation, AllocationSnapshot, AllocationTable, ContextStage, CudaMemcpyKind,
    CudaState, DriverReply, CUDA_ERROR_INVALID_VALUE, CUDA_ERROR_MEMORY_ALLOCATION, CUDA_SUCCESS_RT,
};
use gpucr::Error;

fn device_allocation(size: usize, handle: Option<u64>) -> Allocation {
    Allocation { size, aligned_size: size.next_multiple_of(2 << 20), handle }
}

fn state_with(entries: &[(usize, Allocation)]) -> CudaState {
    let mut state = CudaState::default();
    for (ptr, a) in entries {
        state.allocations.insert(*ptr, *a);
    }
    state
}

#[test]
fn table_tracks_inserts_replacements_and_removals() {
    let mut t = AllocationTable::new();
    assert!(!t.contains(5));
    t.insert(0x3000, device_allocation(10, Some(1)));
    t.insert(0x1000, device_allocation(20, Some(2)));
    t.insert(0x2000, device_allocation(30, Some(3)));
    t.insert(0x2000, device_allocation(31, Some(4)));
    assert_eq!(t.get(0x2000), Some(device_allocation(31, Some(4))));
    assert_eq!(t.remove(0x1000), Some(device_allocation(20, Some(2))));
    assert_eq!(t.remove(0x1000), None);
    assert!(t.contains(0x3000));
    assert_eq!(
        t.snapshot(),
        vec![
            AllocationSnapshot { ptr: 0x2000, size: 31 },
            AllocationSnapshot { ptr: 0x3000, size: 10 },
        ]
    );
}

#[test]
fn snapshot_is_in_address_order() {
    let ptrs = [0x9000usize, 0x1000, 0x5000, 0x3000, 0x7000];
    let state = state_with(&ptrs.iter().map(|p| (*p, device_allocation(*p / 0x1000, Some(1)))).collect::<Vec<_>>());
    let snap = memory_snapshot(&state);
    let got: Vec<usize> = snap.iter().map(|a| a.ptr).collect();
    assert_eq!(got, vec![0x1000, 0x3000, 0x5000, 0x7000, 0x9000]);
    assert!(snap.iter().all(|a| a.size == a.ptr / 0x1000));
}

#[test]
fn untracking_hands_back_the_allocation_once() {
    let mut state = state_with(&[(0x2000, device_allocation(5, Some(9)))]);
    assert_eq!(untrack_allocation(&mut state, 0x2000).unwrap(), device_allocation(5, Some(9)));
    match untrack_allocation(&mut state, 0x2000) {
        Err(Error::Protocol(m)) => assert_eq!(m, "cannot free untracked allocation 0x2000"),
        other => panic!("{other:?}"),
    }
    assert!(memory_snapshot(&state).is_empty());
}

#[test]
fn release_then_remap_asks_for_the_reserved_size() {
    let mut state = state_with(&[(0x4000, device_allocation(100, Some(77)))]);
    let before = memory_snapshot(&state);
    assert_eq!(remap_size(&state, 0x4000).unwrap(), None);
    assert_eq!(take_physical(&mut state, 0x4000).unwrap(), Some((77, 2 << 20)));
    assert_eq!(take_physical(&mut state, 0x4000).unwrap(), None);
    assert_eq!(remap_size(&state, 0x4000).unwrap(), Some(2 << 20));
    state.allocations.set_handle(0x4000, Some(78));
    assert_eq!(remap_size(&state, 0x4000).unwrap(), None);
    assert_eq!(memory_snapshot(&state), before);
}

#[test]
fn unknown_addresses_are_refused() {
    let mut state = CudaState::default();
    match take_physical(&mut state, 0xabc) {
        Err(Error::Protocol(m)) => assert_eq!(m, "cannot release unknown allocation 0xabc"),
        other => panic!("{other:?}"),
    }
    match remap_size(&state, 0xabc) {
        Err(Error::Protocol(m)) => assert_eq!(m, "cannot remap unknown allocation 0xabc"),
        other => panic!("{other:?}"),
    }
}

#[test]
fn free_status_maps_outcomes_to_runtime_codes() {
    assert_eq!(free_status(&Ok(())), CUDA_SUCCESS_RT);
    assert_eq!(free_status(&Err(Error::Protocol("x".into()))), CUDA_ERROR_INVALID_VALUE);
    assert_eq!(
        free_status(&Err(Error::Cuda { code: 700, message: "x".into() })),
        CUDA_ERROR_MEMORY_ALLOCATION
    );
}

#[test]
fn context_setup_creates_a_context_when_none_is_current() {
    let mut state = CudaState::default();
    let mut stage = ensure_context(&state);
    assert_eq!(stage, ContextStage::CallInit);
    stage = advance_context(&mut state, stage, DriverReply::Status { code: 0 });
    assert_eq!(stage, ContextStage::CallGetCurrent);
    stage = advance_context(&mut state, stage, DriverReply::Context { code: 0, context: 0 });
    assert_eq!(stage, ContextStage::CallDeviceGet);
    stage = advance_context(&mut state, stage, DriverReply::Device { code: 0, device: 3 });
    assert_eq!(stage, ContextStage::CallCreate { device: 3 });
    assert!(!state.initialized);
    stage = advance_context(&mut state, stage, DriverReply::Context { code: 0, context: 0xbeef });
    assert_eq!(stage, ContextStage::Ready);
    assert!(state.initialized);
    assert_eq!((state.context, state.device), (0xbeef, 3));
    assert_eq!(ensure_context(&state), ContextStage::Ready);
}

#[test]
fn context_setup_adopts_the_current_context() {
    let mut state = CudaState::default();
    let stage = advance_context(&mut state, ContextStage::CallInit, DriverReply::Status { code: 0 });
    let stage = advance_context(&mut state, stage, DriverReply::Context { code: 0, context: 0x55 });
    assert_eq!(stage, ContextStage::CallGetDevice { context: 0x55 });
    let stage = advance_context(&mut state, stage, DriverReply::Device { code: 0, device: 1 });
    assert_eq!(stage, ContextStage::Ready);
    assert_eq!((state.initialized, state.context, state.device), (true, 0x55, 1));
}

#[test]
fn context_setup_stops_at_the_first_failure() {
    let mut state = CudaState::default();
    let stage = advance_context(&mut state, ContextStage::CallInit, DriverReply::Status { code: 100 });
    assert_eq!(stage, ContextStage::Failed { code: 100 });
    let stage = advance_context(
        &mut state,
        ContextStage::CallCreate { device: 0 },
        DriverReply::Context { code: 2, context: 9 },
    );
    assert_eq!(stage, ContextStage::Failed { code: 2 });
    assert!(!state.initialized);
    assert_eq!(state.context, 0);
}

#[test]
fn memcpy_kinds_have_runtime_codes() {
    assert_eq!(CudaMemcpyKind::HostToDevice.code(), 1);
    assert_eq!(CudaMemcpyKind::DeviceToHost.code(), 2);
}

#[test]
fn rollbacks_undo_in_reverse_order() {
    assert_eq!(rollback_calls(MappingStage::Reserved, true), vec![CleanupCall::AddressFree]);
    assert_eq!(
        rollback_calls(MappingStage::Created, true),
        vec![CleanupCall::Release, CleanupCall::AddressFree]
    );
    assert_eq!(
        rollback_calls(MappingStage::Mapped, true),
        vec![CleanupCall::Unmap, CleanupCall::Release, CleanupCall::AddressFree]
    );
    assert_eq!(rollback_calls(MappingStage::Created, false), vec![CleanupCall::Release]);
    assert_eq!(
        rollback_calls(MappingStage::Mapped, false),
        vec![CleanupCall::Unmap, CleanupCall::Release]
    );
    assert!(rollback_calls(MappingStage::Reserved, false).is_empty());
}
