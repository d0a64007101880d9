//! Invocations, calls, yields and resumption.
use std::sync::Arc;

use javm::cache::CacheDirectory;
use javm::callstack::{Entry, EntryStatus};
use javm::cap::{
    CNodeCap, Cap, CapHashOrRef, EndpointDef, ImageCap, InstanceCap, MemoryMapping, Overlay,
    SlotIdx, SlotPath, NUM_REGS, PAGE_SIZE,
};
use javm::ecall::host_op;
use javm::error::VmError;
use javm::exec::{compose_entry_regs, EcallKind, ExitReason, GasCounter};
use javm::hash::{Blake2b256, CapHash};
use javm::kernel_assist::{kernel_image_hash, InProcessKernelAssist, KernelAssist, KernelImage};
use javm::mem::Mem;
use javm::vm::{CallResult, DriveStep, RunOutcome, RunRequest, Vm};

type Directory = CacheDirectory<fn(&Cap) -> CapHash>;

fn content_hash(cap: &Cap) -> CapHash {
    Blake2b256::hash(format!("{:?}", cap).as_bytes())
}

fn directory() -> Directory {
    CacheDirectory::new(content_hash as fn(&Cap) -> CapHash)
}

fn image_with_code(code: Vec<u8>) -> ImageCap {
    ImageCap {
        code,
        code_base: 0,
        endpoints: vec![EndpointDef { entry_pc: 0, initial_regs: [0; NUM_REGS] }],
        mappings: Vec::new(),
        pinned: Vec::new(),
        initial: Vec::new(),
        yield_marker_slot: None,
    }
}

fn publish_instance(cache: &mut Directory, image: ImageCap) -> CapHash {
    let image_hash = cache.put_cap(Cap::Image(image)).unwrap();
    let cnode_hash = cache.put_cap(Cap::CNode(CNodeCap::new(8).unwrap())).unwrap();
    cache
        .put_cap(Cap::Instance(InstanceCap {
            image_hash_chain: [0xAA; 32],
            image_hash,
            root_cnode: CapHashOrRef::Hash(cnode_hash),
            rw_overlays: Vec::new(),
            mem_size: 0,
            regs: [0u64; NUM_REGS],
            pc: 0,
            gas_remaining: 0,
        }))
        .unwrap()
}

fn outcome(run: RunRequest, exit: ExitReason, gas_left: u64) -> RunOutcome {
    RunOutcome {
        position: run.position,
        exit,
        regs: run.regs,
        mem: run.mem,
        gas: GasCounter::new(gas_left),
        gas_initial: run.gas_initial,
    }
}

fn done(step: DriveStep) -> CallResult {
    match step {
        DriveStep::Done(result) => result,
        DriveStep::Run(_) => panic!("expected the invocation to be over"),
    }
}

fn next(step: DriveStep) -> RunRequest {
    match step {
        DriveStep::Run(request) => request,
        DriveStep::Done(_) => panic!("expected another run"),
    }
}

#[test]
fn new_constructs_empty_vm() {
    let vm = Vm::new(InProcessKernelAssist::new());
    assert!(vm.stack.is_empty());
    assert!(vm.image_cache.is_empty());
}

#[test]
fn invoke_cached_trap_returns_faulted() {
    let mut cache = directory();
    let inst_hash = publish_instance(&mut cache, image_with_code(vec![0u8]));
    let mut vm = Vm::new(InProcessKernelAssist::new());
    let run = vm.begin_invoke(&cache, inst_hash, 0, [0; 4], 1000).unwrap();
    let end = outcome(run, ExitReason::Trap, 999);
    let r = done(vm.drive_and_translate(&mut cache, 0, end).unwrap());
    assert!(matches!(r, CallResult::Faulted { reason: ExitReason::Trap, .. }));
    assert!(vm.stack.is_empty());
}

#[test]
fn invoke_cached_ecalli_zero_halts() {
    let mut cache = directory();
    let inst_hash = publish_instance(&mut cache, image_with_code(vec![10u8, 0]));
    let mut vm = Vm::new(InProcessKernelAssist::new());
    let run = vm.begin_invoke(&cache, inst_hash, 0, [0; 4], 1000).unwrap();
    let end = outcome(run, ExitReason::Halt, 999);
    let r = done(vm.drive_and_translate(&mut cache, 0, end).unwrap());
    assert!(matches!(r, CallResult::Halt { return_value: 0, .. }));
    assert!(vm.stack.is_empty());
}

#[test]
fn invoke_cached_load_imm_then_reply() {
    let code = vec![20u8, 7, 42, 0, 0, 0, 0, 0, 0, 0, 10, 0];
    let mut cache = directory();
    let inst_hash = publish_instance(&mut cache, image_with_code(code.clone()));
    let mut vm = Vm::new(InProcessKernelAssist::new());
    let run = vm.begin_invoke(&cache, inst_hash, 0, [0; 4], 1000).unwrap();
    assert_eq!(run.program.code, code);
    assert_eq!(run.gas.remaining(), 1000);
    let mut end = outcome(run, ExitReason::Halt, 998);
    end.regs.gpr[7] = 42;
    match done(vm.drive_and_translate(&mut cache, 0, end).unwrap()) {
        CallResult::Halt { return_value, gas_used, .. } => {
            assert_eq!(return_value, 42);
            assert!(gas_used > 0);
            assert_eq!(gas_used, 2);
        }
        other => panic!("expected Halt, got {:?}", other),
    }
}

#[test]
fn invoke_cached_oog_returns_faulted() {
    let mut cache = directory();
    let inst_hash = publish_instance(&mut cache, image_with_code(vec![1u8; 50]));
    let mut vm = Vm::new(InProcessKernelAssist::new());
    let run = vm.begin_invoke(&cache, inst_hash, 0, [0; 4], 3).unwrap();
    let end = outcome(run, ExitReason::OutOfGas, 0);
    let r = done(vm.drive_and_translate(&mut cache, 0, end).unwrap());
    assert!(matches!(r, CallResult::Faulted { reason: ExitReason::OutOfGas, .. }));
}

#[test]
fn halted_instance_is_published_as_it_was_left() {
    let mut cache = directory();
    let inst_hash = publish_instance(&mut cache, image_with_code(vec![10u8, 0]));
    let mut vm = Vm::new(InProcessKernelAssist::new());
    let run = vm.begin_invoke(&cache, inst_hash, 0, [5, 6, 7, 8], 1000).unwrap();
    assert_eq!(run.regs.gpr[7..11], [5, 6, 7, 8]);
    vm.stack
        .running_instance_mut()
        .unwrap()
        .root_cnode
        .set(SlotIdx(0), Some(CapHashOrRef::Hash([3; 32])))
        .unwrap();
    let mut end = outcome(run, ExitReason::Halt, 10);
    end.regs.gpr[3] = 77;
    match done(vm.drive_and_translate(&mut cache, 0, end).unwrap()) {
        CallResult::Halt { post_instance_hash, reflected_slot0, gas_used, .. } => {
            assert_eq!(reflected_slot0, Some(CapHashOrRef::Hash([3; 32])));
            assert_eq!(gas_used, 990);
            match cache.get(CapHashOrRef::Hash(post_instance_hash)) {
                Some(Cap::Instance(i)) => {
                    assert_eq!(i.image_hash_chain, [0xAA; 32]);
                    assert_eq!(i.regs[3], 77);
                }
                _ => panic!("expected an instance"),
            }
        }
        other => panic!("expected Halt, got {:?}", other),
    }
}

#[test]
fn missing_caps_are_reported() {
    let mut cache = directory();
    let mut vm = Vm::new(InProcessKernelAssist::new());
    assert!(matches!(
        vm.begin_invoke(&cache, [9; 32], 0, [0; 4], 1),
        Err(VmError::InstanceNotFound)
    ));
    let orphan = cache
        .put_cap(Cap::Instance(InstanceCap {
            image_hash_chain: [0xAA; 32],
            image_hash: [8; 32],
            root_cnode: CapHashOrRef::Hash([7; 32]),
            rw_overlays: Vec::new(),
            mem_size: 0,
            regs: [0u64; NUM_REGS],
            pc: 0,
            gas_remaining: 0,
        }))
        .unwrap();
    assert!(matches!(
        vm.begin_invoke(&cache, orphan, 0, [0; 4], 1),
        Err(VmError::ImageNotFound)
    ));
    assert!(vm.stack.is_empty());
}

#[test]
fn full_stack_refuses_an_invocation() {
    let mut cache = directory();
    let inst_hash = publish_instance(&mut cache, image_with_code(vec![0]));
    let mut vm = Vm::with_max_depth(InProcessKernelAssist::new(), 1);
    vm.begin_invoke(&cache, inst_hash, 0, [0; 4], 1).unwrap();
    assert!(matches!(
        vm.begin_invoke(&cache, inst_hash, 0, [0; 4], 1),
        Err(VmError::CallStackFull)
    ));
}

#[test]
fn entry_registers_are_composed_in_order() {
    let mut initial = [0u64; NUM_REGS];
    initial[2] = 11;
    initial[3] = 12;
    initial[7] = 13;
    let mut persisted = [0u64; NUM_REGS];
    persisted[3] = 22;
    persisted[8] = 23;
    let regs = compose_entry_regs(64, &initial, &persisted, &[1, 2, 3, 4]);
    assert_eq!(regs.pc, 64);
    assert_eq!(regs.gpr, [0, 0, 11, 22, 0, 0, 0, 1, 2, 3, 4, 0, 0, 0, 0]);
}

#[test]
fn endpoint_memory_and_overlays_are_set_up() {
    let mut cache = directory();
    let mut image = image_with_code(vec![0u8; 4]);
    let mut regs = [0u64; NUM_REGS];
    regs[1] = 9;
    image.endpoints = vec![
        EndpointDef { entry_pc: 0, initial_regs: [0; NUM_REGS] },
        EndpointDef { entry_pc: 2, initial_regs: regs },
    ];
    image.mappings = vec![MemoryMapping { start: 0x1_0000, size: PAGE_SIZE, source_path: Vec::new() }];
    let image_hash = cache.put_cap(Cap::Image(image)).unwrap();
    let cnode_hash = cache.put_cap(Cap::CNode(CNodeCap::new(8).unwrap())).unwrap();
    let inst_hash = cache
        .put_cap(Cap::Instance(InstanceCap {
            image_hash_chain: [0xAA; 32],
            image_hash,
            root_cnode: CapHashOrRef::Hash(cnode_hash),
            rw_overlays: vec![Overlay { start: 0x1_0000, bytes: vec![1, 2, 3] }],
            mem_size: 0,
            regs: [0u64; NUM_REGS],
            pc: 0,
            gas_remaining: 0,
        }))
        .unwrap();
    let mut vm = Vm::new(InProcessKernelAssist::new());
    let run = vm.begin_invoke(&cache, inst_hash, 1, [0; 4], 10).unwrap();
    assert_eq!(run.regs.pc, 2);
    assert_eq!(run.regs.gpr[1], 9);
    assert_eq!(run.mem.read(0x1_0000, 5).unwrap(), vec![1, 2, 3, 0, 0]);
    assert!(run.mem.read(0x3_0000, 1).is_err());
}

/// A caller with one callee in slot 9.
fn calling() -> (Vm<InProcessKernelAssist>, Directory, RunRequest) {
    let mut cache = directory();
    let caller = publish_instance(&mut cache, image_with_code(vec![1]));
    let callee = publish_instance(&mut cache, image_with_code(vec![2]));
    let mut vm = Vm::new(InProcessKernelAssist::new());
    let run = vm.begin_invoke(&cache, caller, 0, [0; 4], 1000).unwrap();
    vm.stack
        .running_instance_mut()
        .unwrap()
        .root_cnode
        .set(SlotIdx(9), Some(CapHashOrRef::Hash(callee)))
        .unwrap();
    (vm, cache, run)
}

#[test]
fn reply_of_a_callee_resumes_its_caller() {
    let (mut vm, mut cache, mut run) = calling();
    run.regs.gpr[7] = 9;
    run.regs.gpr[8] = 0;
    run.regs.gpr[5] = 55;
    let mut mem = Mem::new();
    vm.handle_cached(EcallKind::Ecalli(host_op::HOST_CALL), &mut run.regs, &mut mem, &mut cache);
    let before = run.regs;
    let call = outcome(run, ExitReason::HostCall(host_op::HOST_CALL), 900);
    let callee = next(vm.drive_and_translate(&mut cache, 0, call).unwrap());
    assert_eq!(callee.position, 1);
    assert_eq!(callee.program.code, vec![2]);
    assert_eq!(callee.gas.remaining(), 900);
    let reply = outcome(callee, ExitReason::Halt, 800);
    let back = next(vm.drive_and_translate(&mut cache, 0, reply).unwrap());
    assert_eq!(back.position, 0);
    assert_eq!(back.regs.gpr, before.gpr);
    assert_eq!(back.gas.remaining(), 800);
    assert_eq!(vm.stack.len(), 1);
    vm.stack.enforce_invariants().unwrap();
}

#[test]
fn running_out_of_gas_goes_to_the_nearest_catcher() {
    let (mut vm, mut cache, mut run) = calling();
    let catcher = vm.kernel_assist.yield_catcher_new();
    let marker = kernel_image_hash(KernelImage::OogMarker);
    vm.kernel_assist.yield_catcher_add(catcher, marker);
    {
        let caller = vm.stack.running_instance_mut().unwrap();
        caller.yield_marker_slot = Some(SlotIdx(6));
        caller.root_cnode.set(SlotIdx(6), Some(CapHashOrRef::Hash(catcher))).unwrap();
    }
    assert_eq!(vm.find_catcher(&marker, 1), Some(0));
    assert_eq!(vm.find_catcher(&[1; 32], 1), None);
    run.regs.gpr[7] = 9;
    let mut mem = Mem::new();
    vm.handle_cached(EcallKind::Ecalli(host_op::HOST_CALL), &mut run.regs, &mut mem, &mut cache);
    let call = outcome(run, ExitReason::HostCall(host_op::HOST_CALL), 900);
    let callee = next(vm.drive_and_translate(&mut cache, 0, call).unwrap());
    let mut oog = outcome(callee, ExitReason::OutOfGas, 0);
    oog.regs.gpr[4] = 44;
    match done(vm.drive_and_translate(&mut cache, 0, oog).unwrap()) {
        CallResult::Paused { marker_payload, .. } => {
            assert_eq!(marker_payload, Some(CapHashOrRef::Hash(marker)));
        }
        other => panic!("expected Paused, got {:?}", other),
    }
    assert_eq!(vm.stack.len(), 3);
    assert!(matches!(&vm.stack.entries()[2], Entry::Reference(r) if r.target_position == 0));
    let resumed = vm.call_resume(Some(CapHashOrRef::Hash([6; 32]))).unwrap();
    assert_eq!(resumed.position, 1);
    assert_eq!(resumed.regs.gpr[4], 44);
    assert_eq!(resumed.program.code, vec![2]);
    let top = vm.stack.running_instance().unwrap();
    assert_eq!(top.status, EntryStatus::Running);
    assert_eq!(top.root_cnode.get(SlotIdx(0)), Some(CapHashOrRef::Hash([6; 32])));
}

#[test]
fn resuming_without_a_yield_is_refused() {
    let (mut vm, _cache, run) = calling();
    assert!(Arc::strong_count(&run.program) > 0);
    assert!(matches!(vm.call_resume(None), Err(VmError::Invariant(_))));
    assert!(matches!(
        vm.drop_paused(SlotPath::root(SlotIdx(1))),
        Err(VmError::Invariant(_))
    ));
}

#[test]
fn endpoint_past_the_last_is_reported() {
    let mut cache = directory();
    let inst_hash = publish_instance(&mut cache, image_with_code(vec![0]));
    let mut vm = Vm::new(InProcessKernelAssist::new());
    assert!(matches!(
        vm.begin_invoke(&cache, inst_hash, 1, [0; 4], 1),
        Err(VmError::Invariant("endpoint index out of range"))
    ));
    assert!(vm.stack.is_empty());
}
