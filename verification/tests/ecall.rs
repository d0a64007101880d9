//! Environment calls.
use std::sync::Arc;

use javm::cache::CacheDirectory;
use javm::callstack::{Entry, EntryStatus, InstanceEntry};
use javm::cap::{
    CNodeCap, Cap, CapHashOrRef, CapRef, DataCap, DataContent, EndpointDef, ImageCap, InstanceCap,
    PageSlot, SlotCap, SlotIdx, TypeCap, NUM_REGS, PAGE_SIZE,
};
use javm::ecall::cached::data_cap_prefix;
use javm::ecall::{host_op, mgmt_op};
use javm::error::{CacheError, CapError, OpError, VmError};
use javm::exec::{EcallKind, EcallResult, ExitReason, GasCounter, Program, Regs};
use javm::hash::{Blake2b256, CapHash};
use javm::kernel_assist::{InProcessKernelAssist, KernelAssist};
use javm::mem::{Access, Mem};
use javm::vm::Vm;

type Directory = CacheDirectory<fn(&Cap) -> CapHash>;

fn content_hash(cap: &Cap) -> CapHash {
    Blake2b256::hash(format!("{:?}", cap).as_bytes())
}

fn directory() -> Directory {
    CacheDirectory::new(content_hash as fn(&Cap) -> CapHash)
}

fn fixture_vm() -> Vm<InProcessKernelAssist> {
    let mut vm = Vm::new(InProcessKernelAssist::new());
    let mut cnode = CNodeCap::new(4).unwrap();
    cnode.set(SlotIdx(2), Some(CapHashOrRef::Hash([0xAA; 32]))).unwrap();
    let prog = Arc::new(Program::new(vec![0x0B, 0x00, 0x00, 0x00], 0));
    let entry = InstanceEntry {
        instance_ref: CapHashOrRef::Hash([1u8; 32]),
        image_hash_chain: [1u8; 32],
        image_hash: [2u8; 32],
        program: prog,
        root_cnode: cnode,
        yield_marker_slot: None,
        pinned_slots: Vec::new(),
        regs: Regs::new(),
        mem: Mem::new(),
        gas: GasCounter::new(1000),
        status: EntryStatus::Waiting,
    };
    vm.stack.push_instance(entry).unwrap();
    vm
}

fn handle_cached(
    vm: &mut Vm<InProcessKernelAssist>,
    cache: &mut Directory,
    op: u32,
    regs: &mut Regs,
    mem: &mut Mem,
) -> EcallResult {
    vm.handle_cached(EcallKind::Ecalli(op), regs, mem, cache)
}

fn handle(vm: &mut Vm<InProcessKernelAssist>, kind: EcallKind, regs: &mut Regs) -> EcallResult {
    vm.handle(kind, regs, &content_hash)
}

fn slot(vm: &Vm<InProcessKernelAssist>, idx: u32) -> Option<CapHashOrRef> {
    vm.stack.running_instance().unwrap().root_cnode.get(SlotIdx(idx))
}

fn set_slot(vm: &mut Vm<InProcessKernelAssist>, idx: u32, target: CapHashOrRef) {
    vm.stack.running_instance_mut().unwrap().root_cnode.set(SlotIdx(idx), Some(target)).unwrap();
}

fn data_inline(bytes: &[u8]) -> Cap {
    let page = PAGE_SIZE as usize;
    let mut padded = bytes.to_vec();
    padded.resize((bytes.len() + page - 1) / page * page, 0);
    Cap::Data(DataCap { content: DataContent::Inline(padded) })
}

fn publish_data_inline(cache: &mut Directory, bytes: &[u8]) -> CapHash {
    cache.put_cap(data_inline(bytes)).unwrap()
}

fn image(code: Vec<u8>) -> Cap {
    Cap::Image(ImageCap {
        code,
        code_base: 0,
        endpoints: vec![EndpointDef { entry_pc: 0, initial_regs: [0; NUM_REGS] }],
        mappings: Vec::new(),
        pinned: Vec::new(),
        initial: Vec::new(),
        yield_marker_slot: None,
    })
}

fn instance(chain: CapHash, image_hash: CapHash, cnode_hash: CapHash) -> Cap {
    Cap::Instance(InstanceCap {
        image_hash_chain: chain,
        image_hash,
        root_cnode: CapHashOrRef::Hash(cnode_hash),
        rw_overlays: Vec::new(),
        mem_size: 0,
        regs: [0u64; NUM_REGS],
        pc: 0,
        gas_remaining: 0,
    })
}

fn empty_cnode(size_log: u8) -> Cap {
    Cap::CNode(CNodeCap::new(size_log).unwrap())
}

#[test]
fn mgmt_copy_dispatch_via_ecalli() {
    let mut vm = fixture_vm();
    let mut regs = Regs::new();
    regs.gpr[7] = 2;
    regs.gpr[8] = 7;
    let r = handle(&mut vm, EcallKind::Ecalli(mgmt_op::COPY), &mut regs);
    assert!(matches!(r, EcallResult::Continue));
    assert!(slot(&vm, 2).is_some());
    assert!(slot(&vm, 7).is_some());
}

#[test]
fn mgmt_move_dispatch_via_ecalli() {
    let mut vm = fixture_vm();
    let mut regs = Regs::new();
    regs.gpr[7] = 2;
    regs.gpr[8] = 9;
    let r = handle(&mut vm, EcallKind::Ecalli(mgmt_op::MOVE), &mut regs);
    assert!(matches!(r, EcallResult::Continue));
    assert!(slot(&vm, 2).is_none());
    assert!(slot(&vm, 9).is_some());
}

#[test]
fn mgmt_drop_dispatch_via_ecalli() {
    let mut vm = fixture_vm();
    let mut regs = Regs::new();
    regs.gpr[7] = 2;
    let r = handle(&mut vm, EcallKind::Ecalli(mgmt_op::DROP), &mut regs);
    assert!(matches!(r, EcallResult::Continue));
    assert!(slot(&vm, 2).is_none());
}

#[test]
fn mgmt_cnode_mint_places_hash_at_dst() {
    let mut vm = fixture_vm();
    let mut regs = Regs::new();
    regs.gpr[7] = 5;
    regs.gpr[8] = 3;
    let r = handle(&mut vm, EcallKind::Ecalli(mgmt_op::CNODE_MINT), &mut regs);
    assert!(matches!(r, EcallResult::Continue));
    assert!(matches!(slot(&vm, 5), Some(CapHashOrRef::Hash(_))));
}

#[test]
fn mgmt_cnode_mint_publishes_cnode_when_cache_threaded() {
    let mut vm = fixture_vm();
    let mut cache = directory();
    let mut regs = Regs::new();
    regs.gpr[7] = 5;
    regs.gpr[8] = 3;
    let mut mem = Mem::new();
    let r = handle_cached(&mut vm, &mut cache, mgmt_op::CNODE_MINT, &mut regs, &mut mem);
    assert!(matches!(r, EcallResult::Continue));
    let target = slot(&vm, 5).unwrap();
    assert!(matches!(cache.get(target), Some(Cap::CNode(_))));
}

#[test]
fn mgmt_cnode_swap_swaps_slots() {
    let mut vm = fixture_vm();
    set_slot(&mut vm, 3, CapHashOrRef::Hash([0xBB; 32]));
    let mut regs = Regs::new();
    regs.gpr[7] = 2;
    regs.gpr[8] = 3;
    let r = handle(&mut vm, EcallKind::Ecalli(mgmt_op::CNODE_SWAP), &mut regs);
    assert!(matches!(r, EcallResult::Continue));
    assert_eq!(slot(&vm, 2).unwrap(), CapHashOrRef::Hash([0xBB; 32]));
    assert_eq!(slot(&vm, 3).unwrap(), CapHashOrRef::Hash([0xAA; 32]));
}

#[test]
fn mgmt_op_on_empty_stack_traps() {
    let mut vm: Vm<InProcessKernelAssist> = Vm::new(InProcessKernelAssist::new());
    let mut regs = Regs::new();
    let r = handle(&mut vm, EcallKind::Ecalli(mgmt_op::DROP), &mut regs);
    assert!(matches!(r, EcallResult::Exit(ExitReason::Trap)));
}

#[test]
fn ecalli_reply_zero_exits_halt() {
    let mut vm = fixture_vm();
    let mut regs = Regs::new();
    let r = handle(&mut vm, EcallKind::Ecalli(0), &mut regs);
    assert!(matches!(r, EcallResult::Exit(ExitReason::Halt)));
}

#[test]
fn plain_ecall_reads_op_from_phi11() {
    let mut vm = fixture_vm();
    let mut regs = Regs::new();
    regs.gpr[11] = mgmt_op::DROP as u64;
    regs.gpr[7] = 2;
    let r = handle(&mut vm, EcallKind::Ecall, &mut regs);
    assert!(matches!(r, EcallResult::Continue));
    assert!(slot(&vm, 2).is_none());
}

#[test]
fn unknown_op_continues_silently() {
    let mut vm = fixture_vm();
    let mut regs = Regs::new();
    let r = handle(&mut vm, EcallKind::Ecalli(999), &mut regs);
    assert!(matches!(r, EcallResult::Continue));
}

#[test]
fn set_image_extends_chain_hash() {
    let mut vm = fixture_vm();
    let original_chain = vm.stack.running_instance().unwrap().image_hash_chain;
    let mut regs = Regs::new();
    regs.gpr[7] = 2;
    let r = handle(&mut vm, EcallKind::Ecalli(host_op::SET_IMAGE), &mut regs);
    assert!(matches!(r, EcallResult::Continue));
    let new_chain = vm.stack.running_instance().unwrap().image_hash_chain;
    assert_ne!(original_chain, new_chain);
    assert_eq!(new_chain, Blake2b256::hash_pair(&original_chain, &[0xAA; 32]));
}

#[test]
fn set_image_reloads_program_from_cache() {
    let mut vm = fixture_vm();
    let mut cache = directory();
    let image_hash = cache.put_cap(image(0x0000_200Bu32.to_le_bytes().to_vec())).unwrap();
    set_slot(&mut vm, 3, CapHashOrRef::Hash(image_hash));

    let mut regs = Regs::new();
    regs.gpr[7] = 3;
    let mut mem = Mem::new();
    let r = handle_cached(&mut vm, &mut cache, host_op::SET_IMAGE, &mut regs, &mut mem);
    assert!(matches!(r, EcallResult::Exit(ExitReason::HostCall(op)) if op == host_op::SET_IMAGE));
    let running = vm.stack.running_instance().unwrap();
    assert_eq!(running.image_hash, image_hash);
    assert_eq!(running.program.code, 0x0000_200Bu32.to_le_bytes().to_vec());
}

#[test]
fn derive_spawn_mints_extended_chain_target() {
    let mut vm = fixture_vm();
    let parent_chain = vm.stack.running_instance().unwrap().image_hash_chain;
    let mut regs = Regs::new();
    regs.gpr[7] = 2;
    regs.gpr[8] = 5;
    let r = handle(&mut vm, EcallKind::Ecalli(host_op::DERIVE_SPAWN), &mut regs);
    assert!(matches!(r, EcallResult::Continue));
    match slot(&vm, 5).unwrap() {
        CapHashOrRef::Hash(h) => assert_ne!(h, parent_chain),
        _ => panic!("expected Hash form at dst"),
    }
}

#[test]
fn host_same_type_compares_chain() {
    let mut vm = fixture_vm();
    set_slot(&mut vm, 3, CapHashOrRef::Hash([0xAA; 32]));
    set_slot(&mut vm, 4, CapHashOrRef::Hash([0x99; 32]));
    let mut regs = Regs::new();
    regs.gpr[7] = 2;
    regs.gpr[8] = 3;
    let r = handle(&mut vm, EcallKind::Ecalli(host_op::HOST_SAME_TYPE), &mut regs);
    assert!(matches!(r, EcallResult::Continue));
    assert_eq!(regs.gpr[7], 1);

    regs.gpr[7] = 2;
    regs.gpr[8] = 4;
    let r = handle(&mut vm, EcallKind::Ecalli(host_op::HOST_SAME_TYPE), &mut regs);
    assert!(matches!(r, EcallResult::Continue));
    assert_eq!(regs.gpr[7], 0);
}

#[test]
fn host_type_of_publishes_type_cap() {
    let mut vm = fixture_vm();
    let mut cache = directory();
    let image_hash = cache.put_cap(image(Vec::new())).unwrap();
    let cnode_hash = cache.put_cap(empty_cnode(0)).unwrap();
    let inst_hash = cache.put_cap(instance([0x42; 32], image_hash, cnode_hash)).unwrap();
    set_slot(&mut vm, 3, CapHashOrRef::Hash(inst_hash));

    let mut regs = Regs::new();
    regs.gpr[7] = 3;
    regs.gpr[8] = 6;
    let mut mem = Mem::new();
    let r = handle_cached(&mut vm, &mut cache, host_op::HOST_TYPE_OF, &mut regs, &mut mem);
    assert!(matches!(r, EcallResult::Continue));
    let target = slot(&vm, 6).unwrap();
    assert!(matches!(
        cache.get(target),
        Some(Cap::Type(TypeCap { image_hash_chain })) if *image_hash_chain == [0x42; 32]
    ));
}

#[test]
fn host_read_data_cap_copies_bytes_from_cache() {
    let mut vm = fixture_vm();
    let mut cache = directory();
    let data_hash = publish_data_inline(&mut cache, b"hello");
    set_slot(&mut vm, 3, CapHashOrRef::Hash(data_hash));
    let mut mem = Mem::new();
    mem.map_region(0, PAGE_SIZE, Access::ReadWrite, None).unwrap();
    let mut regs = Regs::new();
    regs.gpr[7] = 3;
    regs.gpr[8] = 16;
    regs.gpr[9] = 8;

    let r = handle_cached(&mut vm, &mut cache, host_op::HOST_READ_DATA_CAP, &mut regs, &mut mem);
    assert!(matches!(r, EcallResult::Continue));
    assert_eq!(regs.gpr[7], 8);
    assert_eq!(mem.read(16, 8).unwrap(), b"hello\0\0\0");
}

#[test]
fn host_mint_data_cap_publishes_page_padded_bytes() {
    let mut vm = fixture_vm();
    let mut cache = directory();
    vm.kernel_assist.storage_quota_set(0, 8192);
    let mut mem = Mem::new();
    mem.map_region(0, PAGE_SIZE, Access::ReadWrite, None).unwrap();
    mem.write(32, b"abc\0\0").unwrap();
    let mut regs = Regs::new();
    regs.gpr[7] = 32;
    regs.gpr[8] = 5;
    regs.gpr[9] = 0;
    regs.gpr[10] = 6;

    let r = handle_cached(&mut vm, &mut cache, host_op::HOST_MINT_DATA_CAP, &mut regs, &mut mem);
    assert!(matches!(r, EcallResult::Continue));
    assert_eq!(vm.kernel_assist.storage_quota_get(0), 4096);
    let target = slot(&vm, 6).unwrap();
    match cache.get(target).unwrap() {
        Cap::Data(d) => {
            assert_eq!(d.content_len(), PAGE_SIZE);
            assert_eq!(data_cap_prefix(d, 5), b"abc\0\0");
        }
        _ => panic!("expected Data cap"),
    }
}

#[test]
fn host_open_places_registered_file_data_in_slot() {
    let mut vm = fixture_vm();
    let mut cache = directory();
    let data_hash = publish_data_inline(&mut cache, b"file");
    vm.kernel_assist.register_file(9, CapHashOrRef::Hash(data_hash));
    let mut regs = Regs::new();
    regs.gpr[7] = 9;
    regs.gpr[8] = 6;
    let mut mem = Mem::new();
    let r = handle_cached(&mut vm, &mut cache, host_op::HOST_OPEN, &mut regs, &mut mem);
    assert!(matches!(r, EcallResult::Continue));
    let target = slot(&vm, 6).unwrap();
    assert!(matches!(cache.get(target), Some(Cap::Data(_))));
}

#[test]
fn host_save_debits_actual_data_size_and_returns_file_id() {
    let mut vm = fixture_vm();
    let mut cache = directory();
    let data_hash = publish_data_inline(&mut cache, b"stored");
    vm.kernel_assist.storage_quota_set(0, 8192);
    set_slot(&mut vm, 3, CapHashOrRef::Hash(data_hash));
    let mut regs = Regs::new();
    regs.gpr[7] = 3;
    regs.gpr[8] = 0;
    let mut mem = Mem::new();
    let r = handle_cached(&mut vm, &mut cache, host_op::HOST_SAVE, &mut regs, &mut mem);
    assert!(matches!(r, EcallResult::Continue));
    assert_eq!(regs.gpr[7], 1);
    assert_eq!(vm.kernel_assist.storage_quota_get(0), 4096);
    assert_eq!(vm.kernel_assist.host_open(1), Some(CapHashOrRef::Hash(data_hash)));
}

#[test]
fn a_saved_file_opens_into_another_slot() {
    let mut vm = fixture_vm();
    let mut cache = directory();
    let data = CapHashOrRef::Hash(publish_data_inline(&mut cache, b"kept"));
    vm.kernel_assist.storage_quota_set(2, 4096);
    set_slot(&mut vm, 3, data);
    let mut regs = Regs::new();
    regs.gpr[7] = 3;
    regs.gpr[8] = 2;
    let mut mem = Mem::new();
    let r = handle_cached(&mut vm, &mut cache, host_op::HOST_SAVE, &mut regs, &mut mem);
    assert!(matches!(r, EcallResult::Continue));
    regs.gpr[8] = 6;
    let r = handle_cached(&mut vm, &mut cache, host_op::HOST_OPEN, &mut regs, &mut mem);
    assert!(matches!(r, EcallResult::Continue));
    assert_eq!(slot(&vm, 6), Some(data));
    regs.gpr[7] = 3;
    regs.gpr[8] = 2;
    let r = handle_cached(&mut vm, &mut cache, host_op::HOST_SAVE, &mut regs, &mut mem);
    assert!(matches!(r, EcallResult::Exit(ExitReason::Trap)));
    regs.gpr[7] = 77;
    let r = handle_cached(&mut vm, &mut cache, host_op::HOST_OPEN, &mut regs, &mut mem);
    assert!(matches!(r, EcallResult::Exit(ExitReason::Trap)));
}

#[test]
fn make_image_stubbed_traps() {
    let mut vm = fixture_vm();
    let mut regs = Regs::new();
    let r = handle(&mut vm, EcallKind::Ecalli(host_op::MAKE_IMAGE), &mut regs);
    assert!(matches!(r, EcallResult::Exit(ExitReason::Trap)));
}

#[test]
fn cache_dependent_host_calls_without_cache_still_trap() {
    for op in [
        host_op::HOST_TYPE_OF,
        host_op::HOST_READ_DATA_CAP,
        host_op::HOST_MINT_DATA_CAP,
        host_op::HOST_OPEN,
        host_op::HOST_SAVE,
        host_op::HOST_CALL,
    ] {
        let mut vm = fixture_vm();
        let mut regs = Regs::new();
        let r = handle(&mut vm, EcallKind::Ecalli(op), &mut regs);
        assert!(
            matches!(r, EcallResult::Exit(ExitReason::Trap)),
            "op {} should trap (cache-dependent host call)",
            op
        );
    }
}

#[test]
fn derive_spawn_cached_publishes_child_instance() {
    let mut vm = fixture_vm();
    let mut cache = directory();
    let image_hash = cache.put_cap(image(0x0000_200Bu32.to_le_bytes().to_vec())).unwrap();
    let prep_cnode_hash = cache.put_cap(empty_cnode(4)).unwrap();
    let parent_chain = [0xC1; 32];
    vm.stack.running_instance_mut().unwrap().image_hash_chain = parent_chain;
    set_slot(&mut vm, 3, CapHashOrRef::Hash(image_hash));
    set_slot(&mut vm, 4, CapHashOrRef::Hash(prep_cnode_hash));

    let mut regs = Regs::new();
    regs.gpr[7] = 3;
    regs.gpr[8] = 4;
    regs.gpr[9] = 7;
    let mut mem = Mem::new();
    let r = handle_cached(&mut vm, &mut cache, host_op::DERIVE_SPAWN, &mut regs, &mut mem);
    assert!(matches!(r, EcallResult::Continue), "got {:?}", r);

    let new_target = slot(&vm, 7).expect("dst slot populated");
    let new_instance_hash = match new_target {
        CapHashOrRef::Hash(h) => h,
        _ => panic!("expected Hash target"),
    };
    let cap = cache.get(new_target).expect("instance in cache");
    let inst = match cap {
        Cap::Instance(i) => i,
        _ => panic!("expected Cap::Instance"),
    };
    let expected_chain = Blake2b256::hash_pair(&parent_chain, &image_hash);
    assert_eq!(inst.image_hash_chain, expected_chain);
    assert_eq!(inst.image_hash, image_hash);
    assert!(matches!(inst.root_cnode, CapHashOrRef::Hash(_)));
    assert!(slot(&vm, 4).is_none());
    assert_eq!(new_instance_hash, content_hash(cap));
}

#[test]
fn host_call_cached_pushes_child_and_moves_slot0() {
    let mut vm = fixture_vm();
    let mut cache = directory();
    let image_hash = cache.put_cap(image(0x0000_200Bu32.to_le_bytes().to_vec())).unwrap();
    let cnode_hash = cache.put_cap(empty_cnode(4)).unwrap();
    let child_instance_hash = cache.put_cap(instance([0xCC; 32], image_hash, cnode_hash)).unwrap();
    let marker_hash = [0xAB; 32];
    set_slot(&mut vm, 9, CapHashOrRef::Hash(child_instance_hash));
    set_slot(&mut vm, 0, CapHashOrRef::Hash(marker_hash));

    let mut regs = Regs::new();
    regs.gpr[7] = 9;
    regs.gpr[8] = 0;
    let mut mem = Mem::new();
    let r = handle_cached(&mut vm, &mut cache, host_op::HOST_CALL, &mut regs, &mut mem);
    assert!(
        matches!(r, EcallResult::Exit(ExitReason::HostCall(op)) if op == host_op::HOST_CALL),
        "got {:?}",
        r,
    );

    assert_eq!(vm.stack.len(), 2);
    assert_eq!(vm.stack.entries()[0].status(), EntryStatus::Waiting);
    assert_eq!(vm.stack.entries()[1].status(), EntryStatus::Running);
    let child = vm.stack.running_instance().unwrap();
    assert_eq!(child.image_hash, image_hash);
    assert_eq!(child.root_cnode.get(SlotIdx(0)), Some(CapHashOrRef::Hash(marker_hash)));
    let parent = match &vm.stack.entries()[0] {
        Entry::Instance(e) => e,
        _ => panic!("entry 0 not Instance"),
    };
    assert!(parent.root_cnode.get(SlotIdx(0)).is_none());
}

#[test]
fn pinned_slots_are_not_written() {
    let mut vm = fixture_vm();
    vm.stack.running_instance_mut().unwrap().pinned_slots = vec![SlotIdx(2), SlotIdx(5)];
    assert_eq!(
        vm.mgmt_drop(SlotIdx(2)),
        Err(VmError::Op(OpError::SlotPinned(2)))
    );
    assert_eq!(
        vm.mgmt_copy(SlotIdx(2), SlotIdx(5)),
        Err(VmError::Op(OpError::SlotPinned(5)))
    );
    assert_eq!(
        vm.mgmt_move(SlotIdx(2), SlotIdx(6)),
        Err(VmError::Op(OpError::SlotPinned(2)))
    );
    assert_eq!(slot(&vm, 2), Some(CapHashOrRef::Hash([0xAA; 32])));
    assert_eq!(slot(&vm, 5), None);
    assert_eq!(slot(&vm, 6), None);
}

#[test]
fn empty_sources_and_far_slots_are_refused() {
    let mut vm = fixture_vm();
    assert_eq!(
        vm.mgmt_copy(SlotIdx(3), SlotIdx(5)),
        Err(VmError::Op(OpError::SourceEmpty))
    );
    assert_eq!(
        vm.mgmt_copy(SlotIdx(2), SlotIdx(16)),
        Err(VmError::CapTable(CapError::SlotOutOfRange(16)))
    );
    let mut regs = Regs::new();
    regs.gpr[7] = 5;
    regs.gpr[8] = 9;
    let r = handle(&mut vm, EcallKind::Ecalli(mgmt_op::CNODE_MINT), &mut regs);
    assert_eq!(r, EcallResult::Exit(ExitReason::Trap));
}

#[test]
fn swapping_twice_changes_nothing() {
    let mut vm = fixture_vm();
    set_slot(&mut vm, 3, CapHashOrRef::Hash([0xBB; 32]));
    vm.mgmt_cnode_swap(SlotIdx(2), SlotIdx(3)).unwrap();
    vm.mgmt_cnode_swap(SlotIdx(2), SlotIdx(3)).unwrap();
    assert_eq!(slot(&vm, 2), Some(CapHashOrRef::Hash([0xAA; 32])));
    assert_eq!(slot(&vm, 3), Some(CapHashOrRef::Hash([0xBB; 32])));
    vm.mgmt_cnode_swap(SlotIdx(3), SlotIdx(8)).unwrap();
    assert_eq!(slot(&vm, 3), None);
    assert_eq!(slot(&vm, 8), Some(CapHashOrRef::Hash([0xBB; 32])));
}

#[test]
fn moving_is_copying_then_dropping() {
    let mut moved = fixture_vm();
    moved.mgmt_move(SlotIdx(2), SlotIdx(9)).unwrap();
    let mut copied = fixture_vm();
    copied.mgmt_copy(SlotIdx(2), SlotIdx(9)).unwrap();
    copied.mgmt_drop(SlotIdx(2)).unwrap();
    for i in 0..16 {
        assert_eq!(slot(&moved, i), slot(&copied, i));
    }
}

#[test]
fn minting_without_quota_traps_and_debits_nothing() {
    let mut vm = fixture_vm();
    let mut cache = directory();
    vm.kernel_assist.storage_quota_set(0, 4095);
    let mut mem = Mem::new();
    mem.map_region(0, PAGE_SIZE, Access::ReadWrite, None).unwrap();
    let mut regs = Regs::new();
    regs.gpr[8] = 5;
    regs.gpr[10] = 6;
    let r = handle_cached(&mut vm, &mut cache, host_op::HOST_MINT_DATA_CAP, &mut regs, &mut mem);
    assert_eq!(r, EcallResult::Exit(ExitReason::Trap));
    assert_eq!(vm.kernel_assist.storage_quota_get(0), 4095);
    assert_eq!(slot(&vm, 6), None);
}

#[test]
fn spawned_child_has_the_pinned_caps_of_its_image() {
    let mut vm = fixture_vm();
    let mut cache = directory();
    let pinned_hash = publish_data_inline(&mut cache, b"pinned");
    let image_hash = cache
        .put_cap(Cap::Image(ImageCap {
            code: Vec::new(),
            code_base: 0,
            endpoints: Vec::new(),
            mappings: Vec::new(),
            pinned: vec![SlotCap { slot: SlotIdx(3), cap_hash: pinned_hash }],
            initial: Vec::new(),
            yield_marker_slot: None,
        }))
        .unwrap();
    let prepared_hash = cache.put_cap(empty_cnode(4)).unwrap();
    set_slot(&mut vm, 3, CapHashOrRef::Hash(image_hash));
    set_slot(&mut vm, 4, CapHashOrRef::Hash(prepared_hash));
    let mut regs = Regs::new();
    regs.gpr[7] = 3;
    regs.gpr[8] = 4;
    regs.gpr[9] = 7;
    let mut mem = Mem::new();
    let r = handle_cached(&mut vm, &mut cache, host_op::DERIVE_SPAWN, &mut regs, &mut mem);
    assert_eq!(r, EcallResult::Continue);
    let table = match cache.get(slot(&vm, 7).unwrap()) {
        Some(Cap::Instance(i)) => i.root_cnode,
        _ => panic!("expected an instance"),
    };
    match cache.get(table) {
        Some(Cap::CNode(cn)) => {
            assert_eq!(cn.get(SlotIdx(3)), Some(CapHashOrRef::Hash(pinned_hash)));
        }
        _ => panic!("expected a cnode"),
    }
}

#[test]
fn pages_that_are_not_loaded_read_as_zero() {
    let paged = DataCap {
        content: DataContent::Paged {
            page_size: 4,
            pages: vec![
                PageSlot::Loaded(vec![1, 2, 3, 4]),
                PageSlot::Missing,
                PageSlot::Loaded(vec![5, 6, 7, 8]),
            ],
        },
    };
    assert_eq!(paged.content_len(), 12);
    assert_eq!(data_cap_prefix(&paged, 10), vec![1, 2, 3, 4, 0, 0, 0, 0, 5, 6]);
    assert_eq!(data_cap_prefix(&paged, 100).len(), 12);
}

#[test]
fn published_caps_read_back_and_live_ones_are_refused() {
    let mut cache = directory();
    let h = cache.put_cap(empty_cnode(2)).unwrap();
    assert!(matches!(cache.get(CapHashOrRef::Hash(h)), Some(Cap::CNode(cn)) if cn.size_log == 2));
    assert!(cache.get(CapHashOrRef::Ref(CapRef(4))).is_none());
    let mut with_ref = CNodeCap::new(1).unwrap();
    with_ref.set(SlotIdx(0), Some(CapHashOrRef::Ref(CapRef(4)))).unwrap();
    assert_eq!(cache.put_cap(Cap::CNode(with_ref)), Err(CacheError::HasRef));
    assert_eq!(
        cache.settle(CapHashOrRef::Ref(CapRef(4))),
        Err(CacheError::UnknownRef(4))
    );
    cache.put_live(CapRef(4), empty_cnode(3));
    let settled = cache.settle(CapHashOrRef::Ref(CapRef(4))).unwrap();
    assert_eq!(settled, content_hash(&empty_cnode(3)));
}

#[test]
fn calling_an_endpoint_past_the_last_traps() {
    let mut vm = fixture_vm();
    let mut cache = directory();
    let image_hash = cache.put_cap(image(vec![0])).unwrap();
    let cnode_hash = cache.put_cap(empty_cnode(4)).unwrap();
    let callee = cache.put_cap(instance([0xCC; 32], image_hash, cnode_hash)).unwrap();
    set_slot(&mut vm, 9, CapHashOrRef::Hash(callee));
    let mut regs = Regs::new();
    regs.gpr[7] = 9;
    regs.gpr[8] = 1;
    let mut mem = Mem::new();
    let r = handle_cached(&mut vm, &mut cache, host_op::HOST_CALL, &mut regs, &mut mem);
    assert_eq!(r, EcallResult::Exit(ExitReason::Trap));
    assert_eq!(vm.stack.len(), 1);
}
