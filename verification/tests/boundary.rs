//! Packets, messages, requests, in-process runs, builds, and plain memory.
use std::sync::Arc;

use javm::abi::{BootInfo, InvocationResult, InvokePacket, FN_ID_TEST_SMOKE};
use javm::cap::{EndpointDef, NUM_REGS, PAGE_SIZE};
use javm::error::MapError;
use javm::exec::{ExitReason, GasCounter, Regs};
use javm::guest_build::{artifact_path, build_arguments, join, rustflags};
use javm::hash::CapHash;
use javm::kernel::caps::{
    DataMem, KernelImageCap, KernelMapping, Page, Role, WireCap, WireInstance, WireTarget,
};
use javm::kernel::key::Key;
use javm::local::{finish_run, local_memory, InvokeError, JavmLocal, LocalArch};
use javm::mem::{overlay_into, page_round_up_u64, Access, Mem, MemFault};
use javm::ring::{pop_shared_input_raw, RingError};
use javm::rpc::{dispatch_request, host_result, lookup, nub_smoke, Dispatch, Request, Response};
use rkyv::primitive::ArchivedU64;
use javm::table::HashTable;

const GAS_SLOT: u8 = 5;
const DATA_BASE: u32 = 0x1000_0000;

#[test]
fn packets_read_back_what_was_sent() {
    let packet = InvokePacket {
        instance_hash: [7; 32],
        endpoint_idx: 0x0102_0304,
        pad: 0,
        args: [1, 2, 3, u64::MAX],
        initial_gas: 500,
    };
    let bytes = packet.as_bytes();
    assert_eq!(bytes.len(), 80);
    assert_eq!(bytes[32..36], [4, 3, 2, 1]);
    let read = InvokePacket::from_bytes(&bytes).unwrap();
    assert_eq!(read.instance_hash, packet.instance_hash);
    assert_eq!(read.endpoint_idx, packet.endpoint_idx);
    assert_eq!(read.args, packet.args);
    assert_eq!(read.initial_gas, 500);
    assert!(InvokePacket::from_bytes(&bytes[..79]).is_none());
}

#[test]
fn boot_information_is_set_once() {
    let mut info = BootInfo::initial();
    assert_eq!(info.as_bytes().len(), 128);
    assert_eq!(info.as_bytes()[..8], 0x4A41_525F_424F_4F54u64.to_le_bytes());
    let mut initialised = false;
    info.init_directory_va(&mut initialised, 0x1234, 0x9000, 0x1000);
    info.init_directory_va(&mut initialised, 0x5678, 0xA000, 0x1000);
    assert_eq!((info.directory_va, info.guest_va_base), (0x1234, 0x8000));
    assert!(initialised);
}

/// A stack of 64 bytes with `messages` on it.
fn stack_with(messages: &[&[u8]]) -> Vec<u8> {
    let mut ring = vec![0u8; 64];
    let mut at = 8usize;
    for m in messages {
        ring[at..at + m.len()].copy_from_slice(m);
        let end = at + m.len();
        ring[end..end + 8].copy_from_slice(&(at as u64).to_le_bytes());
        at = end + 8;
    }
    ring[..8].copy_from_slice(&(at as u64).to_le_bytes());
    ring
}

#[test]
fn last_message_comes_off_first() {
    let mut ring = stack_with(&[b"one", b"second"]);
    assert_eq!(pop_shared_input_raw(&mut ring).unwrap(), b"second".to_vec());
    assert_eq!(ring, stack_with(&[b"one"]));
    assert_eq!(pop_shared_input_raw(&mut ring).unwrap(), b"one".to_vec());
    assert_eq!(ring, stack_with(&[]));
    assert_eq!(
        pop_shared_input_raw(&mut ring),
        Err(RingError::InvalidStackPointer { stack_ptr: 8 })
    );
}

#[test]
fn broken_stacks_are_refused() {
    assert_eq!(pop_shared_input_raw(&mut Vec::new()), Err(RingError::NoBuffer));
    let mut past_end = stack_with(&[b"one"]);
    past_end[..8].copy_from_slice(&65u64.to_le_bytes());
    assert_eq!(
        pop_shared_input_raw(&mut past_end),
        Err(RingError::InvalidStackPointer { stack_ptr: 65 })
    );
    let mut bad_back = stack_with(&[b"one"]);
    bad_back[11..19].copy_from_slice(&12u64.to_le_bytes());
    let before = bad_back.clone();
    assert_eq!(
        pop_shared_input_raw(&mut bad_back),
        Err(RingError::InvalidBackPointer { back_ptr: 12, stack_ptr: 19 })
    );
    assert_eq!(bad_back, before);
}

#[test]
fn requests_go_to_the_function_with_their_id() {
    let ids = vec![3, 7, 9];
    assert_eq!(lookup(&ids, 7), Some(1));
    assert_eq!(lookup(&ids, 8), None);
    match dispatch_request(&ids, Ok(Request { fn_id: 9, payload: vec![1, 2] })) {
        Dispatch::Call { index, payload } => assert_eq!((index, payload), (2, vec![1, 2])),
        Dispatch::Respond(_) => panic!("expected a call"),
    }
    match dispatch_request(&ids, Ok(Request { fn_id: 8, payload: vec![1, 2] })) {
        Dispatch::Respond(r) => {
            assert_eq!(r.status, 1);
            assert_eq!(r.error_msg.unwrap(), "fn_id not registered");
        }
        Dispatch::Call { .. } => panic!("expected a response"),
    }
    match dispatch_request(&ids, Err(format!("short"))) {
        Dispatch::Respond(r) => {
            assert_eq!(r.status, 2);
            assert_eq!(r.error_msg.unwrap(), "rkyv access Request: short");
        }
        Dispatch::Call { .. } => panic!("expected a response"),
    }
}

#[test]
fn test_bin_smoke_returns_42() {
    let request = Request { fn_id: FN_ID_TEST_SMOKE, payload: Vec::new() };
    let bytes = match dispatch_request(&vec![FN_ID_TEST_SMOKE], Ok(request)) {
        Dispatch::Call { index: 0, payload } => nub_smoke(&payload),
        _ => panic!("expected a call of the smoke function"),
    };
    let mut aligned = rkyv::util::AlignedVec::<16>::with_capacity(bytes.len());
    aligned.extend_from_slice(&bytes);
    let archived =
        rkyv::access::<ArchivedU64, rkyv::rancor::Error>(aligned.as_slice()).expect("rkyv access");
    assert_eq!(archived.to_native(), 42);
    assert_eq!(bytes, vec![42, 0, 0, 0, 0, 0, 0, 0]);
}

#[test]
fn responses_of_the_host_are_payloads_or_failures() {
    assert_eq!(host_result(4, Response::ok(vec![5])).unwrap(), vec![5]);
    let failed = host_result(4, Response::err(6, format!("no"))).unwrap_err();
    assert_eq!((failed.fn_id, failed.status), (4, 6));
    assert_eq!(failed.message(), "host call fn_id=4 failed (status=6): no");
    assert_eq!(failed.error_msg.unwrap(), "no");
    let silent = Response { status: 130, payload: vec![], error_msg: None };
    let refused = host_result(1207, silent).unwrap_err();
    assert_eq!(refused.message(), "host call fn_id=1207 failed (status=130)");
}

fn image(with_gas_slot: bool) -> KernelImageCap {
    let mut initial_regs = [0; NUM_REGS];
    initial_regs[2] = 22;
    KernelImageCap {
        hash: [1; 32],
        code_len: 4,
        code_base: 0x1_0000,
        endpoints: vec![(0, EndpointDef { entry_pc: 0x1_0000, initial_regs })],
        mappings: vec![KernelMapping {
            start: DATA_BASE as u64 + 0x1000,
            size: 0x1000,
            source: Some(Key::from_byte(3)),
            pinned: true,
        }],
        pinned: Vec::new(),
        initial: Vec::new(),
        gas_slots: if with_gas_slot { vec![Key::from_byte(GAS_SLOT)] } else { Vec::new() },
        yield_receiver_slot: None,
    }
}

fn instance(image_hash: CapHash, mem: DataMem, role: Role) -> WireInstance {
    WireInstance {
        image_hash_chain: [0; 32],
        image_hash,
        root_cnode: WireTarget::Hash([2; 32]),
        mem,
        regs: [0; NUM_REGS],
        pc: 0,
        gas_remaining: 0,
        role: Arc::new(role),
    }
}

fn two_pages() -> DataMem {
    DataMem {
        backing: vec![
            Some(Arc::new(Page { pa: 0, bytes: vec![0x11; 4096] })),
            Some(Arc::new(Page { pa: 0, bytes: vec![0x22; 4096] })),
        ],
        overlay: Vec::new(),
    }
}

fn published(with_gas_slot: bool) -> JavmLocal {
    let mut local = JavmLocal::new();
    let handle = instance([0; 32], DataMem::empty(), Role::Gas(Key { bytes: vec![0xAB, 0xCD, 0xEF] }));
    local.put_cap_with_hash([9; 32], Arc::new(WireCap::Instance(handle)));
    local.put_cap_with_hash([1; 32], Arc::new(WireCap::Image(image(with_gas_slot))));
    local.put_cap_with_hash(
        [2; 32],
        Arc::new(WireCap::CNode(vec![(Key::from_byte(GAS_SLOT), WireTarget::Hash([9; 32]))])),
    );
    local.put_cap_with_hash([3; 32], Arc::new(WireCap::Instance(instance([1; 32], two_pages(), Role::Plain))));
    local
}

/// Run a program that is one host call, which costs two units, on a budget.
fn invoke(local: &JavmLocal, budget: u64) -> InvocationResult {
    let spec = local.prepare_invoke(&[3; 32], 0, &[0; 4], DATA_BASE).unwrap();
    let mem = local_memory(&spec).unwrap();
    finish_run(ExitReason::HostCall(42), &spec.regs, &GasCounter::new(budget - 2), &mem, DATA_BASE)
}

#[test]
fn initial_gas_funds_metered_invocation_local() {
    const BUDGET: u64 = 1_000_000;
    const TOPPED_UP: u64 = BUDGET + 5_000_000;
    let local = published(true);
    let funded = invoke(&local, BUDGET);
    let topped_up = invoke(&local, TOPPED_UP);
    assert_eq!(funded.exit_reason, 4, "ecalli 42 -> HostCall");
    assert_eq!(topped_up.exit_reason, 4, "ecalli 42 -> HostCall");
    assert!(funded.gas_remaining < BUDGET);
    assert_eq!(TOPPED_UP - topped_up.gas_remaining, BUDGET - funded.gas_remaining);
}

#[test]
fn no_gas_slot_uses_call_budget() {
    let local = published(false);
    let r = invoke(&local, 1_000_000);
    assert!(r.gas_remaining < 1_000_000 && r.gas_remaining > 0);
}

#[test]
fn concurrent_invokes_sharing_gas_handle_are_independent() {
    const BASE_BUDGET: u64 = 1_000_000;
    let local = published(true);
    let mut consumed = None;
    for i in 0..16 {
        let budget = BASE_BUDGET + i;
        let result = invoke(&local, budget);
        assert_eq!(result.exit_reason, 4, "ecalli 42 -> HostCall");
        let this_consumed = budget - result.gas_remaining;
        match consumed {
            Some(expected) => assert_eq!(this_consumed, expected),
            None => consumed = Some(this_consumed),
        }
    }
}

#[test]
fn program_of_an_instance_is_lowered() {
    let local = published(false);
    assert!(local.has_endpoint(&[3; 32], 0x100));
    assert!(!local.has_endpoint(&[3; 32], 1));
    let spec = local.prepare_invoke(&[3; 32], 0, &[5, 6, 7, 8], DATA_BASE).unwrap();
    assert_eq!(spec.regs.pc, 0x1_0000);
    assert_eq!(spec.regs.gpr[2], 22);
    assert_eq!(spec.regs.gpr[7..11], [5, 6, 7, 8]);
    assert_eq!(spec.declared_mem_size, DATA_BASE + 0x2000);
    assert_eq!(spec.ro_overlays.len(), 1);
    let o = spec.ro_overlays[0];
    assert_eq!((o.start, o.image_off, o.len), (DATA_BASE + 0x1000, 0x1000, 0x1000));
    let mut mem = local_memory(&spec).unwrap();
    assert_eq!(mem.read(DATA_BASE + 0xFFF, 2).unwrap(), vec![0x11, 0x22]);
    mem.write(DATA_BASE, &[1]).unwrap();
    assert_eq!(mem.write(DATA_BASE + 0x1000, &[1]), Err(MemFault));
    let r = finish_run(ExitReason::PageFault(9), &Regs::new(), &GasCounter::new(3), &mem, DATA_BASE);
    assert_eq!((r.exit_reason, r.exit_arg, r.gas_remaining), (3, 9, 3));
    assert_eq!((r.scratchpad_head[0], r.scratchpad_head[1]), (1, 0x11));
    assert_eq!(local.state_root(), [0; 32]);
}

#[test]
fn exits_have_codes() {
    let mem = Mem::new();
    let code = |exit: ExitReason| {
        let r = finish_run(exit, &Regs::new(), &GasCounter::new(0), &mem, DATA_BASE);
        assert_eq!(r.scratchpad_head, [0; 128]);
        (r.exit_reason, r.exit_arg)
    };
    assert_eq!(code(ExitReason::Halt), (0, 0));
    assert_eq!(code(ExitReason::Panic), (1, 0));
    assert_eq!(code(ExitReason::OutOfGas), (2, 0));
    assert_eq!(code(ExitReason::HostCall(42)), (4, 42));
    assert_eq!(code(ExitReason::Ecall), (6, 0));
    assert_eq!(code(ExitReason::Trap), (7, 0));
}

#[test]
fn what_cannot_be_started_is_reported() {
    let mut local = JavmLocal::new();
    let start = |local: &JavmLocal| local.prepare_invoke(&[3; 32], 0, &[0; 4], DATA_BASE).err();
    assert_eq!(start(&local), Some(InvokeError::InstanceNotPublished));
    local.put_cap_with_hash([3; 32], Arc::new(WireCap::CNode(Vec::new())));
    assert_eq!(start(&local), Some(InvokeError::NotAnInstance));
    local.put_cap_with_hash([3; 32], Arc::new(WireCap::Instance(instance([1; 32], DataMem::empty(), Role::Plain))));
    assert_eq!(start(&local), Some(InvokeError::ImageNotCached));
    local.put_cap_with_hash([1; 32], Arc::new(WireCap::CNode(Vec::new())));
    assert_eq!(start(&local), Some(InvokeError::NotAnImage));
    assert_eq!(InvokeError::NotAnImage.message(), "invoke_cached: cap at image_hash is not an Image");
    assert_eq!(
        InvokeError::InstanceNotPublished.message(),
        "invoke_cached: instance not published"
    );
}

#[test]
fn stand_in_architecture_answers_without_running() {
    let mut arch = LocalArch::new();
    let outcome = arch.invoke(3, 4, &[5]);
    assert_eq!((outcome.return_value, outcome.gas_used), (42, 0));
    assert_eq!(arch.state_root(), [0; 32]);
}

#[test]
fn memory_is_mapped_in_whole_pages() {
    assert_eq!(page_round_up_u64(0), 0);
    assert_eq!(page_round_up_u64(4097), 8192);
    let mut mem = Mem::new();
    assert_eq!(mem.map_region(1, PAGE_SIZE, Access::ReadWrite, None), Err(MapError::Misaligned));
    assert_eq!(
        mem.map_region(0xFFFF_F000, 2 * PAGE_SIZE, Access::ReadWrite, None),
        Err(MapError::OutOfRange)
    );
    assert_eq!(
        mem.map_region(0, PAGE_SIZE, Access::ReadWrite, Some(&[0; 4097])),
        Err(MapError::DataTooLong)
    );
    mem.map_region(0, PAGE_SIZE, Access::ReadWrite, Some(&[1, 2, 3])).unwrap();
    assert_eq!(mem.read(1, 4).unwrap(), vec![2, 3, 0, 0]);
    assert_eq!(mem.read_u8(2), Some(3));
    assert_eq!(mem.read_u8(4096), None);
    assert_eq!(mem.read(4095, 2), Err(MemFault));
    assert_eq!(mem.write(4095, &[1, 2]), Err(MemFault));
    assert_eq!(mem.read(4095, 1).unwrap(), vec![0]);
    overlay_into(&mut mem, 0, &[9], Access::ReadOnly).unwrap();
    assert_eq!(mem.read(0, 3).unwrap(), vec![9, 0, 0]);
    assert_eq!(mem.write(0, &[1]), Err(MemFault));
}

#[test]
fn tables_keep_the_last_value_of_a_key() {
    let mut table: HashTable<u32> = HashTable::new();
    table.insert([1; 32], 10);
    table.insert([2; 32], 20);
    table.insert([1; 32], 11);
    assert_eq!(table.len(), 2);
    assert_eq!(table.get(&[1; 32]), Some(&11));
    assert_eq!(table.remove(&[1; 32]), Some(11));
    assert_eq!(table.get(&[1; 32]), None);
    assert_eq!(table.remove(&[1; 32]), None);
    table.clear();
    assert_eq!(table.len(), 0);
}

#[test]
fn guests_are_built_for_bare_metal() {
    let words = vec![format!("a"), format!("b")];
    assert_eq!(join(&words, ", "), "a, b");
    assert_eq!(join(&Vec::new(), ", "), "");
    assert_eq!(
        rustflags("/x/link.ld"),
        "--cfg=hyperlight\x1f--check-cfg=cfg(hyperlight)\x1f-Clink-args=-eentrypoint\x1f\
         -Clink-args=-pie\x1f-Clink-args=-T/x/link.ld\x1f-Crelocation-model=pic\x1f\
         -Ccode-model=large\x1f-Cpanic=abort"
    );
    assert_eq!(build_arguments("m", "guest", &Vec::new()).len(), 8);
    let args = build_arguments("m", "guest", &words);
    assert_eq!(args[3..10], ["m", "--target", "x86_64-unknown-none", "--bin", "guest", "--features", "a,b"]);
    assert_eq!(
        artifact_path("guest"),
        ["nub-arch-guest-build", "x86_64-unknown-none", "release", "guest"]
    );
}
