//! Tasks of the guest kernel: turns, calls, yields and gas.
use std::sync::Arc;

use javm::abi::InvokePacket;
use javm::cap::{EndpointDef, NUM_REGS};
use javm::hash::{Blake2b256, CapHash};
use javm::kernel::call_loop::{
    EntryExit, KernelTask, LoopOutcome, TaskPoll, ERR_YIELD_UNHANDLED, EXIT_ECALL, EXIT_HALT,
    EXIT_HOST_CALL, EXIT_OOG, EXIT_TRAP, OP_CALL_RESUME, OP_DERIVE_SPAWN, OP_DROP_RESUME,
    OP_HOST_CALL, OP_HOST_YIELD, OP_IMAGE_HASH_CHAIN, OP_REPLY,
};
use javm::kernel::caps::{
    DataMem, KernelDirectory, KernelImageCap, Role, WireCap, WireInstance, WireTarget,
};
use javm::kernel::dispatch::{
    Kernel, KernelConfig, ERR_GAS_SLOT_EMPTY, ERR_GAS_SLOT_INVALID, ERR_HOST_CALL_SLOT_EMPTY,
};
use javm::kernel::frame::{
    Target, ERR_ENDPOINT_OOB, ERR_IMAGE_KIND, ERR_IMAGE_NOT_FOUND, ERR_INSTANCE_KIND,
    ERR_INSTANCE_NOT_FOUND,
};
use javm::kernel::image_mem::MemCache;
use javm::kernel::key::Key;
use javm::kernel::lane::ExecutionLane;
use javm::kernel::runtime::ExitInfo;
use javm::kernel::scheduler::{
    run_top, run_top_on_lane, run_two_for_test, Answers, KernelScheduler, LaneSchedulers,
};
use javm::kernel::stack::{frame_at, STATUS_OK, STATUS_YIELDED};

const ECALLI_COST: u64 = 10;
const GAS_SLOT: u8 = 5;

fn hash(tag: u8) -> CapHash {
    [tag; 32]
}

fn kernel() -> Kernel {
    Kernel {
        directory: KernelDirectory::new(),
        mem_cache: MemCache::new(),
        config: KernelConfig {
            data_base: 0x1000_0000,
            ecall_cost: 20,
            ecalli_cost: ECALLI_COST,
            sender_image: hash(0xE1),
            receiver_image: hash(0xE2),
            gas_image: hash(0xE3),
            quota_image: hash(0xE4),
        },
    }
}

fn image(tag: u8) -> KernelImageCap {
    KernelImageCap {
        hash: hash(tag),
        code_len: 4,
        code_base: 0x1_0000,
        endpoints: vec![(0, EndpointDef { entry_pc: 0x1_0000, initial_regs: [0; NUM_REGS] })],
        mappings: Vec::new(),
        pinned: Vec::new(),
        initial: Vec::new(),
        gas_slots: Vec::new(),
        yield_receiver_slot: None,
    }
}

fn instance(chain: CapHash, image: CapHash, cnode: CapHash, role: Role) -> WireInstance {
    WireInstance {
        image_hash_chain: chain,
        image_hash: image,
        root_cnode: WireTarget::Hash(cnode),
        mem: DataMem::zeroed(4096),
        regs: [0; NUM_REGS],
        pc: 0,
        gas_remaining: 0,
        role: Arc::new(role),
    }
}

fn put(k: &mut Kernel, at: CapHash, cap: WireCap) -> CapHash {
    k.directory.insert(at, Arc::new(cap));
    at
}

/// Publish an image, a table and an instance of it; `tag` tells them apart.
fn publish(k: &mut Kernel, tag: u8, img: KernelImageCap, slots: Vec<(u8, CapHash)>) -> CapHash {
    let image_hash = put(k, hash(tag), WireCap::Image(img));
    let entries = slots
        .into_iter()
        .map(|(slot, h)| (Key::from_byte(slot), WireTarget::Hash(h)))
        .collect();
    let cnode = put(k, hash(tag + 1), WireCap::CNode(entries));
    put(
        k,
        hash(tag + 2),
        WireCap::Instance(instance(hash(tag + 3), image_hash, cnode, Role::Plain)),
    )
}

/// Publish a handle of the kernel.
fn publish_handle(k: &mut Kernel, tag: u8, role: Role) -> CapHash {
    let h = put(k, hash(tag), WireCap::CNode(Vec::new()));
    put(k, hash(tag + 1), WireCap::Instance(instance(hash(0xE1), hash(0xE1), h, role)))
}

fn exit(exit_reason: u32, exit_arg: u32, gas_remaining: i64, regs: [u64; NUM_REGS]) -> EntryExit {
    EntryExit {
        info: ExitInfo { exit_reason, exit_arg, gas_remaining, regs, pc: 0x1_0004 },
        mem: DataMem::zeroed(4096),
        mat_state: Vec::new(),
        ro_units: Vec::new(),
        runtime: None,
    }
}

fn regs(values: &[(usize, u64)]) -> [u64; NUM_REGS] {
    let mut file = [0; NUM_REGS];
    for (i, v) in values {
        file[*i] = *v;
    }
    file
}

fn packet(instance_hash: CapHash, initial_gas: u64) -> InvokePacket {
    InvokePacket { instance_hash, endpoint_idx: 0, pad: 0, args: [0; 4], initial_gas }
}

/// The end of a program that is one host call, on a budget: it costs one unit to
/// get there.
fn host_call_end(imm: u32, budget: i64) -> EntryExit {
    if budget < 1 {
        exit(EXIT_OOG, 0, 0, [0; NUM_REGS])
    } else {
        exit(EXIT_HOST_CALL, imm, budget - 1, [0; NUM_REGS])
    }
}

fn scheduler_probe(first_gas: u64, second_gas: u64) -> (LoopOutcome, LoopOutcome) {
    let mut k = kernel();
    let first = publish(&mut k, 0x10, image(0x10), Vec::new());
    let second = publish(&mut k, 0x20, image(0x20), Vec::new());
    let mut scheduler = KernelScheduler::new(ExecutionLane::primary());
    let mut answers: Answers = vec![
        (host_call_end(43, second_gas as i64), 0),
        (host_call_end(42, first_gas as i64), 0),
    ];
    run_two_for_test(
        &mut scheduler,
        &mut k,
        &packet(first, first_gas),
        &packet(second, second_gas),
        &mut answers,
    )
    .unwrap()
    .unwrap()
}

#[test]
fn test_scheduler_probe_runs_two_tasks() {
    let results = scheduler_probe(1_000, 1_000);
    assert_eq!(results.0.exit_reason, 4);
    assert_eq!(results.0.exit_arg, 42);
    assert_eq!(results.1.exit_reason, 4);
    assert_eq!(results.1.exit_arg, 43);
}

#[test]
fn test_scheduler_probe_keeps_task_gas_local_after_oog() {
    let results = scheduler_probe(0, 1_000);
    assert_eq!(results.0.exit_reason, 2);
    assert_eq!(results.1.exit_reason, 4);
    assert_eq!(results.1.exit_arg, 43);
    assert_eq!(results.1.gas_remaining, 1_000 - 1 - ECALLI_COST as i64);
}

/// An instance whose first gas slot holds a handle of a meter.
fn publish_metered(k: &mut Kernel, meter_key: &[u8]) -> CapHash {
    let handle = publish_handle(k, 0x60, Role::Gas(Key { bytes: meter_key.to_vec() }));
    let mut img = image(0x10);
    img.gas_slots = vec![Key::from_byte(GAS_SLOT)];
    publish(k, 0x10, img, vec![(GAS_SLOT, handle)])
}

fn invoke(k: &mut Kernel, root: CapHash, lane: usize, budget: u64) -> LoopOutcome {
    let mut answers: Answers = vec![(host_call_end(42, budget as i64), 0)];
    run_top_on_lane(k, ExecutionLane::new(lane), &root, 0, &[0; 4], budget as i64, &mut answers)
        .unwrap()
        .unwrap()
}

#[test]
fn initial_gas_funds_metered_invocation_hyperlight() {
    const BUDGET: u64 = 1_000_000;
    const TOPPED_UP: u64 = BUDGET + 5_000_000;
    let mut k = kernel();
    let metered = publish_metered(&mut k, &[0xAB, 0xCD, 0xEF]);
    let funded = invoke(&mut k, metered, 0, BUDGET);
    let topped_up = invoke(&mut k, metered, 1, TOPPED_UP);
    assert_eq!(funded.exit_reason, 4, "ecalli 42 -> HostCall");
    assert_eq!(topped_up.exit_reason, 4, "ecalli 42 -> HostCall");
    assert!((funded.gas_remaining as u64) < BUDGET);
    assert_eq!(
        TOPPED_UP - topped_up.gas_remaining as u64,
        BUDGET - funded.gas_remaining as u64,
    );
}

#[test]
fn hyperlight_concurrent_invokes_sharing_gas_handle_are_independent() {
    const BASE_BUDGET: u64 = 1_000_000;
    let mut k = kernel();
    let metered = publish_metered(&mut k, &[0xAA, 0xBB, 0xCC]);
    let mut scheduler = KernelScheduler::new(ExecutionLane::new(1));
    let mut ids = Vec::new();
    let mut answers: Answers = Vec::new();
    for i in 0..16u64 {
        let budget = (BASE_BUDGET + i) as i64;
        ids.push(scheduler.submit_invoke(&k, &metered, 0, &[0; 4], budget).unwrap());
        answers.insert(0, (host_call_end(42, budget), 0));
    }
    let mut consumed = None;
    for (i, id) in ids.into_iter().enumerate() {
        let result = scheduler.run_until_result(&mut k, id, &mut answers).unwrap().unwrap();
        assert_eq!(result.exit_reason, 4, "ecalli 42 -> HostCall");
        let this_consumed = BASE_BUDGET + i as u64 - result.gas_remaining as u64;
        match consumed {
            Some(expected) => assert_eq!(this_consumed, expected),
            None => consumed = Some(this_consumed),
        }
    }
}

#[test]
fn tasks_take_turns() {
    let mut k = kernel();
    let callee = publish(&mut k, 0x20, image(0x20), Vec::new());
    let caller = publish(&mut k, 0x10, image(0x10), vec![(9, callee)]);
    let mut scheduler = KernelScheduler::new(ExecutionLane::primary());
    let a = scheduler.submit_invoke(&k, &caller, 0, &[0; 4], 1_000).unwrap();
    let b = scheduler.submit_invoke(&k, &callee, 0, &[0; 4], 2_000).unwrap();
    assert_eq!((a, b), (0, 1));
    let mut answers: Answers = vec![
        (exit(EXIT_HALT, 0, 1_900, regs(&[(7, 5)])), 0),
        (exit(EXIT_HOST_CALL, OP_HOST_CALL, 900, regs(&[(7, 9)])), 50),
    ];
    let second = scheduler.run_until_result(&mut k, b, &mut answers).unwrap().unwrap();
    assert_eq!((second.exit_reason, second.return_value, second.gas_remaining), (0, 5, 1_900));
    assert!(answers.is_empty());
    assert_eq!(scheduler.run_until_result(&mut k, a, &mut answers).unwrap().is_none(), true);
    let waiting = scheduler.tasks.get(&a).unwrap();
    assert_eq!(waiting.stack.len(), 2);
    assert_eq!(waiting.gas_state.live_gas, 900 - ECALLI_COST as i64 - 50);
}

#[test]
fn result_that_is_there_already_is_handed_out_once() {
    let mut k = kernel();
    let root = publish(&mut k, 0x10, image(0x10), Vec::new());
    let mut scheduler = KernelScheduler::new(ExecutionLane::primary());
    let a = scheduler.submit_invoke(&k, &root, 0, &[0; 4], 10).unwrap();
    let b = scheduler.submit_invoke(&k, &root, 0, &[0; 4], 10).unwrap();
    let mut answers: Answers = vec![
        (exit(EXIT_HALT, 0, 2, regs(&[(7, 2)])), 0),
        (exit(EXIT_HALT, 0, 1, regs(&[(7, 1)])), 0),
    ];
    let second = scheduler.run_until_result(&mut k, b, &mut answers).unwrap().unwrap();
    assert_eq!(second.return_value, 2);
    let first = scheduler.run_until_result(&mut k, a, &mut answers).unwrap().unwrap();
    assert_eq!(first.return_value, 1);
    assert!(scheduler.run_until_result(&mut k, a, &mut answers).is_err());
}

fn caller_and_callee(k: &mut Kernel) -> CapHash {
    let mut called = image(0x20);
    called.endpoints[0].1.initial_regs[3] = 33;
    let callee = publish(k, 0x20, called, Vec::new());
    publish(k, 0x10, image(0x10), vec![(9, callee), (4, callee)])
}

fn pending(poll: Result<TaskPoll, u32>) {
    assert!(matches!(poll, Ok(TaskPoll::Pending)));
}

fn done(poll: Result<TaskPoll, u32>) -> LoopOutcome {
    match poll {
        Ok(TaskPoll::Done(outcome)) => outcome,
        _ => panic!("expected the task to be over"),
    }
}

#[test]
fn called_instance_returns_to_its_slot() {
    let mut k = kernel();
    let root = caller_and_callee(&mut k);
    let mut task =
        KernelTask::new(&k, 7, ExecutionLane::primary(), &root, 0, &[1, 2, 3, 4], 1_000).unwrap();
    let run = task.begin_entry();
    assert_eq!(run.regs[7..11], [1, 2, 3, 4]);
    assert_eq!(run.pc, 0x1_0000);
    assert_eq!(run.gas, 1_000);
    let call = regs(&[(7, 9), (8, 0), (9, 70), (10, 80), (6, 66)]);
    pending(task.poll_once(&mut k, exit(EXIT_HOST_CALL, OP_HOST_CALL, 900, call), 100));
    assert_eq!(task.stack.len(), 2);
    let slot = Key::from_byte(9);
    assert!(frame_at(&task.stack, 0).slot_is_pending(&slot));
    assert!(frame_at(&task.stack, 0).cnode.get(&slot).is_none());
    assert!(frame_at(&task.stack, 1).cnode.get(&Key::from_byte(4)).is_some());

    let run = task.begin_entry();
    assert_eq!(run.image_hash, hash(0x20));
    assert_eq!(run.regs[3], 33);
    assert_eq!(run.regs[7..11], [70, 80, 0, 0]);
    assert_eq!(run.gas, 900 - ECALLI_COST as i64 - 100);
    pending(task.poll_once(&mut k, exit(EXIT_HALT, 0, 500, regs(&[(7, 123), (2, 22)])), 0));
    assert_eq!(task.stack.len(), 1);

    let run = task.begin_entry();
    assert_eq!(run.regs[7], 123);
    assert_eq!(run.regs[8], STATUS_OK);
    assert_eq!(run.regs[6], 66);
    assert_eq!(run.gas, 500);
    assert!(!frame_at(&task.stack, 0).slot_is_pending(&slot));
    match frame_at(&task.stack, 0).cnode.get(&slot) {
        Some(Target::Instance(i)) => assert_eq!(i.regs[2], 22),
        _ => panic!("expected the instance to be back"),
    }
}

#[test]
fn running_instance_cannot_be_called_again() {
    let mut k = kernel();
    let root = caller_and_callee(&mut k);
    let mut task =
        KernelTask::new(&k, 0, ExecutionLane::primary(), &root, 0, &[0; 4], 1_000).unwrap();
    frame_pending(&mut task);
    let end = exit(EXIT_HOST_CALL, OP_HOST_CALL, 900, regs(&[(7, 9)]));
    assert_eq!(done(task.poll_once(&mut k, end, 0)).exit_reason, EXIT_TRAP);
}

fn frame_pending(task: &mut KernelTask) {
    javm::kernel::stack::frame_at_mut(&mut task.stack, 0).pending.insert(Key::from_byte(9), ());
}

#[test]
fn unpaid_call_moves_nothing() {
    let mut k = kernel();
    let root = caller_and_callee(&mut k);
    let mut task =
        KernelTask::new(&k, 0, ExecutionLane::primary(), &root, 0, &[0; 4], 1_000).unwrap();
    let end = exit(EXIT_HOST_CALL, OP_HOST_CALL, 60, regs(&[(7, 9)]));
    assert_eq!(done(task.poll_once(&mut k, end, 51)).exit_reason, EXIT_OOG);
    assert_eq!(task.stack.len(), 1);
    assert!(frame_at(&task.stack, 0).cnode.get(&Key::from_byte(9)).is_some());
}

/// A caller that catches a key, its callee, and a sender of the key in the callee.
fn yielding(k: &mut Kernel) -> CapHash {
    let key = Key { bytes: vec![0x59] };
    let sender = publish_handle(k, 0x60, Role::YieldSender(key.duplicate()));
    let receiver = publish_handle(k, 0x70, Role::YieldReceiver(vec![key]));
    let callee = publish(k, 0x20, image(0x20), vec![(3, sender)]);
    let mut img = image(0x10);
    img.yield_receiver_slot = Some(Key::from_byte(6));
    publish(k, 0x10, img, vec![(9, callee), (6, receiver)])
}

fn yielded_task(k: &mut Kernel) -> KernelTask {
    let root = yielding(k);
    let mut task =
        KernelTask::new(k, 0, ExecutionLane::primary(), &root, 0, &[0; 4], 1_000).unwrap();
    pending(task.poll_once(k, exit(EXIT_HOST_CALL, OP_HOST_CALL, 900, regs(&[(7, 9)])), 0));
    let end = exit(EXIT_HOST_CALL, OP_HOST_YIELD, 800, regs(&[(7, 3), (2, 22)]));
    pending(task.poll_once(k, end, 0));
    task
}

#[test]
fn yield_goes_to_the_owner_that_catches_it_and_is_resumed() {
    let mut k = kernel();
    let mut task = yielded_task(&mut k);
    assert_eq!(task.stack.len(), 3);
    assert_eq!(task.stack[2].target, 0);
    let run = task.begin_entry();
    assert_eq!(run.image_hash, hash(0x10));
    assert_eq!(run.regs[8], STATUS_YIELDED);
    assert!(matches!(
        frame_at(&task.stack, 0).cnode.get(&Key::from_byte(0)),
        Some(Target::Instance(_))
    ));
    let mut kept = run.regs;
    kept[5] = 55;
    pending(task.poll_once(&mut k, exit(EXIT_HOST_CALL, OP_CALL_RESUME, 700, kept), 0));
    assert_eq!(task.stack.len(), 2);
    let run = task.begin_entry();
    assert_eq!(run.image_hash, hash(0x20));
    assert_eq!(run.regs[2], 22);
    assert_eq!(run.gas, 700 - ECALLI_COST as i64);
}

#[test]
fn dropping_a_yielder_frees_its_slot() {
    let mut k = kernel();
    let mut task = yielded_task(&mut k);
    let run = task.begin_entry();
    pending(task.poll_once(&mut k, exit(EXIT_HOST_CALL, OP_DROP_RESUME, 700, run.regs), 0));
    assert_eq!(task.stack.len(), 1);
    assert!(!frame_at(&task.stack, 0).slot_is_pending(&Key::from_byte(9)));
}

#[test]
fn yield_that_nobody_catches_traps() {
    let mut k = kernel();
    let sender = publish_handle(&mut k, 0x60, Role::YieldSender(Key { bytes: vec![0x77] }));
    let root = publish(&mut k, 0x10, image(0x10), vec![(3, sender)]);
    let mut task =
        KernelTask::new(&k, 0, ExecutionLane::primary(), &root, 0, &[0; 4], 1_000).unwrap();
    let end = exit(EXIT_ECALL, 0, 900, regs(&[(7, 3), (11, OP_HOST_YIELD as u64)]));
    let outcome = done(task.poll_once(&mut k, end, 0));
    assert_eq!((outcome.exit_reason, outcome.exit_arg), (EXIT_TRAP, ERR_YIELD_UNHANDLED));
    assert_eq!(outcome.gas_remaining, 880);
}

#[test]
fn resuming_what_was_not_yielded_traps() {
    let mut k = kernel();
    let root = publish(&mut k, 0x10, image(0x10), Vec::new());
    for op in [OP_CALL_RESUME, OP_DROP_RESUME] {
        let mut task =
            KernelTask::new(&k, 0, ExecutionLane::primary(), &root, 0, &[0; 4], 1_000).unwrap();
        let end = exit(EXIT_HOST_CALL, op, 900, [0; NUM_REGS]);
        assert_eq!(done(task.poll_once(&mut k, end, 0)).exit_reason, EXIT_TRAP);
    }
}

#[test]
fn kernel_answers_its_own_yields() {
    let mut k = kernel();
    let mint = publish_handle(&mut k, 0x60, Role::YieldSender(Key::from_label("kernel:mint_yield")));
    let gas = publish_handle(&mut k, 0x64, Role::YieldSender(Key::from_label("kernel:mint_gas")));
    let meter =
        publish_handle(&mut k, 0x68, Role::YieldSender(Key::from_label("kernel:set_gas_meter")));
    let root = publish(&mut k, 0x10, image(0x10), vec![(1, mint), (2, gas), (3, meter)]);
    let mut task =
        KernelTask::new(&k, 0, ExecutionLane::primary(), &root, 0, &[0; 4], 1_000).unwrap();
    let mint_regs = regs(&[(7, 1), (8, 0x41), (9, 20), (10, 21)]);
    pending(task.poll_once(&mut k, exit(EXIT_HOST_CALL, OP_HOST_YIELD, 900, mint_regs), 0));
    let frame = frame_at(&task.stack, 0);
    assert!(matches!(
        frame.cnode.get(&Key::from_byte(20)),
        Some(Target::Instance(i)) if matches!(&*i.role, Role::YieldSender(s) if s.bytes == vec![0x41])
    ));
    assert!(matches!(
        frame.cnode.get(&Key::from_byte(21)),
        Some(Target::Instance(i)) if matches!(&*i.role, Role::YieldReceiver(r) if r.len() == 1)
    ));
    let gas_regs = regs(&[(7, 2), (8, 0x42), (9, 22)]);
    pending(task.poll_once(&mut k, exit(EXIT_HOST_CALL, OP_HOST_YIELD, 900, gas_regs), 0));
    assert!(matches!(
        frame_at(&task.stack, 0).cnode.get(&Key::from_byte(22)),
        Some(Target::Instance(i)) if i.image_hash_chain == hash(0xE3)
    ));
    let set_regs = regs(&[(7, 3), (8, 0x42), (9, 500)]);
    pending(task.poll_once(&mut k, exit(EXIT_HOST_CALL, OP_HOST_YIELD, 900, set_regs), 0));
    assert_eq!(task.gas_state.meters.get(&Key::from_byte(0x42)), Some(&500));
}

#[test]
fn spawned_instance_extends_the_chain() {
    let mut k = kernel();
    let child = put(&mut k, hash(0x20), WireCap::Image(image(0x20)));
    let root = publish(&mut k, 0x10, image(0x10), vec![(3, child)]);
    let mut task =
        KernelTask::new(&k, 0, ExecutionLane::primary(), &root, 0, &[0; 4], 1_000).unwrap();
    let spawn = regs(&[(7, 3), (9, 8)]);
    pending(task.poll_once(&mut k, exit(EXIT_HOST_CALL, OP_DERIVE_SPAWN, 900, spawn), 0));
    let chain = Blake2b256::hash_pair(&hash(0x13), &hash(0x20));
    assert!(matches!(
        frame_at(&task.stack, 0).cnode.get(&Key::from_byte(8)),
        Some(Target::Instance(i)) if i.image_hash_chain == chain && i.image_hash == hash(0x20)
    ));
    let ask = regs(&[(7, 8), (8, 12)]);
    pending(task.poll_once(&mut k, exit(EXIT_HOST_CALL, OP_IMAGE_HASH_CHAIN, 900, ask), 0));
    match frame_at(&task.stack, 0).cnode.get(&Key::from_byte(12)) {
        Some(Target::Bytes(page)) => {
            assert_eq!(page.len(), 4096);
            assert_eq!(page[..32], chain);
            assert!(page[32..].iter().all(|b| *b == 0));
        }
        _ => panic!("expected the identity as data"),
    }
}

#[test]
fn reply_ends_the_task() {
    let mut k = kernel();
    let root = publish(&mut k, 0x10, image(0x10), Vec::new());
    let mut answers: Answers =
        vec![(exit(EXIT_HOST_CALL, OP_REPLY, 100, regs(&[(7, 77)])), 0)];
    let outcome = run_top(&mut k, &root, 0, &[0; 4], 1_000, &mut answers).unwrap().unwrap();
    assert_eq!(outcome.return_value, 77);
    assert_eq!(outcome.gas_remaining, 90);
    assert_eq!(outcome.scratchpad_head, [0; 128]);
}

#[test]
fn what_is_missing_is_reported() {
    let mut k = kernel();
    let lane = ExecutionLane::primary();
    let orphan_cnode = put(&mut k, hash(1), WireCap::CNode(Vec::new()));
    let orphan =
        put(&mut k, hash(2), WireCap::Instance(instance(hash(0), hash(3), orphan_cnode, Role::Plain)));
    let wrong =
        put(&mut k, hash(4), WireCap::Instance(instance(hash(0), hash(1), orphan_cnode, Role::Plain)));
    let root = publish(&mut k, 0x10, image(0x10), Vec::new());
    let start = |k: &Kernel, h: &CapHash, endpoint: u32| {
        KernelTask::new(k, 0, lane, h, endpoint, &[0; 4], 10).err()
    };
    assert_eq!(start(&k, &hash(9), 0), Some(ERR_INSTANCE_NOT_FOUND));
    assert_eq!(start(&k, &orphan_cnode, 0), Some(ERR_INSTANCE_KIND));
    assert_eq!(start(&k, &orphan, 0), Some(ERR_IMAGE_NOT_FOUND));
    assert_eq!(start(&k, &wrong, 0), Some(ERR_IMAGE_KIND));
    assert_eq!(start(&k, &root, 1), Some(ERR_ENDPOINT_OOB));
    assert_eq!(start(&k, &root, 0x100), None);
    let mut img = image(0x30);
    img.gas_slots = vec![Key::from_byte(GAS_SLOT)];
    let unfunded = publish(&mut k, 0x30, img, Vec::new());
    assert_eq!(start(&k, &unfunded, 0), Some(ERR_GAS_SLOT_EMPTY));
    let mut img = image(0x40);
    img.gas_slots = vec![Key::from_byte(GAS_SLOT)];
    let misfunded = publish(&mut k, 0x40, img, vec![(GAS_SLOT, root)]);
    assert_eq!(start(&k, &misfunded, 0), Some(ERR_GAS_SLOT_INVALID));
    let mut task = KernelTask::new(&k, 0, lane, &root, 0, &[0; 4], 100).unwrap();
    let end = exit(EXIT_HOST_CALL, OP_HOST_CALL, 90, regs(&[(7, 9)]));
    assert_eq!(task.poll_once(&mut k, end, 0).err(), Some(ERR_HOST_CALL_SLOT_EMPTY));
}

#[test]
fn each_lane_has_a_scheduler_of_its_own() {
    let mut k = kernel();
    let root = publish(&mut k, 0x10, image(0x10), Vec::new());
    let mut lanes = LaneSchedulers::new();
    let one = lanes.with_lane_scheduler(ExecutionLane::new(1));
    one.submit_invoke(&k, &root, 0, &[0; 4], 10).unwrap();
    assert_eq!(lanes.with_lane_scheduler(ExecutionLane::new(1)).next_task_id, 1);
    assert_eq!(lanes.with_lane_scheduler(ExecutionLane::new(2)).next_task_id, 0);
    assert!(ExecutionLane::new(63).in_range());
    ExecutionLane::new(63).assert_in_range();
    assert!(!ExecutionLane::new(64).in_range());
    k.directory.clear();
    assert_eq!(k.directory.len(), 0);
}
