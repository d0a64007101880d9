//! The call loop: what the end of each run of a frame leads to.
use vstd::prelude::*;

use crate::cap::NUM_REGS;
use crate::hash::CapHash;
use crate::kernel::caps::{DataMem, WireCap};
use crate::kernel::dispatch::{
    call_done, call_started, draws_on, frame_meters, host_call_frame_cost, host_call_inputs,
    identity_done, is_called, is_catch_set, receiver_slot, resolve_frame_gas, snapshot_catch_set,
    spawn_done, Kernel, SCRATCHPAD_SLOT,
};
use crate::kernel::frame::{
    build_frame, copied_from, frame_built, from_wire, is_from_wire, slot_of, CapMap, KernelFrame,
    ResidentInstance, ERR_INSTANCE_KIND, ERR_INSTANCE_NOT_FOUND,
};
use crate::kernel::gas::{FrameGas, TaskGasState};
use crate::kernel::key::{byte_key, reg_key, Key};
use crate::kernel::lane::ExecutionLane;
use crate::kernel::runtime::{ExitInfo, FrameRuntime};
use crate::kernel::stack::{
    entry_wf, frame_at, frame_at_mut, frame_of, has_frame, lemma_call_pushed, lemma_frame_changed,
    own_frame, reservations_wf, stack_wf, with_frame, EntryKind, StackEntry,
};
use crate::kernel::transfer::{
    drop_above, dropped_above, end_top, ended, oog_handled, resume_yielder, resumed, route_yield,
    try_oog_yield, with_scratch, yielded,
};
use crate::kernel::yields::{yield_done, YieldOutcome};

verus! {

/// The frame has ended.
pub const EXIT_HALT: u32 = 0;

/// The gas has run out.
pub const EXIT_OOG: u32 = 2;

/// A kernel call with its number in the instruction.
pub const EXIT_HOST_CALL: u32 = 4;

/// A kernel call with its number in register 11.
pub const EXIT_ECALL: u32 = 6;

/// A trap.
pub const EXIT_TRAP: u32 = 7;

/// End the frame.
pub const OP_REPLY: u32 = 0;

/// Yield.
pub const OP_HOST_YIELD: u32 = 16;

/// Spawn an instance.
pub const OP_DERIVE_SPAWN: u32 = 18;

/// Read the identity of a type.
pub const OP_IMAGE_HASH_CHAIN: u32 = 20;

/// Call an instance.
pub const OP_HOST_CALL: u32 = 26;

/// Answer a yield.
pub const OP_CALL_RESUME: u32 = 27;

/// Give up a yield.
pub const OP_DROP_RESUME: u32 = 28;

/// How deep calls may nest.
pub const MAX_DEPTH: usize = 32768;

/// Calls are nested too deep.
pub const ERR_DEPTH_LIMIT: u32 = 51;

/// Nobody catches the yield.
pub const ERR_YIELD_UNHANDLED: u32 = 70;

/// How much of the scratchpad region the host gets to see.
pub const SCRATCHPAD_HEAD_LEN: usize = 128;

/// How a task has ended.
#[derive(Clone, Copy, Debug)]
pub struct LoopOutcome {
    pub exit_reason: u32,
    pub exit_arg: u32,
    pub return_value: u64,
    pub gas_remaining: i64,
    pub scratchpad_head: [u8; SCRATCHPAD_HEAD_LEN],
}

/// Whether a task goes on.
#[derive(Debug)]
pub enum TaskPoll {
    Pending,
    Done(LoopOutcome),
}

/// An invocation: its stack and its gas.
#[derive(Debug)]
pub struct KernelTask {
    pub id: u64,
    pub lane: ExecutionLane,
    pub stack: Vec<StackEntry>,
    pub next_iid: u64,
    pub gas_state: TaskGasState,
}

/// What is to run next, with what it runs in.
#[derive(Debug)]
pub struct EntryRun {
    pub lane: ExecutionLane,
    pub image_hash: CapHash,
    pub pc: u32,
    pub regs: [u64; NUM_REGS],
    pub gas: i64,
    pub mem: DataMem,
    pub mat_state: Vec<u8>,
    pub ro_units: Vec<u32>,
    pub runtime: Option<FrameRuntime>,
}

/// How it ran, with what it ran in.
#[derive(Debug)]
pub struct EntryExit {
    pub info: ExitInfo,
    pub mem: DataMem,
    pub mat_state: Vec<u8>,
    pub ro_units: Vec<u32>,
    pub runtime: Option<FrameRuntime>,
}

/// The first bytes of a memory; zeros if it has no page.
pub open spec fn head_of(mem: DataMem) -> Seq<u8> {
    Seq::new(
        SCRATCHPAD_HEAD_LEN as nat,
        |i: int|
            if mem.backing@.len() > 0 {
                mem.byte(i)
            } else {
                0
            },
    )
}

/// Zeros in place of the first bytes of a memory.
pub open spec fn no_head() -> Seq<u8> {
    Seq::new(SCRATCHPAD_HEAD_LEN as nat, |i: int| 0u8)
}

fn empty_head() -> (head: [u8; SCRATCHPAD_HEAD_LEN])
    ensures
        head@ == no_head(),
{
    let head: [u8; SCRATCHPAD_HEAD_LEN] = [0u8; SCRATCHPAD_HEAD_LEN];
    assert(head@ =~= no_head());
    head
}

/// The first bytes of the memory of a frame.
pub fn read_scratchpad_head(frame: &KernelFrame) -> (head: [u8; SCRATCHPAD_HEAD_LEN])
    ensures
        head@ == head_of(frame.mem),
{
    let mut head: [u8; SCRATCHPAD_HEAD_LEN] = [0u8; SCRATCHPAD_HEAD_LEN];
    if frame.mem.backing.len() == 0 {
        assert(head@ =~= head_of(frame.mem));
        return head;
    }
    let page = frame.mem.page_at(0);
    match page {
        None => {
            assert(head@ =~= head_of(frame.mem));
        },
        Some(p) => {
            let mut i: usize = 0;
            while i < SCRATCHPAD_HEAD_LEN
                invariant
                    i <= SCRATCHPAD_HEAD_LEN,
                    frame.mem.backing@.len() > 0,
                    frame.mem.page(0) == Some(p),
                    forall|j: int| 0 <= j < i ==> head@[j] == frame.mem.byte(j),
                    forall|j: int| i <= j < SCRATCHPAD_HEAD_LEN ==> head@[j] == 0,
                decreases SCRATCHPAD_HEAD_LEN - i,
            {
                if i < p.bytes.len() {
                    head[i] = p.bytes[i];
                }
                i = i + 1;
            }
            assert(head@ =~= head_of(frame.mem));
        },
    }
    head
}

/// Whether a poll has ended the task with the given outcome.
pub open spec fn is_done(
    r: Result<TaskPoll, u32>,
    reason: u32,
    arg: u32,
    value: u64,
    gas: TaskGasState,
    head: Seq<u8>,
) -> bool {
    r matches Ok(TaskPoll::Done(o)) && {
        &&& o.exit_reason == reason
        &&& o.exit_arg == arg
        &&& o.return_value == value
        &&& o.gas_remaining == gas.balance(gas.root())
        &&& o.scratchpad_head@ == head
    }
}

/// Whether a poll has left the task running.
pub open spec fn is_pending(r: Result<TaskPoll, u32>) -> bool {
    r == Ok::<TaskPoll, u32>(TaskPoll::Pending)
}

/// A frame after a run.
pub open spec fn landed(frame: KernelFrame, exit: EntryExit) -> KernelFrame {
    KernelFrame {
        regs: exit.info.regs,
        pc: exit.info.pc as u64,
        mem: exit.mem,
        mat_state: exit.mat_state,
        ro_units: exit.ro_units,
        runtime: exit.runtime,
        ..frame
    }
}

/// The stack after a run of the frame on top.
pub open spec fn stack_landed(stack: Seq<StackEntry>, exit: EntryExit) -> Seq<StackEntry> {
    let t = stack.last().target as int;
    with_frame(stack, t, landed(own_frame(stack[t]), exit))
}

/// The kernel call that a run has ended with.
pub open spec fn op_of(info: ExitInfo) -> u32 {
    if info.exit_reason == EXIT_HOST_CALL {
        info.exit_arg
    } else {
        info.regs@[11] as u32
    }
}

/// What a kernel call costs: a fixed part, and for a call what making its frame
/// costs.
pub open spec fn op_cost(kernel: Kernel, frame: KernelFrame, info: ExitInfo, frame_cost: u64) -> int {
    let fixed = if info.exit_reason == EXIT_HOST_CALL {
        kernel.config.ecalli_cost
    } else {
        kernel.config.ecall_cost
    };
    let call = if op_of(info) == OP_HOST_CALL && host_call_inputs(kernel.directory@, frame) matches Ok(
        Some(_),
    ) {
        if frame_cost <= i64::MAX {
            frame_cost as int
        } else {
            i64::MAX as int
        }
    } else {
        0
    };
    fixed + call
}

/// Whether the kernel refuses the call outright, and with which code.
pub open spec fn call_refused(kernel: Kernel, stack: Seq<StackEntry>, info: ExitInfo) -> Option<
    u32,
> {
    if op_of(info) != OP_HOST_CALL {
        None
    } else if stack.len() >= MAX_DEPTH {
        Some(ERR_DEPTH_LIMIT)
    } else {
        match host_call_inputs(kernel.directory@, frame_of(stack, stack.len() - 1)) {
            Err(e) => Some(e),
            Ok(_) => None,
        }
    }
}

/// The gas after a charge.
pub open spec fn charged(gas: TaskGasState, cost: int) -> TaskGasState {
    TaskGasState { live_gas: (gas.live_gas - cost) as i64, ..gas }
}

/// What the end of the frame on top comes to.
pub open spec fn end_done(
    before: Seq<StackEntry>,
    after: Seq<StackEntry>,
    gas: TaskGasState,
    info: ExitInfo,
    r: Result<TaskPoll, u32>,
) -> bool {
    let head = if before.last().target == 0 {
        head_of(frame_of(before, before.len() - 1).mem)
    } else {
        no_head()
    };
    ||| ended(before, after, info.regs@[7], false) && is_pending(r)
    ||| ended(before, after, info.regs@[7], true) && is_done(
        r,
        info.exit_reason,
        info.exit_arg,
        info.regs@[7],
        gas,
        head,
    )
}

/// What running out of gas comes to: the task goes on elsewhere, or it ends.
pub open spec fn oog_done(
    kernel: Kernel,
    before: Seq<StackEntry>,
    after: Seq<StackEntry>,
    gas: TaskGasState,
    pc: u32,
    arg: u32,
    value: u64,
    r: Result<TaskPoll, u32>,
) -> bool {
    let top = before.len() - 1;
    ||| oog_handled(before, after, top, pc, kernel.config.gas_image, true) && is_pending(r)
    ||| oog_handled(before, after, top, pc, kernel.config.gas_image, false) && is_done(
        r,
        EXIT_OOG,
        arg,
        value,
        gas,
        no_head(),
    )
}

/// Whether a dispatch that can trap has been answered.
pub open spec fn trap_or_go_on(
    dispatched: Result<bool, u32>,
    gas: TaskGasState,
    value: u64,
    r: Result<TaskPoll, u32>,
) -> bool {
    match dispatched {
        Err(e) => r == Err::<TaskPoll, u32>(e),
        Ok(true) => is_done(r, EXIT_TRAP, 0, value, gas, no_head()),
        Ok(false) => is_pending(r),
    }
}

/// What a spawn comes to.
pub open spec fn spawn_polled(
    kernel: Kernel,
    kernel_after: Kernel,
    before: Seq<StackEntry>,
    after: Seq<StackEntry>,
    gas: TaskGasState,
    value: u64,
    r: Result<TaskPoll, u32>,
) -> bool {
    let t = before.last().target as int;
    &&& after == with_frame(before, t, own_frame(after[t]))
    &&& kernel_after.directory == kernel.directory
    &&& kernel_after.config == kernel.config
    &&& exists|d: Result<bool, u32>| #[trigger]
        trap_or_go_on(d, gas, value, r) && spawn_done(
            kernel.directory@,
            kernel.mem_cache@,
            kernel.config.data_base,
            own_frame(before[t]),
            own_frame(after[t]),
            kernel_after.mem_cache@,
            d,
        )
}

/// What reading the identity of a type comes to.
pub open spec fn identity_polled(
    kernel: Kernel,
    before: Seq<StackEntry>,
    after: Seq<StackEntry>,
    gas: TaskGasState,
    value: u64,
    r: Result<TaskPoll, u32>,
) -> bool {
    let t = before.last().target as int;
    &&& after == with_frame(before, t, own_frame(after[t]))
    &&& exists|d: Result<bool, u32>| #[trigger]
        trap_or_go_on(d, gas, value, r) && identity_done(
            kernel.directory@,
            own_frame(before[t]),
            own_frame(after[t]),
            d,
        )
}

/// What a yield comes to once it was classified.
pub open spec fn yield_answered(
    kernel: Kernel,
    mid: Seq<StackEntry>,
    after: Seq<StackEntry>,
    gas: TaskGasState,
    value: u64,
    outcome: Result<YieldOutcome, u32>,
    r: Result<TaskPoll, u32>,
) -> bool {
    let top = mid.len() - 1;
    match outcome {
        Err(e) => after == mid && r == Err::<TaskPoll, u32>(e),
        Ok(YieldOutcome::Inline) => after == mid && is_pending(r),
        Ok(YieldOutcome::Trap) => after == mid && is_done(r, EXIT_TRAP, 0, value, gas, no_head()),
        Ok(YieldOutcome::Route { key, sender_slot }) => exists|payload: Option<ResidentInstance>|
            #[trigger]
            copied_from(kernel.directory@, frame_of(mid, top).slot(sender_slot@), payload) && {
                ||| yielded(mid, after, top, key@, payload, true) && is_pending(r)
                ||| yielded(mid, after, top, key@, payload, false) && is_done(
                    r,
                    EXIT_TRAP,
                    ERR_YIELD_UNHANDLED,
                    value,
                    gas,
                    no_head(),
                )
            },
    }
}

/// What a yield comes to.
pub open spec fn yield_polled(
    kernel: Kernel,
    before: Seq<StackEntry>,
    after: Seq<StackEntry>,
    gas: TaskGasState,
    gas_after: TaskGasState,
    value: u64,
    r: Result<TaskPoll, u32>,
) -> bool {
    let t = before.last().target as int;
    exists|frame: KernelFrame, outcome: Result<YieldOutcome, u32>|
        #[trigger] yield_done(kernel, own_frame(before[t]), frame, gas, gas_after, outcome)
            && yield_answered(
            kernel,
            with_frame(before, t, frame),
            after,
            gas_after,
            value,
            outcome,
            r,
        )
}

/// Whether `child` has got the scratchpad of its caller `parent`, which no longer
/// has it.
pub open spec fn scratch_moved(
    parent: KernelFrame,
    parent_after: KernelFrame,
    child: KernelFrame,
    child_after: KernelFrame,
) -> bool {
    &&& parent_after == (KernelFrame { cnode: parent_after.cnode, ..parent })
    &&& parent_after.cnode@ == parent.cnode@.remove(byte_key(SCRATCHPAD_SLOT))
    &&& child_after == (KernelFrame { cnode: child_after.cnode, ..child })
    &&& child_after.cnode@ == with_scratch(
        child.cnode@,
        slot_of(parent.cnode@, byte_key(SCRATCHPAD_SLOT)),
    )
}

/// Whether `gas` is what funds a called frame: its own meters, else those of its
/// caller.
pub open spec fn funded(dir: CapMap, child: KernelFrame, caller: FrameGas, gas: FrameGas) -> bool {
    match frame_meters(dir, child) {
        Ok(Some(meters)) => draws_on(gas, meters),
        _ => gas.same_as(&caller),
    }
}

/// Whether `e` is the entry of a called frame.
pub open spec fn is_call_entry(
    dir: CapMap,
    before: Seq<StackEntry>,
    iid: u64,
    child: KernelFrame,
    e: StackEntry,
) -> bool {
    let t = before.last().target;
    &&& e.kind == EntryKind::Instance(Box::new(child))
    &&& e.target == before.len()
    &&& e.instance_id == iid
    &&& e.owner == Some(t)
    &&& is_catch_set(dir, own_frame(before[t as int]), e.owner_catch_set@)
    &&& funded(dir, child, before.last().gas, e.gas)
}

/// What a call comes to once its frame was made. `iid` is the number of the frame,
/// and `iid_after` that of the next.
pub open spec fn call_answered(
    kernel: Kernel,
    before: Seq<StackEntry>,
    after: Seq<StackEntry>,
    iid: u64,
    iid_after: u64,
    parent: KernelFrame,
    dispatched: Result<Option<KernelFrame>, u32>,
    gas: TaskGasState,
    value: u64,
    r: Result<TaskPoll, u32>,
) -> bool {
    let t = before.last().target as int;
    match dispatched {
        Err(e) => {
            &&& r == Err::<TaskPoll, u32>(e)
            &&& after == with_frame(before, t, parent)
            &&& iid_after == iid
        },
        Ok(None) => {
            &&& is_done(r, EXIT_TRAP, 0, value, gas, no_head())
            &&& after == with_frame(before, t, parent)
            &&& iid_after == iid
        },
        Ok(Some(child)) => iid_after == iid.wrapping_add(1) && exists|parent_after: KernelFrame, child_after: KernelFrame|
            #[trigger] scratch_moved(parent, parent_after, child, child_after) && match frame_meters(
                kernel.directory@,
                child_after,
            ) {
                Err(e) => {
                    &&& r == Err::<TaskPoll, u32>(e)
                    &&& after == with_frame(before, t, parent_after)
                },
                Ok(_) => {
                    &&& is_pending(r)
                    &&& after.len() == before.len() + 1
                    &&& after.drop_last() == with_frame(before, t, parent_after)
                    &&& is_call_entry(kernel.directory@, before, iid, child_after, after.last())
                },
            },
    }
}

/// What a call comes to.
pub open spec fn call_polled(
    kernel: Kernel,
    before: Seq<StackEntry>,
    after: Seq<StackEntry>,
    iid: u64,
    iid_after: u64,
    gas: TaskGasState,
    value: u64,
    r: Result<TaskPoll, u32>,
) -> bool {
    let t = before.last().target as int;
    let caller = own_frame(before[t]);
    let dir = kernel.directory@;
    if caller.is_pending(reg_key(caller.regs@[7])) || (receiver_slot(dir, caller) matches Some(s)
        && caller.is_pending(s)) {
        &&& is_done(r, EXIT_TRAP, 0, value, gas, no_head())
        &&& after == before
        &&& iid_after == iid
    } else {
        exists|parent: KernelFrame, d: Result<Option<KernelFrame>, u32>|
            #[trigger] call_done(dir, caller, parent, t as usize, d) && call_answered(
                kernel,
                before,
                after,
                iid,
                iid_after,
                parent,
                d,
                gas,
                value,
                r,
            )
    }
}

/// What a kernel call comes to once it was paid for.
pub open spec fn op_done(
    kernel: Kernel,
    kernel_after: Kernel,
    before: Seq<StackEntry>,
    after: KernelTask,
    gas: TaskGasState,
    iid: u64,
    info: ExitInfo,
    r: Result<TaskPoll, u32>,
) -> bool {
    let top = before.len() - 1;
    let t = before[top].target as int;
    let op = op_of(info);
    let value = info.regs@[7];
    &&& op != OP_DERIVE_SPAWN ==> kernel_after == kernel
    &&& op != OP_HOST_YIELD ==> after.gas_state == gas
    &&& op != OP_HOST_CALL ==> after.next_iid == iid
    &&& if op == OP_REPLY {
        end_done(before, after.stack@, gas, info, r)
    } else if op == OP_DERIVE_SPAWN {
        spawn_polled(kernel, kernel_after, before, after.stack@, gas, value, r)
    } else if op == OP_IMAGE_HASH_CHAIN {
        identity_polled(kernel, before, after.stack@, gas, value, r)
    } else if op == OP_HOST_YIELD {
        yield_polled(kernel, before, after.stack@, gas, after.gas_state, value, r)
    } else if op == OP_CALL_RESUME {
        if t == top {
            after.stack@ == before && is_done(r, EXIT_TRAP, 0, value, gas, no_head())
        } else {
            resumed(before, after.stack@) && is_pending(r)
        }
    } else if op == OP_DROP_RESUME {
        if t == top {
            after.stack@ == before && is_done(r, EXIT_TRAP, 0, value, gas, no_head())
        } else {
            dropped_above(before, after.stack@, t) && is_pending(r)
        }
    } else if op == OP_HOST_CALL {
        call_polled(kernel, before, after.stack@, iid, after.next_iid, gas, value, r)
    } else {
        after.stack@ == before && is_done(
            r,
            info.exit_reason,
            info.exit_arg,
            value,
            gas,
            no_head(),
        )
    }
}

/// What the end of a run leads to.
pub open spec fn polled(
    kernel: Kernel,
    kernel_after: Kernel,
    before: Seq<StackEntry>,
    gas: TaskGasState,
    iid: u64,
    info: ExitInfo,
    frame_cost: u64,
    after: KernelTask,
    r: Result<TaskPoll, u32>,
) -> bool {
    let top = before.len() - 1;
    let frame = frame_of(before, top);
    let value = info.regs@[7];
    let is_op = info.exit_reason == EXIT_HOST_CALL || info.exit_reason == EXIT_ECALL;
    if !is_op {
        &&& kernel_after == kernel
        &&& after.gas_state == gas
        &&& after.next_iid == iid
        &&& if info.exit_reason == EXIT_HALT {
            end_done(before, after.stack@, gas, info, r)
        } else if info.exit_reason == EXIT_OOG {
            oog_done(kernel, before, after.stack@, gas, info.pc, info.exit_arg, value, r)
        } else {
            after.stack@ == before && is_done(
                r,
                info.exit_reason,
                info.exit_arg,
                value,
                gas,
                no_head(),
            )
        }
    } else if call_refused(kernel, before, info) is Some {
        &&& r == Err::<TaskPoll, u32>(call_refused(kernel, before, info)->0)
        &&& kernel_after == kernel
        &&& after.stack@ == before
        &&& after.gas_state == gas
        &&& after.next_iid == iid
    } else {
        let cost = op_cost(kernel, frame, info, frame_cost);
        if gas.live_gas < cost {
            &&& kernel_after == kernel
            &&& after.gas_state == gas
            &&& after.next_iid == iid
            &&& oog_done(
                kernel,
                before,
                after.stack@,
                gas,
                if info.pc >= 4 {
                    (info.pc - 4) as u32
                } else {
                    0
                },
                0,
                value,
                r,
            )
        } else {
            op_done(kernel, kernel_after, before, after, charged(gas, cost), iid, info, r)
        }
    }
}

/// Whether a run was handed out with what the frame on top has, which is out until the
/// run has ended, and with the gas of its scope.
pub open spec fn handed_out(before: KernelTask, after: KernelTask, run: EntryRun) -> bool {
    let t = before.stack@.last().target as int;
    let was = own_frame(before.stack@[t]);
    let now = own_frame(after.stack@[t]);
    &&& after.stack@ == with_frame(before.stack@, t, now)
    &&& now == (KernelFrame {
        mem: now.mem,
        mat_state: now.mat_state,
        ro_units: now.ro_units,
        runtime: None,
        ..was
    })
    &&& after.gas_state.switched(&before.gas_state, before.stack@.last().gas.scope())
    &&& run.gas == after.gas_state.live_gas
    &&& run.lane == before.lane
    &&& run.image_hash == was.image_hash
    &&& run.pc == was.pc as u32
    &&& run.regs == was.regs
    &&& run.mem == was.mem
    &&& run.mat_state == was.mat_state
    &&& run.ro_units == was.ro_units
    &&& run.runtime == was.runtime
}

/// What starting an invocation of a published instance comes to.
pub open spec fn task_made(
    kernel: Kernel,
    instance_hash: CapHash,
    endpoint_idx: u32,
    args: Seq<u64>,
    initial_gas: i64,
    id: u64,
    lane: ExecutionLane,
    r: Result<KernelTask, u32>,
) -> bool {
    if !kernel.directory@.contains_key(instance_hash) {
        r == Err::<KernelTask, u32>(ERR_INSTANCE_NOT_FOUND)
    } else {
        match *kernel.directory@[instance_hash] {
            WireCap::Instance(w) => exists|inst: ResidentInstance, built: Result<KernelFrame, u32>|
                #[trigger] is_from_wire(inst, w) && #[trigger] task_started(
                    kernel,
                    endpoint_idx,
                    args,
                    initial_gas,
                    id,
                    lane,
                    inst,
                    built,
                    r,
                ),
            _ => r == Err::<KernelTask, u32>(ERR_INSTANCE_KIND),
        }
    }
}

/// Whether a task is `inst`, about to run, or why there is none.
pub open spec fn task_started(
    kernel: Kernel,
    endpoint_idx: u32,
    args: Seq<u64>,
    initial_gas: i64,
    id: u64,
    lane: ExecutionLane,
    inst: ResidentInstance,
    built: Result<KernelFrame, u32>,
    r: Result<KernelTask, u32>,
) -> bool {
    let dir = kernel.directory@;
    &&& frame_built(dir, inst, None, (endpoint_idx & 0xFF) as u8, args, built)
    &&& match built {
        Err(e) => r == Err::<KernelTask, u32>(e),
        Ok(frame) => match frame_meters(dir, frame) {
            Err(e) => r == Err::<KernelTask, u32>(e),
            Ok(meters) => r matches Ok(task) && {
                &&& task.id == id
                &&& task.lane == lane
                &&& task.next_iid == 1
                &&& task.stack@.len() == 1
                &&& task.stack@[0].kind == EntryKind::Instance(Box::new(frame))
                &&& task.stack@[0].target == 0
                &&& task.stack@[0].instance_id == 0
                &&& task.stack@[0].owner is None
                &&& task.stack@[0].owner_catch_set@ == Seq::<Key>::empty()
                &&& match meters {
                    Some(m) => draws_on(task.stack@[0].gas, m),
                    None => task.stack@[0].gas.meters@.len() == 0
                        && task.stack@[0].gas.active is None,
                }
                &&& task.gas_state.root() == task.stack@[0].gas.scope()
                &&& task.gas_state.in_use() == task.stack@[0].gas.scope()
                &&& task.gas_state.live_gas == initial_gas
                &&& task.gas_state.host_budget == initial_gas
                &&& task.gas_state.meters@ == (match task.gas_state.root() {
                    Some(k) => Map::empty().insert(k, initial_gas),
                    None => Map::empty(),
                })
                &&& task.gas_state.balance(None) == initial_gas
                &&& forall|k: Seq<u8>|
                    Some(k) != task.gas_state.root() ==> #[trigger] task.gas_state.balance(Some(k))
                        == 0
            },
        },
    }
}

proof fn lemma_ended_nonempty(before: Seq<StackEntry>, after: Seq<StackEntry>, value: u64)
    requires
        stack_wf(before),
        before.len() > 0,
        ended(before, after, value, false),
    ensures
        after.len() > 0,
{
    let top = before.len() - 1;
    let handler = before[top].target as int;
    assert(entry_wf(before, top));
    if handler != top {
        let mid = choose|mid: Seq<StackEntry>| #[trigger]
            dropped_above(before, mid, handler) && crate::kernel::transfer::returned(
                mid,
                after,
                value,
                false,
            );
        let full = choose|full: Seq<StackEntry>| #[trigger]
            crate::kernel::stack::released(before, full, handler + 1) && mid == full.take(
                handler + 1,
            );
        crate::kernel::stack::lemma_released_prefix(before, full, handler + 1);
        if handler > 0 {
            assert(entry_wf(mid, handler - 1));
        }
    } else if top > 0 {
        assert(entry_wf(before, top - 1));
    }
}

impl KernelTask {
    /// The stack is as it should be and something is on it.
    pub open spec fn wf(&self) -> bool {
        stack_wf(self.stack@) && self.stack@.len() > 0
    }

    /// Start an invocation of the published instance under `instance_hash`, from the
    /// endpoint that the low byte of `endpoint_idx` selects.
    pub fn new(
        kernel: &Kernel,
        id: u64,
        lane: ExecutionLane,
        instance_hash: &CapHash,
        endpoint_idx: u32,
        args: &[u64; 4],
        initial_gas: i64,
    ) -> (r: Result<KernelTask, u32>)
        ensures
            task_made(
                *kernel,
                *instance_hash,
                endpoint_idx,
                args@,
                initial_gas,
                id,
                lane,
                r,
            ),
            r matches Ok(task) ==> task.wf(),
    {
        let inst = match kernel.directory.get(instance_hash) {
            None => return Err(ERR_INSTANCE_NOT_FOUND),
            Some(cap) => match &**cap {
                WireCap::Instance(w) => from_wire(w),
                _ => return Err(ERR_INSTANCE_KIND),
            },
        };
        let ghost published = inst;
        assert(endpoint_idx & 0xFF <= 0xFF) by (bit_vector);
        let selector: u8 = (endpoint_idx & 0xFF) as u8;
        let built = build_frame(&kernel.directory, inst, None, selector, args);
        let ghost made = built;
        let frame = match built {
            Ok(f) => f,
            Err(e) => {
                assert(task_started(
                    *kernel,
                    endpoint_idx,
                    args@,
                    initial_gas,
                    id,
                    lane,
                    published,
                    made,
                    Err(e),
                ));
                return Err(e);
            },
        };
        let resolved = match resolve_frame_gas(&kernel.directory, &frame) {
            Ok(g) => g,
            Err(e) => {
                assert(task_started(
                    *kernel,
                    endpoint_idx,
                    args@,
                    initial_gas,
                    id,
                    lane,
                    published,
                    made,
                    Err(e),
                ));
                return Err(e);
            },
        };
        let gas = match resolved {
            Some(g) => g,
            None => FrameGas::host_budgeted(),
        };
        let gas_state = TaskGasState::new(&gas, initial_gas);
        let mut stack: Vec<StackEntry> = Vec::new();
        stack.push(
            StackEntry {
                kind: EntryKind::Instance(Box::new(frame)),
                target: 0,
                instance_id: 0,
                owner: None,
                owner_catch_set: Vec::new(),
                gas,
            },
        );
        let task = KernelTask { id, lane, stack, next_iid: 1, gas_state };
        proof {
            assert(task.stack@[0].owner_catch_set@ =~= Seq::<Key>::empty());
            lemma_root_only(task.stack@);
            assert(task_started(
                *kernel,
                endpoint_idx,
                args@,
                initial_gas,
                id,
                lane,
                published,
                made,
                Ok(task),
            ));
        }
        Ok(task)
    }

    fn outcome(
        &self,
        exit_reason: u32,
        exit_arg: u32,
        return_value: u64,
        scratchpad_head: [u8; SCRATCHPAD_HEAD_LEN],
    ) -> (poll: Result<TaskPoll, u32>)
        ensures
            is_done(
                poll,
                exit_reason,
                exit_arg,
                return_value,
                self.gas_state,
                scratchpad_head@,
            ),
    {
        Ok(
            TaskPoll::Done(
                LoopOutcome {
                    exit_reason,
                    exit_arg,
                    return_value,
                    gas_remaining: self.gas_state.root_remaining(),
                    scratchpad_head,
                },
            ),
        )
    }

    /// What runs next: the frame on top, funded by its scope. Its memory and its
    /// address space go along and come back with the end of the run.
    pub fn begin_entry(&mut self) -> (run: EntryRun)
        requires
            old(self).wf(),
        ensures
            final(self).wf(),
            handed_out(*old(self), *final(self), run),
            final(self).id == old(self).id,
            final(self).lane == old(self).lane,
            final(self).next_iid == old(self).next_iid,
            final(self).gas_state.switched(
                &old(self).gas_state,
                old(self).stack@.last().gas.scope(),
            ),
            run.gas == final(self).gas_state.live_gas,
            run.lane == old(self).lane,
            ({
                let t = old(self).stack@.last().target as int;
                let before = own_frame(old(self).stack@[t]);
                let after = own_frame(final(self).stack@[t]);
                &&& final(self).stack@ == with_frame(old(self).stack@, t, after)
                &&& after == (KernelFrame {
                    mem: after.mem,
                    mat_state: after.mat_state,
                    ro_units: after.ro_units,
                    runtime: None,
                    ..before
                })
                &&& after.mem.backing@.len() == 0 && after.mem.overlay@.len() == 0
                &&& after.mat_state@.len() == 0 && after.ro_units@.len() == 0
                &&& run.image_hash == before.image_hash
                &&& run.pc == before.pc as u32
                &&& run.regs == before.regs
                &&& run.mem == before.mem
                &&& run.mat_state == before.mat_state
                &&& run.ro_units == before.ro_units
                &&& run.runtime == before.runtime
            }),
    {
        let ghost before = self.stack@;
        let top_idx: usize = self.stack.len() - 1;
        assert(entry_wf(before, top_idx as int));
        let scope = self.stack[top_idx].gas.active_key();
        self.gas_state.reconcile(scope);
        let ghost t = before[top_idx as int].target as int;
        let gas: i64 = self.gas_state.live_gas;
        let lane = self.lane;
        assert(entry_wf(before, t));
        let frame = frame_at_mut(&mut self.stack, top_idx);
        let mut mem = DataMem::empty();
        std::mem::swap(&mut mem, &mut frame.mem);
        let mut mat_state: Vec<u8> = Vec::new();
        std::mem::swap(&mut mat_state, &mut frame.mat_state);
        let mut ro_units: Vec<u32> = Vec::new();
        std::mem::swap(&mut ro_units, &mut frame.ro_units);
        let mut runtime: Option<FrameRuntime> = None;
        std::mem::swap(&mut runtime, &mut frame.runtime);
        let run = EntryRun {
            lane,
            image_hash: frame.image_hash,
            pc: frame.pc as u32,
            regs: frame.regs,
            gas,
            mem,
            mat_state,
            ro_units,
            runtime,
        };
        proof {
            let f = own_frame(self.stack@[t]);
            assert(self.stack@ =~= with_frame(before, t, f));
            lemma_frame_changed(before, t, f);
        }
        run
    }

    fn poll_end(&mut self, info: &ExitInfo) -> (r: Result<TaskPoll, u32>)
        requires
            old(self).wf(),
        ensures
            end_done(old(self).stack@, final(self).stack@, old(self).gas_state, *info, r),
            *final(self) == (KernelTask { stack: final(self).stack, ..*old(self) }),
            stack_wf(final(self).stack@),
            is_pending(r) ==> final(self).wf(),
    {
        let ghost before = self.stack@;
        let top_idx: usize = self.stack.len() - 1;
        assert(entry_wf(before, top_idx as int));
        let head: [u8; SCRATCHPAD_HEAD_LEN] = if self.stack[top_idx].target == 0 {
            read_scratchpad_head(frame_at(&self.stack, top_idx))
        } else {
            empty_head()
        };
        match end_top(&mut self.stack, info.regs[7]) {
            Ok(true) => self.outcome(info.exit_reason, info.exit_arg, info.regs[7], head),
            Ok(false) => {
                proof {
                    lemma_ended_nonempty(before, self.stack@, info.regs@[7]);
                }
                Ok(TaskPoll::Pending)
            },
            Err(e) => Err(e),
        }
    }

    fn poll_oog(&mut self, kernel: &Kernel, pc: u32, arg: u32, value: u64) -> (r: Result<
        TaskPoll,
        u32,
    >)
        requires
            old(self).wf(),
        ensures
            oog_done(
                *kernel,
                old(self).stack@,
                final(self).stack@,
                old(self).gas_state,
                pc,
                arg,
                value,
                r,
            ),
            *final(self) == (KernelTask { stack: final(self).stack, ..*old(self) }),
            final(self).wf(),
    {
        let top_idx: usize = self.stack.len() - 1;
        let ghost before = self.stack@;
        let handled = try_oog_yield(&mut self.stack, top_idx, pc, &kernel.config.gas_image);
        proof {
            lemma_oog_nonempty(
                before,
                self.stack@,
                top_idx as int,
                pc,
                kernel.config.gas_image,
                handled,
            );
        }
        if handled {
            Ok(TaskPoll::Pending)
        } else {
            self.outcome(EXIT_OOG, arg, value, empty_head())
        }
    }

    fn poll_spawn(&mut self, kernel: &mut Kernel, value: u64) -> (r: Result<TaskPoll, u32>)
        requires
            old(self).wf(),
        ensures
            spawn_polled(
                *old(kernel),
                *final(kernel),
                old(self).stack@,
                final(self).stack@,
                old(self).gas_state,
                value,
                r,
            ),
            *final(self) == (KernelTask { stack: final(self).stack, ..*old(self) }),
            final(self).wf(),
    {
        let ghost before = self.stack@;
        let ghost gas = self.gas_state;
        let top_idx: usize = self.stack.len() - 1;
        assert(entry_wf(before, top_idx as int));
        let ghost t = before[top_idx as int].target as int;
        assert(entry_wf(before, t));
        let frame = frame_at_mut(&mut self.stack, top_idx);
        let d = kernel.dispatch_derive_spawn(frame);
        proof {
            let f = own_frame(self.stack@[t]);
            assert(self.stack@ =~= with_frame(before, t, f));
            lemma_frame_changed(before, t, f);
        }
        match d {
            Err(e) => {
                assert(trap_or_go_on(d, gas, value, Err(e)));
                Err(e)
            },
            Ok(true) => {
                let r = self.outcome(EXIT_TRAP, 0, value, empty_head());
                assert(trap_or_go_on(d, gas, value, r));
                r
            },
            Ok(false) => {
                assert(trap_or_go_on(d, gas, value, Ok(TaskPoll::Pending)));
                Ok(TaskPoll::Pending)
            },
        }
    }

    fn poll_identity(&mut self, kernel: &Kernel, value: u64) -> (r: Result<TaskPoll, u32>)
        requires
            old(self).wf(),
        ensures
            identity_polled(
                *kernel,
                old(self).stack@,
                final(self).stack@,
                old(self).gas_state,
                value,
                r,
            ),
            *final(self) == (KernelTask { stack: final(self).stack, ..*old(self) }),
            final(self).wf(),
    {
        let ghost before = self.stack@;
        let ghost gas = self.gas_state;
        let top_idx: usize = self.stack.len() - 1;
        assert(entry_wf(before, top_idx as int));
        let ghost t = before[top_idx as int].target as int;
        assert(entry_wf(before, t));
        let frame = frame_at_mut(&mut self.stack, top_idx);
        let d = kernel.dispatch_image_hash_chain(frame);
        proof {
            let f = own_frame(self.stack@[t]);
            assert(self.stack@ =~= with_frame(before, t, f));
            lemma_frame_changed(before, t, f);
        }
        match d {
            Err(e) => {
                assert(trap_or_go_on(d, gas, value, Err(e)));
                Err(e)
            },
            Ok(true) => {
                let r = self.outcome(EXIT_TRAP, 0, value, empty_head());
                assert(trap_or_go_on(d, gas, value, r));
                r
            },
            Ok(false) => {
                assert(trap_or_go_on(d, gas, value, Ok(TaskPoll::Pending)));
                Ok(TaskPoll::Pending)
            },
        }
    }

    fn poll_yield(&mut self, kernel: &Kernel, value: u64) -> (r: Result<TaskPoll, u32>)
        requires
            old(self).wf(),
        ensures
            yield_polled(
                *kernel,
                old(self).stack@,
                final(self).stack@,
                old(self).gas_state,
                final(self).gas_state,
                value,
                r,
            ),
            *final(self) == (KernelTask {
                stack: final(self).stack,
                gas_state: final(self).gas_state,
                ..*old(self)
            }),
            final(self).wf(),
    {
        let ghost before = self.stack@;
        let ghost gas = self.gas_state;
        let top_idx: usize = self.stack.len() - 1;
        assert(entry_wf(before, top_idx as int));
        let ghost t = before[top_idx as int].target as int;
        assert(entry_wf(before, t));
        let frame = frame_at_mut(&mut self.stack, top_idx);
        let outcome = kernel.dispatch_host_yield(frame, &mut self.gas_state);
        let ghost f = own_frame(self.stack@[t]);
        let ghost mid = self.stack@;
        let ghost o = outcome;
        proof {
            assert(mid =~= with_frame(before, t, f));
            lemma_frame_changed(before, t, f);
            assert(yield_done(*kernel, own_frame(before[t]), f, gas, self.gas_state, o));
            assert(entry_wf(mid, top_idx as int));
        }
        match outcome {
            Err(e) => Err(e),
            Ok(YieldOutcome::Inline) => Ok(TaskPoll::Pending),
            Ok(YieldOutcome::Trap) => self.outcome(EXIT_TRAP, 0, value, empty_head()),
            Ok(YieldOutcome::Route { key, sender_slot }) => {
                let payload = frame_at(&self.stack, top_idx).read_instance(
                    &kernel.directory,
                    &sender_slot,
                );
                let ghost copy = payload;
                assert(copied_from(
                    kernel.directory@,
                    frame_of(mid, top_idx as int).slot(sender_slot@),
                    copy,
                ));
                let routed = route_yield(&mut self.stack, top_idx, &key, payload);
                if routed {
                    Ok(TaskPoll::Pending)
                } else {
                    self.outcome(EXIT_TRAP, ERR_YIELD_UNHANDLED, value, empty_head())
                }
            },
        }
    }

    fn poll_call(&mut self, kernel: &Kernel, value: u64) -> (r: Result<TaskPoll, u32>)
        requires
            old(self).wf(),
        ensures
            call_polled(
                *kernel,
                old(self).stack@,
                final(self).stack@,
                old(self).next_iid,
                final(self).next_iid,
                old(self).gas_state,
                value,
                r,
            ),
            *final(self) == (KernelTask {
                stack: final(self).stack,
                next_iid: final(self).next_iid,
                ..*old(self)
            }),
            r is Ok ==> final(self).wf(),
    {
        let ghost before = self.stack@;
        let ghost gas = self.gas_state;
        let ghost dir = kernel.directory@;
        let top_idx: usize = self.stack.len() - 1;
        assert(entry_wf(before, top_idx as int));
        let ghost t = before[top_idx as int].target as int;
        assert(entry_wf(before, t));
        let ghost caller = own_frame(before[t]);
        let owner: usize = self.stack[top_idx].target;
        let slot = Key::from_reg(frame_at(&self.stack, top_idx).regs[7]);
        if frame_at(&self.stack, top_idx).slot_is_pending(&slot) {
            return self.outcome(EXIT_TRAP, 0, value, empty_head());
        }
        let catch_set = match snapshot_catch_set(
            &kernel.directory,
            frame_at(&self.stack, top_idx),
        ) {
            Some(set) => set,
            None => return self.outcome(EXIT_TRAP, 0, value, empty_head()),
        };
        let parent = frame_at_mut(&mut self.stack, top_idx);
        let dispatched = kernel.dispatch_host_call(parent, owner);
        let ghost d = dispatched;
        let ghost parent_mid = *parent;
        assert(call_done(dir, caller, parent_mid, t as usize, d));
        let mut child = match dispatched {
            Err(e) => {
                assert(self.stack@ =~= with_frame(before, t, parent_mid));
                return Err(e);
            },
            Ok(None) => {
                proof {
                    assert(self.stack@ =~= with_frame(before, t, parent_mid));
                    lemma_frame_changed(before, t, parent_mid);
                }
                return self.outcome(EXIT_TRAP, 0, value, empty_head());
            },
            Ok(Some(child)) => child,
        };
        let ghost child_mid = child;
        let scratch = parent.cnode.remove(&Key::from_byte(SCRATCHPAD_SLOT));
        if let Some(cap) = scratch {
            child.cnode.insert(Key::from_byte(SCRATCHPAD_SLOT), cap);
        }
        let ghost parent_after = own_frame(self.stack@[t]);
        let ghost child_after = child;
        assert(scratch_moved(parent_mid, parent_after, child_mid, child_after));
        let ghost touched = self.stack@;
        assert(touched =~= with_frame(before, t, parent_after));
        let child_idx: usize = self.stack.len();
        let id: u64 = self.next_iid;
        self.next_iid = id.wrapping_add(1);
        let resolved = match resolve_frame_gas(&kernel.directory, &child) {
            Ok(g) => g,
            Err(e) => return Err(e),
        };
        let gas_scope = match resolved {
            Some(g) => g,
            None => self.stack[top_idx].gas.duplicate(),
        };
        let entry = StackEntry {
            kind: EntryKind::Instance(Box::new(child)),
            target: child_idx,
            instance_id: id,
            owner: Some(owner),
            owner_catch_set: catch_set,
            gas: gas_scope,
        };
        let ghost pushed = entry;
        self.stack.push(entry);
        let _len: usize = self.stack.len();
        proof {
            assert(self.stack@.drop_last() =~= touched);
            assert(is_call_entry(dir, before, id, child_after, pushed));
            let key = reg_key(caller.regs@[7]);
            let inst = choose|inst: ResidentInstance| #[trigger]
                is_called(dir, caller.slot(key)->0, inst) && call_started(
                    dir,
                    caller,
                    parent_mid,
                    t as usize,
                    inst,
                    d,
                );
            lemma_call_pushed(before, parent_after, key, pushed);
            assert(call_answered(
                *kernel,
                before,
                self.stack@,
                id,
                self.next_iid,
                parent_mid,
                d,
                gas,
                value,
                Ok(TaskPoll::Pending),
            ));
        }
        Ok(TaskPoll::Pending)
    }

    /// Go on from the end of a run. `frame_cost` is what making the frame of a call
    /// costs, and only counts if the run ended with one.
    pub fn poll_once(&mut self, kernel: &mut Kernel, exit: EntryExit, frame_cost: u64) -> (r: Result<
        TaskPoll,
        u32,
    >)
        requires
            old(self).wf(),
        ensures
            polled(
                *old(kernel),
                *final(kernel),
                stack_landed(old(self).stack@, exit),
                (TaskGasState { live_gas: exit.info.gas_remaining, ..old(self).gas_state }),
                old(self).next_iid,
                exit.info,
                frame_cost,
                *final(self),
                r,
            ),
            final(self).id == old(self).id,
            final(self).lane == old(self).lane,
            is_pending(r) ==> final(self).wf(),
    {
        let ghost stack = self.stack@;
        let top_idx: usize = self.stack.len() - 1;
        assert(entry_wf(stack, top_idx as int));
        let ghost t = stack[top_idx as int].target as int;
        assert(entry_wf(stack, t));
        let ghost done = exit;
        let info: ExitInfo = exit.info;
        self.gas_state.live_gas = info.gas_remaining;
        let frame = frame_at_mut(&mut self.stack, top_idx);
        frame.regs = info.regs;
        frame.pc = info.pc as u64;
        frame.mem = exit.mem;
        frame.mat_state = exit.mat_state;
        frame.ro_units = exit.ro_units;
        frame.runtime = exit.runtime;
        let ghost before = self.stack@;
        let ghost gas = self.gas_state;
        proof {
            let f = landed(own_frame(stack[t]), done);
            assert(before =~= stack_landed(stack, done));
            lemma_frame_changed(stack, t, f);
            assert(entry_wf(before, top_idx as int));
            assert(entry_wf(before, t));
        }
        let value: u64 = info.regs[7];
        if info.exit_reason == EXIT_HALT {
            return self.poll_end(&info);
        }
        if info.exit_reason == EXIT_OOG {
            return self.poll_oog(kernel, info.pc, info.exit_arg, value);
        }
        if info.exit_reason != EXIT_HOST_CALL && info.exit_reason != EXIT_ECALL {
            return self.outcome(info.exit_reason, info.exit_arg, value, empty_head());
        }
        let op: u32 = if info.exit_reason == EXIT_HOST_CALL {
            info.exit_arg
        } else {
            info.regs[11] as u32
        };
        let fixed: u64 = if info.exit_reason == EXIT_HOST_CALL {
            kernel.config.ecalli_cost
        } else {
            kernel.config.ecall_cost
        };
        let call: u64 = if op == OP_HOST_CALL {
            if self.stack.len() >= MAX_DEPTH {
                return Err(ERR_DEPTH_LIMIT);
            }
            match host_call_frame_cost(&kernel.directory, frame_at(&self.stack, top_idx)) {
                Err(e) => return Err(e),
                Ok(None) => 0,
                Ok(Some(_)) => if frame_cost <= i64::MAX as u64 {
                    frame_cost
                } else {
                    i64::MAX as u64
                },
            }
        } else {
            0
        };
        let total: i128 = fixed as i128 + call as i128;
        assert(total == op_cost(*kernel, frame_of(before, top_idx as int), info, frame_cost));
        if (self.gas_state.live_gas as i128) < total {
            let pc: u32 = if info.pc >= 4 {
                info.pc - 4
            } else {
                0
            };
            return self.poll_oog(kernel, pc, 0, value);
        }
        let left: i128 = self.gas_state.live_gas as i128 - total;
        self.gas_state.live_gas = left as i64;
        assert(self.gas_state == charged(gas, total as int));
        if op == OP_REPLY {
            self.poll_end(&info)
        } else if op == OP_DERIVE_SPAWN {
            self.poll_spawn(kernel, value)
        } else if op == OP_IMAGE_HASH_CHAIN {
            self.poll_identity(kernel, value)
        } else if op == OP_HOST_YIELD {
            self.poll_yield(kernel, value)
        } else if op == OP_CALL_RESUME {
            if self.stack[top_idx].target == top_idx {
                return self.outcome(EXIT_TRAP, 0, value, empty_head());
            }
            resume_yielder(&mut self.stack);
            Ok(TaskPoll::Pending)
        } else if op == OP_DROP_RESUME {
            if self.stack[top_idx].target == top_idx {
                return self.outcome(EXIT_TRAP, 0, value, empty_head());
            }
            let handler: usize = self.stack[top_idx].target;
            drop_above(&mut self.stack, handler);
            Ok(TaskPoll::Pending)
        } else if op == OP_HOST_CALL {
            self.poll_call(kernel, value)
        } else {
            self.outcome(info.exit_reason, info.exit_arg, value, empty_head())
        }
    }
}

proof fn lemma_root_only(stack: Seq<StackEntry>)
    requires
        stack.len() == 1,
        has_frame(stack[0]),
        stack[0].target == 0,
        stack[0].owner is None,
        stack[0].gas.wf(),
        own_frame(stack[0]).origin is None,
        own_frame(stack[0]).pending@ == Map::<Seq<u8>, ()>::empty(),
    ensures
        stack_wf(stack),
{
    assert(entry_wf(stack, 0));
    assert(reservations_wf(stack, 0));
}

proof fn lemma_oog_nonempty(
    before: Seq<StackEntry>,
    after: Seq<StackEntry>,
    top: int,
    pc: u32,
    gas_image: CapHash,
    handled: bool,
)
    requires
        oog_handled(before, after, top, pc, gas_image, handled),
        0 <= top < before.len(),
    ensures
        after.len() > 0,
{
}

} // verus!
