//! What the end of a run leads to.
use vstd::prelude::*;

use crate::hash::{blake2b256, CapHash};
use crate::kernel::call_laws::{named, role_in};
use crate::kernel::call_loop::{
    polled, yield_answered, KernelTask, TaskPoll, EXIT_ECALL, EXIT_HALT, EXIT_HOST_CALL, EXIT_OOG,
};
use crate::kernel::caps::{KernelImageCap, Role, WireCap, WireTarget};
use crate::kernel::dispatch::Kernel;
use crate::kernel::frame::{CapMap, KernelFrame, ResidentInstance, Root, Target};
use crate::kernel::gas::TaskGasState;
use crate::kernel::key::{reg_key, Key};
use crate::kernel::runtime::ExitInfo;
use crate::kernel::stack::{entry_wf, own_frame, stack_wf, with_frame, StackEntry};
use crate::kernel::transfer::{catcher_of, oog_handled, reattempts, yielded};
use crate::kernel::yields::{is_handle, label, yield_done, YieldOutcome};

verus! {

/// Whether a run has ended with kernel call `op`.
pub open spec fn asks_for(info: ExitInfo, op: u32) -> bool {
    ||| info.exit_reason == EXIT_HOST_CALL && info.exit_arg == op
    ||| info.exit_reason == EXIT_ECALL && info.regs@[11] as u32 == op
}

/// Whether the gas in use pays for a kernel call of this kind.
pub open spec fn can_pay(kernel: Kernel, gas: TaskGasState, info: ExitInfo) -> bool {
    gas.live_gas >= if info.exit_reason == EXIT_HOST_CALL {
        kernel.config.ecalli_cost
    } else {
        kernel.config.ecall_cost
    }
}

/// What an entry runs.
pub open spec fn frame_in(stack: Seq<StackEntry>, i: int) -> KernelFrame {
    *stack[i].kind->Instance_0
}

/// The scratchpad slot.
pub open spec fn scratch() -> Seq<u8> {
    seq![0u8]
}

proof fn lemma_scratch()
    ensures
        crate::kernel::key::byte_key(0u8) == scratch(),
{
    assert(crate::kernel::key::byte_key(0u8) =~= seq![0u8]);
}

proof fn lemma_named(reg: u64)
    ensures
        reg_key(reg) == named(reg),
{
    assert((reg & 0xFF) == reg % 256) by (bit_vector);
    assert((reg & 0xFF) <= 0xFF) by (bit_vector);
    assert((reg & 0xFF) as u8 == reg % 256);
}

/// Whether `after` holds in slot `k` what `before` held.
pub open spec fn same_slot(before: KernelFrame, after: KernelFrame, k: Seq<u8>) -> bool {
    &&& after.cnode@.contains_key(k) == before.cnode@.contains_key(k)
    &&& before.cnode@.contains_key(k) ==> after.cnode@[k] == before.cnode@[k]
}

/// The reply of a called frame gives its caller the value in register 7 and the status
/// zero in register 8, its scratchpad if it left one, and in the slot that was called
/// the instance with the memory, registers, pc and slots that the run has left. The
/// slot is free again; nothing else of the caller changes.
pub proof fn law_reply_gives_the_instance_back(
    kernel: Kernel,
    kernel_after: Kernel,
    before: Seq<StackEntry>,
    gas: TaskGasState,
    iid: u64,
    info: ExitInfo,
    frame_cost: u64,
    after: KernelTask,
    r: Result<TaskPoll, u32>,
    k: Seq<u8>,
)
    requires
        stack_wf(before),
        before.len() >= 2,
        before.last().target == before.len() - 1,
        polled(kernel, kernel_after, before, gas, iid, info, frame_cost, after, r),
        info.exit_reason == EXIT_HALT || asks_for(info, 0),
        after.stack@.len() < before.len(),
    ensures
        ({
            let p = before[before.len() - 2].target as int;
            let callee = frame_in(before, before.len() - 1);
            let was = frame_in(before, p);
            let now = frame_in(after.stack@, p);
            &&& r matches Ok(TaskPoll::Pending)
            &&& after.stack@.len() == before.len() - 1
            &&& forall|q: int|
                0 <= q < before.len() - 1 && q != p ==> #[trigger] after.stack@[q] == before[q]
            &&& now.regs@[7] == info.regs@[7]
            &&& now.regs@[8] == 0
            &&& forall|x: int|
                0 <= x < 13 && x != 7 && x != 8 ==> #[trigger] now.regs@[x] == was.regs@[x]
            &&& now.pc == was.pc
            &&& now.mem == was.mem
            &&& now.origin == was.origin
            &&& callee.origin matches Some(o) && {
                &&& now.cnode@.contains_key(o.slot@)
                &&& now.cnode@[o.slot@] matches Target::Instance(i) && {
                    &&& i.image_hash_chain == callee.image_hash_chain
                    &&& i.image_hash == callee.image_hash
                    &&& i.mem == callee.mem
                    &&& i.regs@ == callee.regs@
                    &&& i.pc == callee.pc
                    &&& i.gas_remaining == 0
                    &&& *i.role == *callee.role
                    &&& i.runtime is Some == callee.runtime is Some
                    &&& i.root matches Root::Resident(c) && {
                        &&& !c@.contains_key(scratch())
                        &&& k != scratch() ==> c@.contains_key(k) == callee.cnode@.contains_key(k)
                        &&& k != scratch() && callee.cnode@.contains_key(k) ==> c@[k]
                            == callee.cnode@[k]
                    }
                }
                &&& !now.pending@.contains_key(o.slot@)
                &&& k != o.slot@ ==> now.pending@.contains_key(k) == was.pending@.contains_key(k)
                &&& k != o.slot@ && k != scratch() ==> same_slot(was, now, k)
                &&& k != o.slot@ && k == scratch() && callee.cnode@.contains_key(k) ==> {
                    &&& now.cnode@.contains_key(k)
                    &&& now.cnode@[k] == callee.cnode@[k]
                }
                &&& k != o.slot@ && k == scratch() && !callee.cnode@.contains_key(k) ==> same_slot(
                    was,
                    now,
                    k,
                )
            }
        }),
{
    let n = before.len() as int;
    assert(entry_wf(before, n - 1));
    assert(entry_wf(before, n - 2));
    lemma_scratch();
    lemma_oog_keeps_entries(kernel, kernel_after, before, gas, iid, info, frame_cost, after, r);
    let p = before[n - 2].target as int;
    assert(before.drop_last()[p] == before[p]);
}

/// Running out of gas drops no entry.
proof fn lemma_oog_keeps_entries(
    kernel: Kernel,
    kernel_after: Kernel,
    before: Seq<StackEntry>,
    gas: TaskGasState,
    iid: u64,
    info: ExitInfo,
    frame_cost: u64,
    after: KernelTask,
    r: Result<TaskPoll, u32>,
)
    requires
        stack_wf(before),
        before.len() > 0,
    ensures
        forall|pc: u32, image: CapHash, handled: bool| #[trigger]
            oog_handled(before, after.stack@, before.len() - 1, pc, image, handled)
                ==> after.stack@.len() >= before.len(),
{
    let top = before.len() - 1;
    assert forall|pc: u32, image: CapHash, handled: bool| #[trigger]
        oog_handled(before, after.stack@, top, pc, image, handled) implies after.stack@.len()
        >= before.len() by {
        let gas = before[top].gas;
        if let Some(a) = gas.active {
            if a + 1 >= gas.meters@.len() {
                let (mid, payload) = choose|mid: Seq<StackEntry>, payload: ResidentInstance|
                    #![trigger reattempts(before, mid, top, pc, Some(0usize)), is_handle(
                        payload,
                        image,
                    )]
                    {
                        &&& reattempts(before, mid, top, pc, Some(0usize))
                        &&& is_handle(payload, image)
                        &&& *payload.role matches Role::Gas(k)
                        &&& k@ == gas.meters@[0]@
                        &&& yielded(
                            mid,
                            after.stack@,
                            top,
                            label("kernel:oog"@),
                            Some(payload),
                            handled,
                        )
                    };
            }
        }
    }
}

/// The reply of the first frame ends the task: its outcome has the value in register 7,
/// the gas of the invocation and the first bytes of the frame's memory.
pub proof fn law_last_reply_ends_the_task(
    kernel: Kernel,
    kernel_after: Kernel,
    before: Seq<StackEntry>,
    gas: TaskGasState,
    iid: u64,
    info: ExitInfo,
    frame_cost: u64,
    after: KernelTask,
    r: Result<TaskPoll, u32>,
)
    requires
        stack_wf(before),
        before.len() == 1,
        polled(kernel, kernel_after, before, gas, iid, info, frame_cost, after, r),
        info.exit_reason == EXIT_HALT,
    ensures
        after.stack@.len() == 0,
        after.gas_state == gas,
        r matches Ok(TaskPoll::Done(o)) && {
            &&& o.exit_reason == info.exit_reason
            &&& o.exit_arg == info.exit_arg
            &&& o.return_value == info.regs@[7]
            &&& o.gas_remaining == gas.balance(gas.root())
            &&& forall|i: int|
                0 <= i < 128 ==> #[trigger] o.scratchpad_head@[i] == (if frame_in(
                    before,
                    0,
                ).mem.backing@.len() > 0 {
                    frame_in(before, 0).mem.byte(i)
                } else {
                    0
                })
        },
{
    assert(entry_wf(before, 0));
}

/// A run that ended in another way than with a reply, a kernel call or without gas
/// ends the task with that reason; nothing else happens.
pub proof fn law_failed_run_ends_the_task(
    kernel: Kernel,
    kernel_after: Kernel,
    before: Seq<StackEntry>,
    gas: TaskGasState,
    iid: u64,
    info: ExitInfo,
    frame_cost: u64,
    after: KernelTask,
    r: Result<TaskPoll, u32>,
)
    requires
        before.len() > 0,
        polled(kernel, kernel_after, before, gas, iid, info, frame_cost, after, r),
        info.exit_reason != EXIT_HALT,
        info.exit_reason != EXIT_OOG,
        info.exit_reason != EXIT_HOST_CALL,
        info.exit_reason != EXIT_ECALL,
    ensures
        kernel_after == kernel,
        after.stack@ == before,
        after.gas_state == gas,
        r matches Ok(TaskPoll::Done(o)) && {
            &&& o.exit_reason == info.exit_reason
            &&& o.exit_arg == info.exit_arg
            &&& o.return_value == info.regs@[7]
            &&& o.gas_remaining == gas.balance(gas.root())
            &&& forall|i: int| 0 <= i < 128 ==> #[trigger] o.scratchpad_head@[i] == 0
        },
{
}

/// A frame that runs out of gas with another meter left goes on with that meter, from
/// where it stopped; nothing else changes.
pub proof fn law_next_meter_goes_on(
    kernel: Kernel,
    kernel_after: Kernel,
    before: Seq<StackEntry>,
    gas: TaskGasState,
    iid: u64,
    info: ExitInfo,
    frame_cost: u64,
    after: KernelTask,
    r: Result<TaskPoll, u32>,
)
    requires
        stack_wf(before),
        before.len() > 0,
        polled(kernel, kernel_after, before, gas, iid, info, frame_cost, after, r),
        info.exit_reason == EXIT_OOG,
        before.last().gas.active is Some,
        before.last().gas.active->0 + 1 < before.last().gas.meters@.len() <= usize::MAX,
    ensures
        r matches Ok(TaskPoll::Pending),
        after.gas_state == gas,
        after.stack@.len() == before.len(),
        ({
            let t = before.last().target as int;
            let a = before.last().gas.active->0;
            &&& after.stack@.last().gas.meters == before.last().gas.meters
            &&& after.stack@.last().gas.active == Some((a + 1) as usize)
            &&& after.stack@.last().gas.scope() == Some(before.last().gas.meters@[a + 1]@)
            &&& frame_in(after.stack@, t) == (KernelFrame {
                pc: info.pc as u64,
                ..frame_in(before, t)
            })
            &&& forall|q: int|
                0 <= q < before.len() - 1 && q != t ==> #[trigger] after.stack@[q] == before[q]
        }),
{
    assert(entry_wf(before, before.len() - 1));
}

/// A frame without meters that runs out of gas ends the task.
pub proof fn law_no_meter_ends_the_task(
    kernel: Kernel,
    kernel_after: Kernel,
    before: Seq<StackEntry>,
    gas: TaskGasState,
    iid: u64,
    info: ExitInfo,
    frame_cost: u64,
    after: KernelTask,
    r: Result<TaskPoll, u32>,
)
    requires
        before.len() > 0,
        polled(kernel, kernel_after, before, gas, iid, info, frame_cost, after, r),
        info.exit_reason == EXIT_OOG,
        before.last().gas.active is None,
    ensures
        after.stack@ == before,
        after.gas_state == gas,
        r matches Ok(TaskPoll::Done(o)) && {
            &&& o.exit_reason == EXIT_OOG
            &&& o.exit_arg == info.exit_arg
            &&& o.return_value == info.regs@[7]
            &&& o.gas_remaining == gas.balance(gas.root())
        },
{
}

/// A frame that runs out of its last meter goes back to its first one, and the nearest
/// owner that catches `kernel:oog` gets a handle to that meter in its scratchpad and
/// the status one in register 8.
pub proof fn law_last_meter_asks_for_gas(
    kernel: Kernel,
    kernel_after: Kernel,
    before: Seq<StackEntry>,
    gas: TaskGasState,
    iid: u64,
    info: ExitInfo,
    frame_cost: u64,
    after: KernelTask,
    r: Result<TaskPoll, u32>,
    c: int,
)
    requires
        stack_wf(before),
        before.len() > 0,
        polled(kernel, kernel_after, before, gas, iid, info, frame_cost, after, r),
        info.exit_reason == EXIT_OOG,
        before.last().gas.active is Some,
        before.last().gas.active->0 + 1 == before.last().gas.meters@.len(),
        catcher_of(before, before.last().target as int, label("kernel:oog"@)) == Some(c),
    ensures
        r matches Ok(TaskPoll::Pending),
        after.gas_state == gas,
        after.stack@.len() == before.len() + 1,
        after.stack@.last().target == c,
        ({
            let t = before.last().target as int;
            let now = frame_in(after.stack@, c);
            &&& after.stack@[before.len() - 1].gas.active == Some(0usize)
            &&& after.stack@[before.len() - 1].gas.meters == before.last().gas.meters
            &&& frame_in(after.stack@, t).pc == info.pc
            &&& now.regs@[8] == 1
            &&& now.cnode@.contains_key(scratch())
            &&& now.cnode@[scratch()] matches Target::Instance(i) && {
                &&& *i.role matches Role::Gas(k)
                &&& k@ == before.last().gas.meters@[0]@
            }
        }),
{
    let top = before.len() - 1;
    let t = before[top].target as int;
    assert(entry_wf(before, top));
    assert(entry_wf(before, t));
    lemma_scratch();
    let g = before[top].gas;
    let image = kernel.config.gas_image;
    let handled = oog_handled(before, after.stack@, top, info.pc, image, true);
    let (mid, payload) = choose|mid: Seq<StackEntry>, payload: ResidentInstance|
        #![trigger reattempts(before, mid, top, info.pc, Some(0usize)), is_handle(payload, image)]
        {
            &&& reattempts(before, mid, top, info.pc, Some(0usize))
            &&& is_handle(payload, image)
            &&& *payload.role matches Role::Gas(k)
            &&& k@ == g.meters@[0]@
            &&& yielded(
                mid,
                after.stack@,
                top,
                label("kernel:oog"@),
                Some(payload),
                handled,
            )
        };
    assert forall|j: int| 0 <= j < before.len() implies (#[trigger] mid[j]).owner
        == before[j].owner && mid[j].owner_catch_set == before[j].owner_catch_set by {
    }
    lemma_same_catcher(before, mid, t, label("kernel:oog"@));
    crate::kernel::transfer::lemma_catcher(before, t, label("kernel:oog"@));
    assert(after.stack@[top] == after.stack@.drop_last()[top]);
    assert(after.stack@[c] == after.stack@.drop_last()[c]);
    assert(after.stack@[t] == after.stack@.drop_last()[t]);
}

proof fn lemma_same_catcher(
    before: Seq<StackEntry>,
    after: Seq<StackEntry>,
    node: int,
    key: Seq<u8>,
)
    requires
        0 <= node < before.len(),
        forall|j: int|
            0 <= j < before.len() ==> (#[trigger] after[j]).owner == before[j].owner
                && after[j].owner_catch_set == before[j].owner_catch_set,
    ensures
        catcher_of(after, node, key) == catcher_of(before, node, key),
    decreases node,
{
    assert(after[node].owner == before[node].owner);
    if let Some(o) = before[node].owner {
        if !crate::kernel::key::has_key(before[node].owner_catch_set@, key) && o < node {
            lemma_same_catcher(before, after, o as int, key);
        }
    }
}

/// A kernel call costs what the configuration says for its kind, and what makes a
/// frame on top of it for a call of an instance that is not running; this and nothing
/// more is taken from the gas in use.
pub proof fn law_kernel_call_is_paid(
    kernel: Kernel,
    kernel_after: Kernel,
    before: Seq<StackEntry>,
    gas: TaskGasState,
    iid: u64,
    info: ExitInfo,
    frame_cost: u64,
    after: KernelTask,
    r: Result<TaskPoll, u32>,
    cost: int,
)
    requires
        before.len() > 0,
        polled(kernel, kernel_after, before, gas, iid, info, frame_cost, after, r),
        info.exit_reason == EXIT_HOST_CALL || info.exit_reason == EXIT_ECALL,
        !asks_for(info, 16),
        !asks_for(info, 26),
        cost == (if info.exit_reason == EXIT_HOST_CALL {
            kernel.config.ecalli_cost as int
        } else {
            kernel.config.ecall_cost as int
        }),
        gas.live_gas >= cost,
        0 <= cost <= i64::MAX,
        gas.live_gas - cost >= i64::MIN,
    ensures
        after.gas_state.live_gas + cost == gas.live_gas,
        after.gas_state == (TaskGasState { live_gas: after.gas_state.live_gas, ..gas }),
{
}

/// A call that goes on also pays for its frame.
pub proof fn law_call_is_paid(
    kernel: Kernel,
    kernel_after: Kernel,
    before: Seq<StackEntry>,
    gas: TaskGasState,
    iid: u64,
    info: ExitInfo,
    frame_cost: u64,
    after: KernelTask,
    r: Result<TaskPoll, u32>,
    fixed: int,
)
    requires
        stack_wf(before),
        before.len() > 0,
        polled(kernel, kernel_after, before, gas, iid, info, frame_cost, after, r),
        asks_for(info, 26),
        after.stack@.len() == before.len() + 1,
        after.stack@.last().kind is Instance,
        fixed == (if info.exit_reason == EXIT_HOST_CALL {
            kernel.config.ecalli_cost as int
        } else {
            kernel.config.ecall_cost as int
        }),
        frame_cost <= i64::MAX,
    ensures
        gas.live_gas >= fixed + frame_cost,
        after.gas_state.live_gas + fixed + frame_cost == gas.live_gas,
        after.gas_state == (TaskGasState { live_gas: after.gas_state.live_gas, ..gas }),
{
    assert(entry_wf(before, before.len() - 1));
}

/// What a spawn leaves in the slot that register 9 names: a fresh instance of the image
/// that the slot in register 7 holds, or else of the spawner's own image, of the
/// spawner's type extended by the image, with nothing in its slots and zero registers.
/// No other slot changes.
pub proof fn law_spawn_makes_an_instance(
    kernel: Kernel,
    kernel_after: Kernel,
    before: Seq<StackEntry>,
    gas: TaskGasState,
    iid: u64,
    info: ExitInfo,
    frame_cost: u64,
    after: KernelTask,
    r: Result<TaskPoll, u32>,
    image: CapHash,
    k: Seq<u8>,
)
    requires
        stack_wf(before),
        before.len() > 0,
        polled(kernel, kernel_after, before, gas, iid, info, frame_cost, after, r),
        asks_for(info, 18),
        can_pay(kernel, gas, info),
        r matches Ok(TaskPoll::Pending),
        ({
            let f = frame_in(before, before.last().target as int);
            let slot = named(f.regs@[7]);
            if f.cnode@.contains_key(slot) && f.cnode@[slot] is Hash {
                f.cnode@[slot] == Target::Hash(image)
            } else {
                f.image_hash == image
            }
        }),
    ensures
        ({
            let t = before.last().target as int;
            let was = frame_in(before, t);
            let now = frame_in(after.stack@, t);
            let dst = named(was.regs@[9]);
            &&& after.stack@.len() == before.len()
            &&& forall|q: int|
                0 <= q < before.len() && q != t ==> #[trigger] after.stack@[q] == before[q]
            &&& now.regs@ == was.regs@
            &&& now.pc == was.pc
            &&& now.mem == was.mem
            &&& now.cnode@.contains_key(dst)
            &&& now.cnode@[dst] matches Target::Instance(i) && {
                &&& i.image_hash == image
                &&& i.image_hash_chain@ == blake2b256(was.image_hash_chain@ + image@)
                &&& forall|x: int| 0 <= x < 13 ==> #[trigger] i.regs@[x] == 0
                &&& i.pc == 0
                &&& i.gas_remaining == 0
                &&& *i.role is Plain
                &&& i.runtime is None
                &&& i.root matches Root::Wire(WireTarget::Hash(z)) && forall|x: int|
                    0 <= x < 32 ==> #[trigger] z@[x] == 0
                &&& kernel.mem_cache@.contains_key(image) ==> {
                    &&& i.mem.backing@ == kernel.mem_cache@[image].backing@
                    &&& i.mem.overlay@ == kernel.mem_cache@[image].overlay@
                }
                &&& !kernel.mem_cache@.contains_key(image) ==> {
                    &&& i.mem.overlay@.len() == 0
                    &&& *kernel.directory@[image] matches WireCap::Image(img)
                    &&& i.mem.backing@ == crate::kernel::image_mem::composed(
                        kernel.directory@,
                        img,
                        kernel.config.data_base as int,
                    )
                }
            }
            &&& k != dst ==> same_slot(was, now, k)
        }),
{
    let t = before.last().target as int;
    assert(entry_wf(before, before.len() - 1));
    let was = frame_in(before, t);
    lemma_named(was.regs@[7]);
    lemma_named(was.regs@[9]);
    let now = frame_in(after.stack@, t);
    let d = choose|d: Result<bool, u32>| #[trigger]
        crate::kernel::call_loop::trap_or_go_on(
            d,
            after.gas_state,
            info.regs@[7],
            r,
        ) && crate::kernel::dispatch::spawn_done(
            kernel.directory@,
            kernel.mem_cache@,
            kernel.config.data_base,
            was,
            now,
            kernel_after.mem_cache@,
            d,
        );
    assert(d == Ok::<bool, u32>(false));
    if let Target::Instance(i) = now.cnode@[named(was.regs@[9])] {
        if let Root::Wire(WireTarget::Hash(z)) = i.root {
            assert forall|x: int| 0 <= x < 32 implies #[trigger] z@[x] == 0 by {
                assert(crate::kernel::frame::zero_bytes()[x] == 0);
            }
        }
    }
}

/// The hash that tells the type of what a cap stands for: the chain of an instance,
/// the hash of an image.
pub open spec fn type_in(dir: CapMap, target: Target) -> Option<CapHash> {
    match target {
        Target::Instance(i) => Some(i.image_hash_chain),
        Target::Hash(h) => match *dir[h] {
            WireCap::Instance(w) => Some(w.image_hash_chain),
            WireCap::Image(_) => Some(h),
            _ => None,
        },
        Target::Wire(c) => match *c {
            WireCap::Instance(w) => Some(w.image_hash_chain),
            WireCap::Image(img) => Some(img.hash),
            _ => None,
        },
        Target::Bytes(_) => None,
    }
}

/// Reading the identity of a type puts a page into the slot that register 8 names: the
/// hash that tells the type of what the slot in register 7 holds, and zeros.
pub proof fn law_identity_is_the_type(
    kernel: Kernel,
    kernel_after: Kernel,
    before: Seq<StackEntry>,
    gas: TaskGasState,
    iid: u64,
    info: ExitInfo,
    frame_cost: u64,
    after: KernelTask,
    r: Result<TaskPoll, u32>,
    k: Seq<u8>,
)
    requires
        stack_wf(before),
        before.len() > 0,
        polled(kernel, kernel_after, before, gas, iid, info, frame_cost, after, r),
        asks_for(info, 20),
        can_pay(kernel, gas, info),
        r matches Ok(TaskPoll::Pending),
    ensures
        ({
            let t = before.last().target as int;
            let was = frame_in(before, t);
            let now = frame_in(after.stack@, t);
            let src = named(was.regs@[7]);
            let dst = named(was.regs@[8]);
            &&& after.stack@.len() == before.len()
            &&& forall|q: int|
                0 <= q < before.len() && q != t ==> #[trigger] after.stack@[q] == before[q]
            &&& was.cnode@.contains_key(src)
            &&& now.cnode@.contains_key(dst)
            &&& type_in(kernel.directory@, was.cnode@[src]) matches Some(h) && now.cnode@[dst] matches Target::Bytes(
                bytes,
            ) && {
                &&& bytes@.len() == 4096
                &&& forall|x: int| 0 <= x < 32 ==> #[trigger] bytes@[x] == h@[x]
                &&& forall|x: int| 32 <= x < 4096 ==> #[trigger] bytes@[x] == 0
            }
            &&& k != dst ==> same_slot(was, now, k)
            &&& now.regs@ == was.regs@
            &&& now.pc == was.pc
            &&& now.mem == was.mem
        }),
{
    let t = before.last().target as int;
    assert(entry_wf(before, before.len() - 1));
    let was = frame_in(before, t);
    lemma_named(was.regs@[7]);
    lemma_named(was.regs@[8]);
    let now = frame_in(after.stack@, t);
    let d = choose|d: Result<bool, u32>| #[trigger]
        crate::kernel::call_loop::trap_or_go_on(d, after.gas_state, info.regs@[7], r)
            && crate::kernel::dispatch::identity_done(kernel.directory@, was, now, d);
    assert(d == Ok::<bool, u32>(false));
}

/// The keys of what the kernel does itself are different keys.
proof fn lemma_labels_differ()
    ensures
        label("kernel:set_gas_meter"@) != label("kernel:mint_yield"@),
        label("kernel:set_gas_meter"@) != label("kernel:merge_yield_receiver"@),
        label("kernel:set_gas_meter"@) != label("kernel:mint_gas"@),
        label("kernel:set_gas_meter"@) != label("kernel:mint_quota"@),
        label("kernel:mint_yield"@) != label("kernel:merge_yield_receiver"@),
        label("kernel:mint_yield"@) != label("kernel:mint_gas"@),
        label("kernel:mint_yield"@) != label("kernel:mint_quota"@),
        label("kernel:merge_yield_receiver"@) != label("kernel:mint_gas"@),
        label("kernel:merge_yield_receiver"@) != label("kernel:mint_quota"@),
        label("kernel:mint_gas"@) != label("kernel:mint_quota"@),
{
    vstd::utf8::encode_utf8_decode_utf8("kernel:set_gas_meter"@);
    vstd::utf8::encode_utf8_decode_utf8("kernel:mint_yield"@);
    vstd::utf8::encode_utf8_decode_utf8("kernel:merge_yield_receiver"@);
    vstd::utf8::encode_utf8_decode_utf8("kernel:mint_gas"@);
    vstd::utf8::encode_utf8_decode_utf8("kernel:mint_quota"@);
    reveal_strlit("kernel:set_gas_meter");
    reveal_strlit("kernel:mint_yield");
    reveal_strlit("kernel:merge_yield_receiver");
    reveal_strlit("kernel:mint_gas");
    reveal_strlit("kernel:mint_quota");
    assert("kernel:mint_yield"@[12] != "kernel:mint_quota"@[12]);
}

/// Whether the slot that register 7 names holds a sender of the key.
pub open spec fn sends(dir: CapMap, frame: KernelFrame, key: Seq<u8>) -> bool {
    let slot = named(frame.regs@[7]);
    &&& frame.cnode@.contains_key(slot)
    &&& !frame.pending@.contains_key(slot)
    &&& role_in(dir, frame.cnode@[slot]) matches Some(Role::YieldSender(k))
    &&& k@ == key
}

/// Whether a slot holds an instance with a role.
pub open spec fn instance_in(frame: KernelFrame, slot: Seq<u8>) -> Option<Role> {
    if frame.cnode@.contains_key(slot) {
        match frame.cnode@[slot] {
            Target::Instance(i) => Some(*i.role),
            _ => None,
        }
    } else {
        None
    }
}

/// Whether a slot holds a handle of the kernel of an image: an instance of that image
/// alone, with no memory, no slots and zero registers.
pub open spec fn is_kernel_handle(frame: KernelFrame, slot: Seq<u8>, image: CapHash) -> bool {
    &&& frame.cnode@.contains_key(slot)
    &&& frame.cnode@[slot] matches Target::Instance(i)
    &&& i.image_hash == image
    &&& i.image_hash_chain == image
    &&& i.mem.backing@.len() == 0
    &&& i.mem.overlay@.len() == 0
    &&& forall|x: int| 0 <= x < 13 ==> #[trigger] i.regs@[x] == 0
    &&& i.pc == 0
    &&& i.gas_remaining == 0
    &&& i.runtime is None
    &&& i.root matches Root::Wire(WireTarget::Hash(_))
}

/// A yield that the kernel handles itself leaves the frame that the kernel made of it.
proof fn lemma_yield_inline(
    kernel: Kernel,
    kernel_after: Kernel,
    before: Seq<StackEntry>,
    gas: TaskGasState,
    iid: u64,
    info: ExitInfo,
    frame_cost: u64,
    after: KernelTask,
    r: Result<TaskPoll, u32>,
    key: Seq<u8>,
) -> (paid: TaskGasState)
    requires
        stack_wf(before),
        before.len() > 0,
        polled(kernel, kernel_after, before, gas, iid, info, frame_cost, after, r),
        asks_for(info, 16),
        can_pay(kernel, gas, info),
        sends(kernel.directory@, frame_in(before, before.last().target as int), key),
        r matches Ok(TaskPoll::Pending),
        key == label("kernel:set_gas_meter"@) || key == label("kernel:mint_yield"@) || key == label(
            "kernel:merge_yield_receiver"@,
        ) || key == label("kernel:mint_gas"@) || key == label("kernel:mint_quota"@),
    ensures
        ({
            let t = before.last().target as int;
            &&& yield_done(
                kernel,
                frame_in(before, t),
                frame_in(after.stack@, t),
                paid,
                after.gas_state,
                Ok::<YieldOutcome, u32>(YieldOutcome::Inline),
            )
            &&& after.stack@ == with_frame(before, t, frame_in(after.stack@, t))
            &&& crate::kernel::yields::sender_key(
                kernel.directory@,
                frame_in(before, t).slot(reg_key(frame_in(before, t).regs@[7])),
            ) == Some(key)
            &&& !frame_in(before, t).is_pending(reg_key(frame_in(before, t).regs@[7]))
            &&& paid == (TaskGasState { live_gas: paid.live_gas, ..gas })
        }),
{
    let t = before.last().target as int;
    assert(entry_wf(before, before.len() - 1));
    let was = frame_in(before, t);
    lemma_named(was.regs@[7]);
    let paid = crate::kernel::call_loop::charged(
        gas,
        crate::kernel::call_loop::op_cost(
            kernel,
            crate::kernel::stack::frame_of(before, before.len() - 1),
            info,
            frame_cost,
        ),
    );
    let value = info.regs@[7];
    let (frame, outcome) = choose|frame: KernelFrame, outcome: Result<YieldOutcome, u32>|
        #[trigger] yield_done(kernel, own_frame(before[t]), frame, paid, after.gas_state, outcome)
            && yield_answered(
            kernel,
            with_frame(before, t, frame),
            after.stack@,
            after.gas_state,
            value,
            outcome,
            r,
        );
    assert(outcome == Ok::<YieldOutcome, u32>(YieldOutcome::Inline));
    paid
}

/// Yielding `kernel:mint_yield` makes a pair: a sender of the key that register 8 names
/// in the slot that register 9 names, and in the slot that register 10 names a receiver
/// of this key and no other. No other slot changes.
pub proof fn law_made_yield_key_is_a_pair(
    kernel: Kernel,
    kernel_after: Kernel,
    before: Seq<StackEntry>,
    gas: TaskGasState,
    iid: u64,
    info: ExitInfo,
    frame_cost: u64,
    after: KernelTask,
    r: Result<TaskPoll, u32>,
    k: Seq<u8>,
)
    requires
        stack_wf(before),
        before.len() > 0,
        polled(kernel, kernel_after, before, gas, iid, info, frame_cost, after, r),
        asks_for(info, 16),
        can_pay(kernel, gas, info),
        sends(
            kernel.directory@,
            frame_in(before, before.last().target as int),
            label("kernel:mint_yield"@),
        ),
        r matches Ok(TaskPoll::Pending),
    ensures
        ({
            let t = before.last().target as int;
            let was = frame_in(before, t);
            let now = frame_in(after.stack@, t);
            let key = named(was.regs@[8]);
            let sender = named(was.regs@[9]);
            let receiver = named(was.regs@[10]);
            &&& after.stack@.len() == before.len()
            &&& sender != receiver ==> (instance_in(now, sender) matches Some(Role::YieldSender(s))
                && s@ == key)
            &&& instance_in(now, receiver) matches Some(Role::YieldReceiver(keys)) && {
                &&& crate::kernel::key::has_key(keys@, key)
                &&& forall|x: Seq<u8>|
                    x != key ==> !#[trigger] crate::kernel::key::has_key(keys@, x)
            }
            &&& sender != receiver ==> is_kernel_handle(now, sender, kernel.config.sender_image)
            &&& is_kernel_handle(now, receiver, kernel.config.receiver_image)
            &&& k != sender && k != receiver ==> same_slot(was, now, k)
            &&& now.regs@ == was.regs@
        }),
{
    let t = before.last().target as int;
    assert(entry_wf(before, before.len() - 1));
    let was = frame_in(before, t);
    let now = frame_in(after.stack@, t);
    lemma_labels_differ();
    let paid = lemma_yield_inline(
        kernel,
        kernel_after,
        before,
        gas,
        iid,
        info,
        frame_cost,
        after,
        r,
        label("kernel:mint_yield"@),
    );
    lemma_named(was.regs@[8]);
    lemma_named(was.regs@[9]);
    lemma_named(was.regs@[10]);
    assert(now.slot(k) == now.slot(k) && was.slot(k) == was.slot(k));
}

/// Yielding `kernel:merge_yield_receiver` puts a receiver into the slot that register 10
/// names: it catches what the receivers in the slots of registers 8 and 9 catch, and
/// nothing else.
pub proof fn law_merged_receiver_catches_both(
    kernel: Kernel,
    kernel_after: Kernel,
    before: Seq<StackEntry>,
    gas: TaskGasState,
    iid: u64,
    info: ExitInfo,
    frame_cost: u64,
    after: KernelTask,
    r: Result<TaskPoll, u32>,
    first: Vec<Key>,
    second: Vec<Key>,
    x: Seq<u8>,
    k: Seq<u8>,
)
    requires
        stack_wf(before),
        before.len() > 0,
        polled(kernel, kernel_after, before, gas, iid, info, frame_cost, after, r),
        asks_for(info, 16),
        can_pay(kernel, gas, info),
        ({
            let f = frame_in(before, before.last().target as int);
            let a = named(f.regs@[8]);
            let b = named(f.regs@[9]);
            &&& sends(kernel.directory@, f, label("kernel:merge_yield_receiver"@))
            &&& f.cnode@.contains_key(a)
            &&& f.cnode@.contains_key(b)
            &&& role_in(kernel.directory@, f.cnode@[a]) == Some(Role::YieldReceiver(first))
            &&& role_in(kernel.directory@, f.cnode@[b]) == Some(Role::YieldReceiver(second))
        }),
        r matches Ok(TaskPoll::Pending),
    ensures
        ({
            let t = before.last().target as int;
            let was = frame_in(before, t);
            let now = frame_in(after.stack@, t);
            let dst = named(was.regs@[10]);
            &&& instance_in(now, dst) matches Some(Role::YieldReceiver(keys))
                && crate::kernel::key::has_key(keys@, x) == (crate::kernel::key::has_key(
                first@,
                x,
            ) || crate::kernel::key::has_key(second@, x))
            &&& is_kernel_handle(now, dst, kernel.config.receiver_image)
            &&& k != dst ==> same_slot(was, now, k)
            &&& now.regs@ == was.regs@
        }),
{
    let t = before.last().target as int;
    assert(entry_wf(before, before.len() - 1));
    let was = frame_in(before, t);
    let now = frame_in(after.stack@, t);
    lemma_labels_differ();
    let paid = lemma_yield_inline(
        kernel,
        kernel_after,
        before,
        gas,
        iid,
        info,
        frame_cost,
        after,
        r,
        label("kernel:merge_yield_receiver"@),
    );
    lemma_named(was.regs@[8]);
    lemma_named(was.regs@[9]);
    lemma_named(was.regs@[10]);
    assert(now.slot(k) == now.slot(k) && was.slot(k) == was.slot(k));
}

/// Yielding `kernel:mint_gas` puts a handle to the meter that register 8 names into the
/// slot that register 9 names.
pub proof fn law_made_gas_handle_has_its_meter(
    kernel: Kernel,
    kernel_after: Kernel,
    before: Seq<StackEntry>,
    gas: TaskGasState,
    iid: u64,
    info: ExitInfo,
    frame_cost: u64,
    after: KernelTask,
    r: Result<TaskPoll, u32>,
    k: Seq<u8>,
)
    requires
        stack_wf(before),
        before.len() > 0,
        polled(kernel, kernel_after, before, gas, iid, info, frame_cost, after, r),
        asks_for(info, 16),
        can_pay(kernel, gas, info),
        sends(
            kernel.directory@,
            frame_in(before, before.last().target as int),
            label("kernel:mint_gas"@),
        ),
        r matches Ok(TaskPoll::Pending),
    ensures
        ({
            let t = before.last().target as int;
            let was = frame_in(before, t);
            let now = frame_in(after.stack@, t);
            let dst = named(was.regs@[9]);
            &&& instance_in(now, dst) matches Some(Role::Gas(m)) && m@ == named(was.regs@[8])
            &&& is_kernel_handle(now, dst, kernel.config.gas_image)
            &&& k != dst ==> same_slot(was, now, k)
            &&& now.regs@ == was.regs@
        }),
{
    let t = before.last().target as int;
    assert(entry_wf(before, before.len() - 1));
    let was = frame_in(before, t);
    let now = frame_in(after.stack@, t);
    lemma_labels_differ();
    let paid = lemma_yield_inline(
        kernel,
        kernel_after,
        before,
        gas,
        iid,
        info,
        frame_cost,
        after,
        r,
        label("kernel:mint_gas"@),
    );
    lemma_named(was.regs@[8]);
    lemma_named(was.regs@[9]);
    assert(now.slot(k) == now.slot(k) && was.slot(k) == was.slot(k));
}

/// Yielding `kernel:mint_quota` puts a handle to the quota that register 8 names into
/// the slot that register 9 names.
pub proof fn law_made_quota_handle_has_its_quota(
    kernel: Kernel,
    kernel_after: Kernel,
    before: Seq<StackEntry>,
    gas: TaskGasState,
    iid: u64,
    info: ExitInfo,
    frame_cost: u64,
    after: KernelTask,
    r: Result<TaskPoll, u32>,
    k: Seq<u8>,
)
    requires
        stack_wf(before),
        before.len() > 0,
        polled(kernel, kernel_after, before, gas, iid, info, frame_cost, after, r),
        asks_for(info, 16),
        can_pay(kernel, gas, info),
        sends(
            kernel.directory@,
            frame_in(before, before.last().target as int),
            label("kernel:mint_quota"@),
        ),
        r matches Ok(TaskPoll::Pending),
    ensures
        ({
            let t = before.last().target as int;
            let was = frame_in(before, t);
            let now = frame_in(after.stack@, t);
            let dst = named(was.regs@[9]);
            &&& instance_in(now, dst) matches Some(Role::Quota(q)) && q@ == named(was.regs@[8])
            &&& is_kernel_handle(now, dst, kernel.config.quota_image)
            &&& k != dst ==> same_slot(was, now, k)
            &&& now.regs@ == was.regs@
        }),
{
    let t = before.last().target as int;
    assert(entry_wf(before, before.len() - 1));
    let was = frame_in(before, t);
    let now = frame_in(after.stack@, t);
    lemma_labels_differ();
    let paid = lemma_yield_inline(
        kernel,
        kernel_after,
        before,
        gas,
        iid,
        info,
        frame_cost,
        after,
        r,
        label("kernel:mint_quota"@),
    );
    lemma_named(was.regs@[8]);
    lemma_named(was.regs@[9]);
    assert(now.slot(k) == now.slot(k) && was.slot(k) == was.slot(k));
}

/// Yielding `kernel:set_gas_meter` gives the meter that register 8 names the balance in
/// register 9 and leaves every other balance; for a meter that is not in use register 7
/// becomes the balance that it had. Slots and other registers stay.
pub proof fn law_set_meter_sets_one_balance(
    kernel: Kernel,
    kernel_after: Kernel,
    before: Seq<StackEntry>,
    gas: TaskGasState,
    iid: u64,
    info: ExitInfo,
    frame_cost: u64,
    after: KernelTask,
    r: Result<TaskPoll, u32>,
    m: Seq<u8>,
)
    requires
        stack_wf(before),
        before.len() > 0,
        polled(kernel, kernel_after, before, gas, iid, info, frame_cost, after, r),
        asks_for(info, 16),
        can_pay(kernel, gas, info),
        sends(
            kernel.directory@,
            frame_in(before, before.last().target as int),
            label("kernel:set_gas_meter"@),
        ),
        r matches Ok(TaskPoll::Pending),
        frame_in(before, before.last().target as int).regs@[9] <= i64::MAX,
    ensures
        ({
            let t = before.last().target as int;
            let was = frame_in(before, t);
            let now = frame_in(after.stack@, t);
            let meter = named(was.regs@[8]);
            &&& after.gas_state.in_use() == gas.in_use()
            &&& after.gas_state.balance(Some(meter)) == was.regs@[9]
            &&& m != meter && gas.in_use() != Some(m) ==> after.gas_state.balance(Some(m))
                == gas.balance(Some(m))
            &&& gas.in_use() != Some(meter) ==> now.regs@[7] == gas.balance(Some(meter)) as u64
            &&& forall|x: int|
                0 <= x < 13 && x != 7 ==> #[trigger] now.regs@[x] == was.regs@[x]
            &&& now.cnode == was.cnode
            &&& now.pc == was.pc
        }),
{
    let t = before.last().target as int;
    assert(entry_wf(before, before.len() - 1));
    let was = frame_in(before, t);
    lemma_labels_differ();
    let paid = lemma_yield_inline(
        kernel,
        kernel_after,
        before,
        gas,
        iid,
        info,
        frame_cost,
        after,
        r,
        label("kernel:set_gas_meter"@),
    );
    lemma_named(was.regs@[8]);
    assert(was.regs@[9] as i64 == was.regs@[9]);
}

/// Answering a yield moves the scratchpad of the handler to the yielder, which runs
/// again with the status zero in register 8; nothing else of either changes.
pub proof fn law_answer_goes_to_the_yielder(
    kernel: Kernel,
    kernel_after: Kernel,
    before: Seq<StackEntry>,
    gas: TaskGasState,
    iid: u64,
    info: ExitInfo,
    frame_cost: u64,
    after: KernelTask,
    r: Result<TaskPoll, u32>,
    k: Seq<u8>,
)
    requires
        stack_wf(before),
        before.len() >= 2,
        polled(kernel, kernel_after, before, gas, iid, info, frame_cost, after, r),
        asks_for(info, 27),
        can_pay(kernel, gas, info),
        before.last().target < before.len() - 1,
        before[before.len() - 2].target != before.last().target,
    ensures
        ({
            let h = before.last().target as int;
            let y = before[before.len() - 2].target as int;
            let handler = frame_in(before, h);
            let was = frame_in(before, y);
            let now = frame_in(after.stack@, y);
            &&& r matches Ok(TaskPoll::Pending)
            &&& after.stack@.len() == before.len() - 1
            &&& now.regs@[8] == 0
            &&& forall|x: int| 0 <= x < 13 && x != 8 ==> #[trigger] now.regs@[x] == was.regs@[x]
            &&& now.pc == was.pc
            &&& now.mem == was.mem
            &&& handler.cnode@.contains_key(scratch()) ==> now.cnode@.contains_key(scratch())
                && now.cnode@[scratch()] == handler.cnode@[scratch()]
            &&& !handler.cnode@.contains_key(scratch()) ==> same_slot(was, now, scratch())
            &&& k != scratch() ==> same_slot(was, now, k)
            &&& !frame_in(after.stack@, h).cnode@.contains_key(scratch())
            &&& k != scratch() ==> same_slot(handler, frame_in(after.stack@, h), k)
            &&& forall|q: int|
                0 <= q < before.len() - 1 && q != h && q != y ==> #[trigger] after.stack@[q]
                    == before[q]
        }),
{
    let n = before.len() as int;
    assert(entry_wf(before, n - 1));
    assert(entry_wf(before, n - 2));
    lemma_scratch();
    let h = before.last().target as int;
    let y = before[n - 2].target as int;
    assert(before.drop_last()[h] == before[h]);
    assert(before.drop_last()[y] == before[y]);
}

/// Whether an instance that is handed over is a copy of the one that a cap stands for.
pub open spec fn copy_in(dir: CapMap, target: Target, copy: ResidentInstance) -> bool {
    match target {
        Target::Instance(i) => {
            &&& copy.image_hash_chain == i.image_hash_chain
            &&& copy.image_hash == i.image_hash
            &&& *copy.role == *i.role
            &&& copy.regs@ == i.regs@
            &&& copy.pc == i.pc
            &&& copy.gas_remaining == i.gas_remaining
            &&& copy.mem.backing@ == i.mem.backing@
            &&& copy.mem.overlay@ == i.mem.overlay@
            &&& copy.runtime is None
            &&& i.root is Wire ==> copy.root == i.root
            &&& i.root is Resident ==> (copy.root matches Root::Wire(WireTarget::Hash(z)) && forall|
                x: int,
            |
                0 <= x < 32 ==> #[trigger] z@[x] == 0)
        },
        Target::Bytes(_) => false,
        _ => {
            let c = match target {
                Target::Hash(h) => dir[h],
                Target::Wire(c) => c,
                _ => arbitrary(),
            };
            *c matches WireCap::Instance(w) && {
                &&& copy.image_hash_chain == w.image_hash_chain
                &&& copy.image_hash == w.image_hash
                &&& *copy.role == *w.role
                &&& copy.regs@ == w.regs@
                &&& copy.pc == w.pc
                &&& copy.gas_remaining == w.gas_remaining
                &&& copy.mem.backing@ == w.mem.backing@
                &&& copy.mem.overlay@ == w.mem.overlay@
                &&& copy.runtime is None
                &&& copy.root == Root::Wire(w.root_cnode)
            }
        },
    }
}

/// A yield of a key that is not the kernel's own goes to the nearest owner that catches
/// the key: it finds a copy of the sender in its scratchpad and the status one in
/// register 8, and runs on top. The yielder keeps all it had.
pub proof fn law_yield_reaches_its_catcher(
    kernel: Kernel,
    kernel_after: Kernel,
    before: Seq<StackEntry>,
    gas: TaskGasState,
    iid: u64,
    info: ExitInfo,
    frame_cost: u64,
    after: KernelTask,
    r: Result<TaskPoll, u32>,
    key: Seq<u8>,
    c: int,
    k: Seq<u8>,
)
    requires
        stack_wf(before),
        before.len() > 0,
        polled(kernel, kernel_after, before, gas, iid, info, frame_cost, after, r),
        asks_for(info, 16),
        can_pay(kernel, gas, info),
        sends(kernel.directory@, frame_in(before, before.last().target as int), key),
        key != label("kernel:set_gas_meter"@),
        key != label("kernel:mint_yield"@),
        key != label("kernel:merge_yield_receiver"@),
        key != label("kernel:mint_gas"@),
        key != label("kernel:mint_quota"@),
        catcher_of(before, before.last().target as int, key) == Some(c),
    ensures
        ({
            let t = before.last().target as int;
            let yielder = frame_in(before, t);
            let was = frame_in(before, c);
            let now = frame_in(after.stack@, c);
            &&& r matches Ok(TaskPoll::Pending)
            &&& after.stack@.len() == before.len() + 1
            &&& after.stack@.last().target == c
            &&& after.stack@.last().owner == before[c].owner
            &&& after.stack@.last().instance_id == before[c].instance_id
            &&& after.stack@.last().owner_catch_set@.len() == 0
            &&& after.stack@.last().gas.active == before[c].gas.active
            &&& after.stack@.last().gas.meters@.len() == before[c].gas.meters@.len()
            &&& forall|x: int|
                0 <= x < before[c].gas.meters@.len() ==> (
                #[trigger] after.stack@.last().gas.meters@[x])@ == before[c].gas.meters@[x]@
            &&& now.regs@[8] == 1
            &&& forall|x: int| 0 <= x < 13 && x != 8 ==> #[trigger] now.regs@[x] == was.regs@[x]
            &&& now.pc == was.pc
            &&& now.mem == was.mem
            &&& now.cnode@.contains_key(scratch())
            &&& now.cnode@[scratch()] matches Target::Instance(i) && copy_in(
                kernel.directory@,
                yielder.cnode@[named(yielder.regs@[7])],
                *i,
            )
            &&& k != scratch() ==> same_slot(was, now, k)
            &&& forall|q: int|
                0 <= q < before.len() && q != c ==> #[trigger] after.stack@[q] == before[q]
        }),
{
    let t = before.last().target as int;
    let top = before.len() - 1;
    assert(entry_wf(before, top));
    assert(entry_wf(before, t));
    lemma_scratch();
    let was = frame_in(before, t);
    lemma_named(was.regs@[7]);
    let paid = crate::kernel::call_loop::charged(
        gas,
        crate::kernel::call_loop::op_cost(
            kernel,
            crate::kernel::stack::frame_of(before, top),
            info,
            frame_cost,
        ),
    );
    let value = info.regs@[7];
    let (frame, outcome) = choose|frame: KernelFrame, outcome: Result<YieldOutcome, u32>|
        #[trigger] yield_done(kernel, own_frame(before[t]), frame, paid, after.gas_state, outcome)
            && yield_answered(
            kernel,
            with_frame(before, t, frame),
            after.stack@,
            after.gas_state,
            value,
            outcome,
            r,
        );
    assert(frame == was);
    assert(with_frame(before, t, frame) =~= before);
    crate::kernel::transfer::lemma_catcher(before, t, key);
    if let Ok(YieldOutcome::Route { key: routed, sender_slot }) = outcome {
        let payload = choose|payload: Option<ResidentInstance>| #[trigger]
            crate::kernel::frame::copied_from(
                kernel.directory@,
                was.slot(sender_slot@),
                payload,
            ) && {
                ||| yielded(before, after.stack@, top, key, payload, true)
                ||| yielded(before, after.stack@, top, key, payload, false)
            };
        assert(payload is Some);
        assert forall|z: CapHash, x: int|
            #![trigger z@[x]]
            z@ == crate::kernel::frame::zero_bytes() && 0 <= x < 32 implies z@[x] == 0 by {
        }
        let below = after.stack@.drop_last();
        assert forall|q: int| 0 <= q < before.len() && q != c implies #[trigger] after.stack@[q]
            == before[q] by {
            assert(below[q] == after.stack@[q]);
        }
        assert(below[c] == after.stack@[c]);
    }
}

/// What a called frame's owner catches from it is what the receiver in the slot that
/// the owner's image names catches; without such a receiver it catches nothing.
pub proof fn law_owner_catches_what_its_receiver_does(
    kernel: Kernel,
    kernel_after: Kernel,
    before: Seq<StackEntry>,
    gas: TaskGasState,
    iid: u64,
    info: ExitInfo,
    frame_cost: u64,
    after: KernelTask,
    r: Result<TaskPoll, u32>,
    img: KernelImageCap,
    x: Seq<u8>,
)
    requires
        stack_wf(before),
        before.len() > 0,
        polled(kernel, kernel_after, before, gas, iid, info, frame_cost, after, r),
        asks_for(info, 26),
        after.stack@.len() == before.len() + 1,
        after.stack@.last().kind is Instance,
        kernel.directory@.contains_key(
            frame_in(before, before.last().target as int).image_hash,
        ),
        *kernel.directory@[frame_in(before, before.last().target as int).image_hash]
            == WireCap::Image(img),
    ensures
        ({
            let caller = frame_in(before, before.last().target as int);
            let caught = crate::kernel::key::has_key(after.stack@.last().owner_catch_set@, x);
            match img.yield_receiver_slot {
                None => !caught,
                Some(slot) => if caller.cnode@.contains_key(slot@) {
                    match role_in(kernel.directory@, caller.cnode@[slot@]) {
                        Some(Role::YieldReceiver(keys)) => caught == crate::kernel::key::has_key(
                            keys@,
                            x,
                        ),
                        _ => !caught,
                    }
                } else {
                    !caught
                },
            }
        }),
{
    let caller = frame_in(before, before.last().target as int);
    assert(entry_wf(before, before.len() - 1));
    assert(crate::kernel::dispatch::is_catch_set(
        kernel.directory@,
        caller,
        after.stack@.last().owner_catch_set@,
    ));
}

/// Giving up a yield drops every entry above the handler: the handler is on top again
/// with its slots as they were, and no slot stays reserved for a frame that was
/// dropped.
pub proof fn law_given_up_yield_drops_the_frames(
    kernel: Kernel,
    kernel_after: Kernel,
    before: Seq<StackEntry>,
    gas: TaskGasState,
    iid: u64,
    info: ExitInfo,
    frame_cost: u64,
    after: KernelTask,
    r: Result<TaskPoll, u32>,
    j: int,
)
    requires
        stack_wf(before),
        before.len() > 0,
        polled(kernel, kernel_after, before, gas, iid, info, frame_cost, after, r),
        asks_for(info, 28),
        can_pay(kernel, gas, info),
        before.last().target < before.len() - 1,
    ensures
        r matches Ok(TaskPoll::Pending),
        after.stack@.len() == before.last().target + 1,
        forall|i: int|
            0 <= i < after.stack@.len() && before[i].kind is Instance ==> {
                &&& (#[trigger] after.stack@[i]).kind is Instance
                &&& frame_in(after.stack@, i).cnode == frame_in(before, i).cnode
                &&& frame_in(after.stack@, i).regs == frame_in(before, i).regs
                &&& frame_in(after.stack@, i).mem == frame_in(before, i).mem
                &&& frame_in(after.stack@, i).pc == frame_in(before, i).pc
            },
        before.last().target < j < before.len() && before[j].kind is Instance ==> (frame_in(
            before,
            j,
        ).origin matches Some(o) && (o.owner <= before.last().target ==> !frame_in(
            after.stack@,
            o.owner as int,
        ).pending@.contains_key(o.slot@))),
{
    let n = before.len() as int;
    assert(entry_wf(before, n - 1));
    let h = before.last().target as int;
    let mid = choose|mid: Seq<StackEntry>| #[trigger]
        crate::kernel::stack::released(before, mid, h + 1) && after.stack@ == mid.take(h + 1);
    assert forall|i: int| 0 <= i < after.stack@.len() && before[i].kind is Instance implies {
        &&& (#[trigger] after.stack@[i]).kind is Instance
        &&& frame_in(after.stack@, i).cnode == frame_in(before, i).cnode
        &&& frame_in(after.stack@, i).regs == frame_in(before, i).regs
        &&& frame_in(after.stack@, i).mem == frame_in(before, i).mem
        &&& frame_in(after.stack@, i).pc == frame_in(before, i).pc
    } by {
        assert(crate::kernel::stack::entry_released(before, mid, h + 1, i));
    }
    if h < j < n && before[j].kind is Instance {
        assert(entry_wf(before, j));
        assert(crate::kernel::stack::origin_at(before, j) is Some);
        let o = crate::kernel::stack::origin_at(before, j)->0;
        assert(o.0 < n);
        if o.0 <= h {
            assert(entry_wf(before, j - 1));
            assert(crate::kernel::stack::entry_released(before, mid, h + 1, o.0 as int));
            assert(crate::kernel::stack::reserved_above(before, h + 1, o.0 as int, o.1));
            assert(!own_frame(mid[o.0 as int]).is_pending(o.1));
        }
    }
}

/// An invocation of a published instance starts one frame: at the first endpoint with
/// the selector, with the arguments in registers 7 to 10, the memory of the instance
/// and the gas handed in.
pub proof fn law_task_starts_the_instance(
    kernel: Kernel,
    instance: CapHash,
    endpoint_idx: u32,
    args: Seq<u64>,
    initial_gas: i64,
    id: u64,
    lane: crate::kernel::lane::ExecutionLane,
    r: Result<KernelTask, u32>,
)
    requires
        crate::kernel::call_loop::task_made(
            kernel,
            instance,
            endpoint_idx,
            args,
            initial_gas,
            id,
            lane,
            r,
        ),
        args.len() == 4,
        r is Ok,
    ensures
        ({
            let task = r->Ok_0;
            let f = frame_in(task.stack@, 0);
            let dir = kernel.directory@;
            &&& task.id == id
            &&& task.lane == lane
            &&& task.stack@.len() == 1
            &&& task.next_iid == 1
            &&& task.stack@[0].target == 0
            &&& task.stack@[0].instance_id == 0
            &&& task.stack@[0].owner is None
            &&& task.stack@[0].owner_catch_set@.len() == 0
            &&& task.gas_state.root() == task.stack@[0].gas.scope()
            &&& task.gas_state.in_use() == task.stack@[0].gas.scope()
            &&& task.gas_state.live_gas == initial_gas
            &&& task.gas_state.balance(task.gas_state.root()) == initial_gas
            &&& *dir[instance] matches WireCap::Instance(w) && {
                &&& f.image_hash == w.image_hash
                &&& f.image_hash_chain == w.image_hash_chain
                &&& f.mem.backing@ == w.mem.backing@
                &&& f.mem.overlay@ == w.mem.overlay@
                &&& *f.role == *w.role
                &&& *dir[w.image_hash] matches WireCap::Image(img) && exists|
                    ep: crate::cap::EndpointDef,
                |
                    {
                        &&& #[trigger] crate::kernel::call_laws::first_endpoint(
                            img.endpoints@,
                            (endpoint_idx % 256) as int,
                            ep,
                        )
                        &&& f.pc == ep.entry_pc
                        &&& forall|x: int|
                            0 <= x < 13 && !(7 <= x <= 10) ==> #[trigger] f.regs@[x]
                                == ep.initial_regs@[x]
                    }
            }
            &&& forall|x: int| 0 <= x < 4 ==> f.regs@[7 + x] == #[trigger] args[x]
            &&& f.origin is None
            &&& f.pending@.dom() == Set::<Seq<u8>>::empty()
        }),
{
    let dir = kernel.directory@;
    assert((endpoint_idx & 0xFF) == endpoint_idx % 256) by (bit_vector);
    assert((endpoint_idx & 0xFF) <= 0xFF) by (bit_vector);
    let selector = (endpoint_idx & 0xFF) as u8;
    assert(selector == endpoint_idx % 256);
    if let WireCap::Instance(w) = *dir[instance] {
        let (inst, built) = choose|inst: ResidentInstance, built: Result<KernelFrame, u32>|
            #[trigger] crate::kernel::frame::is_from_wire(inst, w)
                && #[trigger] crate::kernel::call_loop::task_started(
                kernel,
                endpoint_idx,
                args,
                initial_gas,
                id,
                lane,
                inst,
                built,
                r,
            );
        let img = crate::kernel::frame::image_at(dir, inst.image_hash)->Ok_0;
        crate::kernel::call_laws::lemma_endpoint(img.endpoints@, selector);
    }
}

/// Whether a run ended the task with a trap and the argument given, and left everything.
pub open spec fn traps_with(
    before: Seq<StackEntry>,
    after: KernelTask,
    info: ExitInfo,
    r: Result<TaskPoll, u32>,
    arg: u32,
) -> bool {
    &&& after.stack@ == before
    &&& r matches Ok(TaskPoll::Done(o))
    &&& o.exit_reason == 7
    &&& o.exit_arg == arg
    &&& o.return_value == info.regs@[7]
}

/// A call is refused before it is paid for where calls are nested too deep, where its
/// slot is empty, and where what the slot holds is not an instance of a published image;
/// it traps where the instance is running already. Nothing moves.
pub proof fn law_refused_kernel_call_moves_nothing(
    kernel: Kernel,
    kernel_after: Kernel,
    before: Seq<StackEntry>,
    gas: TaskGasState,
    iid: u64,
    info: ExitInfo,
    frame_cost: u64,
    after: KernelTask,
    r: Result<TaskPoll, u32>,
)
    requires
        stack_wf(before),
        before.len() > 0,
        polled(kernel, kernel_after, before, gas, iid, info, frame_cost, after, r),
        asks_for(info, 26),
    ensures
        ({
            let f = frame_in(before, before.last().target as int);
            let key = named(f.regs@[7]);
            let dir = kernel.directory@;
            let free = !f.pending@.contains_key(key) && before.len() < 32768;
            &&& before.len() >= 32768 ==> r == Err::<TaskPoll, u32>(51)
            &&& free && !f.cnode@.contains_key(key) ==> r == Err::<TaskPoll, u32>(40)
            &&& free && f.cnode@.contains_key(key) && (f.cnode@[key] matches Target::Hash(h)
                && !dir.contains_key(h)) ==> r == Err::<TaskPoll, u32>(
                crate::kernel::frame::ERR_INSTANCE_NOT_FOUND,
            )
            &&& free && f.cnode@.contains_key(key) && f.cnode@[key] is Bytes ==> r == Err::<
                TaskPoll,
                u32,
            >(crate::kernel::frame::ERR_INSTANCE_KIND)
            &&& free && f.cnode@.contains_key(key) && (f.cnode@[key] matches Target::Instance(i)
                && !dir.contains_key(i.image_hash)) ==> r == Err::<TaskPoll, u32>(
                crate::kernel::frame::ERR_IMAGE_NOT_FOUND,
            )
            &&& r is Err && (before.len() >= 32768 || (free && !f.cnode@.contains_key(key))) ==> {
                &&& after.stack@ == before
                &&& after.gas_state == gas
                &&& after.next_iid == iid
                &&& kernel_after == kernel
            }
            &&& f.pending@.contains_key(key) && before.len() < 32768 && can_pay(
                kernel,
                gas,
                info,
            ) ==> traps_with(before, after, info, r, 0)
        }),
{
    let t = before.last().target as int;
    assert(entry_wf(before, before.len() - 1));
    let f = frame_in(before, t);
    lemma_named(f.regs@[7]);
}

/// A yield that nobody catches ends the task; so does one of a slot that does not hold a
/// sender.
pub proof fn law_uncaught_yield_ends_the_task(
    kernel: Kernel,
    kernel_after: Kernel,
    before: Seq<StackEntry>,
    gas: TaskGasState,
    iid: u64,
    info: ExitInfo,
    frame_cost: u64,
    after: KernelTask,
    r: Result<TaskPoll, u32>,
    key: Seq<u8>,
)
    requires
        stack_wf(before),
        before.len() > 0,
        polled(kernel, kernel_after, before, gas, iid, info, frame_cost, after, r),
        asks_for(info, 16),
        can_pay(kernel, gas, info),
    ensures
        ({
            let f = frame_in(before, before.last().target as int);
            let slot = named(f.regs@[7]);
            &&& !f.cnode@.contains_key(slot) ==> traps_with(before, after, info, r, 0)
            &&& sends(kernel.directory@, f, key) && key != label("kernel:set_gas_meter"@) && key
                != label("kernel:mint_yield"@) && key != label("kernel:merge_yield_receiver"@) && key
                != label("kernel:mint_gas"@) && key != label("kernel:mint_quota"@) && catcher_of(
                before,
                before.last().target as int,
                key,
            ) is None ==> traps_with(before, after, info, r, 70)
        }),
{
    let t = before.last().target as int;
    let top = before.len() - 1;
    assert(entry_wf(before, top));
    assert(entry_wf(before, t));
    let was = frame_in(before, t);
    lemma_named(was.regs@[7]);
    let paid = crate::kernel::call_loop::charged(
        gas,
        crate::kernel::call_loop::op_cost(
            kernel,
            crate::kernel::stack::frame_of(before, top),
            info,
            frame_cost,
        ),
    );
    let value = info.regs@[7];
    let (frame, outcome) = choose|frame: KernelFrame, outcome: Result<YieldOutcome, u32>|
        #[trigger] yield_done(kernel, own_frame(before[t]), frame, paid, after.gas_state, outcome)
            && yield_answered(
            kernel,
            with_frame(before, t, frame),
            after.stack@,
            after.gas_state,
            value,
            outcome,
            r,
        );
    assert(with_frame(before, t, was) =~= before);
}

/// A kernel call that cannot be paid for is tried again: the frame stays at the call,
/// four bytes before where it stopped, with the next meter in use.
pub proof fn law_unpaid_call_is_tried_again(
    kernel: Kernel,
    kernel_after: Kernel,
    before: Seq<StackEntry>,
    gas: TaskGasState,
    iid: u64,
    info: ExitInfo,
    frame_cost: u64,
    after: KernelTask,
    r: Result<TaskPoll, u32>,
)
    requires
        stack_wf(before),
        before.len() > 0,
        polled(kernel, kernel_after, before, gas, iid, info, frame_cost, after, r),
        info.exit_reason == EXIT_HOST_CALL || info.exit_reason == EXIT_ECALL,
        !asks_for(info, 26),
        !can_pay(kernel, gas, info),
        before.last().gas.active is Some,
        before.last().gas.active->0 + 1 < before.last().gas.meters@.len() <= usize::MAX,
        info.pc >= 4,
    ensures
        r matches Ok(TaskPoll::Pending),
        after.gas_state == gas,
        after.stack@.len() == before.len(),
        frame_in(after.stack@, before.last().target as int) == (KernelFrame {
            pc: (info.pc - 4) as u64,
            ..frame_in(before, before.last().target as int)
        }),
        after.stack@.last().gas.scope() == Some(
            before.last().gas.meters@[before.last().gas.active->0 + 1]@,
        ),
{
    assert(entry_wf(before, before.len() - 1));
}

/// A write to a slot that is pinned, or whose instance is running, traps and changes
/// nothing: for a spawn the slot that register 9 names, for the identity of a type that
/// of register 8.
pub proof fn law_blocked_slot_is_not_written(
    kernel: Kernel,
    kernel_after: Kernel,
    before: Seq<StackEntry>,
    gas: TaskGasState,
    iid: u64,
    info: ExitInfo,
    frame_cost: u64,
    after: KernelTask,
    r: Result<TaskPoll, u32>,
    dst: Seq<u8>,
)
    requires
        stack_wf(before),
        before.len() > 0,
        polled(kernel, kernel_after, before, gas, iid, info, frame_cost, after, r),
        can_pay(kernel, gas, info),
        ({
            let f = frame_in(before, before.last().target as int);
            ||| asks_for(info, 18) && dst == named(f.regs@[9])
            ||| asks_for(info, 20) && dst == named(f.regs@[8])
        }),
        ({
            let f = frame_in(before, before.last().target as int);
            ||| f.pending@.contains_key(dst)
            ||| exists|i: int| 0 <= i < f.pinned@.len() && (#[trigger] f.pinned@[i])@ == dst
        }),
    ensures
        traps_with(before, after, info, r, 0),
{
    let t = before.last().target as int;
    assert(entry_wf(before, before.len() - 1));
    let f = frame_in(before, t);
    lemma_named(f.regs@[8]);
    lemma_named(f.regs@[9]);
    assert(f.write_blocked(dst));
    let now = frame_in(after.stack@, t);
    if asks_for(info, 18) {
        let d = choose|d: Result<bool, u32>| #[trigger]
            crate::kernel::call_loop::trap_or_go_on(d, after.gas_state, info.regs@[7], r)
                && crate::kernel::dispatch::spawn_done(
                kernel.directory@,
                kernel.mem_cache@,
                kernel.config.data_base,
                f,
                now,
                kernel_after.mem_cache@,
                d,
            );
        assert(now == f);
    } else {
        let d = choose|d: Result<bool, u32>| #[trigger]
            crate::kernel::call_loop::trap_or_go_on(d, after.gas_state, info.regs@[7], r)
                && crate::kernel::dispatch::identity_done(kernel.directory@, f, now, d);
        assert(now == f);
    }
    assert(with_frame(before, t, f) =~= before);
}

/// Where the handler of a yield is also the one that yielded, answering leaves its
/// scratchpad where it is; the status in register 8 becomes zero.
pub proof fn law_own_answer_stays(
    kernel: Kernel,
    kernel_after: Kernel,
    before: Seq<StackEntry>,
    gas: TaskGasState,
    iid: u64,
    info: ExitInfo,
    frame_cost: u64,
    after: KernelTask,
    r: Result<TaskPoll, u32>,
    k: Seq<u8>,
)
    requires
        stack_wf(before),
        before.len() >= 2,
        polled(kernel, kernel_after, before, gas, iid, info, frame_cost, after, r),
        asks_for(info, 27),
        can_pay(kernel, gas, info),
        before.last().target < before.len() - 1,
        before[before.len() - 2].target == before.last().target,
    ensures
        ({
            let y = before.last().target as int;
            let was = frame_in(before, y);
            let now = frame_in(after.stack@, y);
            &&& r matches Ok(TaskPoll::Pending)
            &&& after.stack@.len() == before.len() - 1
            &&& now.regs@[8] == 0
            &&& forall|x: int| 0 <= x < 13 && x != 8 ==> #[trigger] now.regs@[x] == was.regs@[x]
            &&& same_slot(was, now, k)
            &&& now.pc == was.pc
            &&& now.mem == was.mem
        }),
{
    let n = before.len() as int;
    assert(entry_wf(before, n - 1));
    assert(entry_wf(before, n - 2));
    lemma_scratch();
    let y = before.last().target as int;
    assert(before.drop_last()[y] == before[y]);
}

/// A handler that replies ends with all that is above its own entry: its caller is on
/// top again, with the value in register 7 and the status zero in register 8.
pub proof fn law_handler_reply_ends_the_yielders(
    kernel: Kernel,
    kernel_after: Kernel,
    before: Seq<StackEntry>,
    gas: TaskGasState,
    iid: u64,
    info: ExitInfo,
    frame_cost: u64,
    after: KernelTask,
    r: Result<TaskPoll, u32>,
)
    requires
        stack_wf(before),
        before.len() >= 2,
        polled(kernel, kernel_after, before, gas, iid, info, frame_cost, after, r),
        info.exit_reason == EXIT_HALT,
        0 < before.last().target < before.len() - 1,
    ensures
        ({
            let h = before.last().target as int;
            let p = before[h - 1].target as int;
            let callee = frame_in(before, h);
            let was = frame_in(before, p);
            let now = frame_in(after.stack@, p);
            &&& r matches Ok(TaskPoll::Pending)
            &&& after.stack@.len() == h
            &&& now.regs@[7] == info.regs@[7]
            &&& now.regs@[8] == 0
            &&& now.pc == was.pc
            &&& callee.origin matches Some(o) && {
                &&& now.cnode@.contains_key(o.slot@)
                &&& now.cnode@[o.slot@] matches Target::Instance(i)
                &&& i.mem == callee.mem
                &&& i.pc == callee.pc
                &&& i.image_hash == callee.image_hash
            }
        }),
{
    let n = before.len() as int;
    let h = before.last().target as int;
    assert(entry_wf(before, n - 1));
    assert(entry_wf(before, h));
    assert(entry_wf(before, h - 1));
    lemma_scratch();
    let drained = !(r matches Ok(TaskPoll::Pending));
    let mid = choose|mid: Seq<StackEntry>| #[trigger]
        crate::kernel::transfer::dropped_above(before, mid, h)
            && crate::kernel::transfer::returned(mid, after.stack@, info.regs@[7], drained);
    let all = choose|all: Seq<StackEntry>| #[trigger]
        crate::kernel::stack::released(before, all, h + 1) && mid == all.take(h + 1);
    let p = before[h - 1].target as int;
    assert(crate::kernel::stack::entry_released(before, all, h + 1, h));
    assert(crate::kernel::stack::entry_released(before, all, h + 1, h - 1));
    assert(crate::kernel::stack::entry_released(before, all, h + 1, p));
    assert(mid.len() == h + 1);
    assert(mid[h - 1].target == p);
    assert(mid.drop_last()[p] == mid[p]);
}

/// The first frame of an invocation draws on the meter of the first gas slot that is
/// filled, if its image declares gas slots.
pub proof fn law_first_frame_draws_on_its_first_meter(
    kernel: Kernel,
    instance: CapHash,
    endpoint_idx: u32,
    args: Seq<u64>,
    initial_gas: i64,
    id: u64,
    lane: crate::kernel::lane::ExecutionLane,
    r: Result<KernelTask, u32>,
    img: KernelImageCap,
    i: int,
)
    requires
        crate::kernel::call_loop::task_made(
            kernel,
            instance,
            endpoint_idx,
            args,
            initial_gas,
            id,
            lane,
            r,
        ),
        r is Ok,
        *kernel.directory@[frame_in(r->Ok_0.stack@, 0).image_hash] == WireCap::Image(img),
        crate::kernel::call_laws::first_filled(
            frame_in(r->Ok_0.stack@, 0),
            img.gas_slots@,
            i,
        ),
    ensures
        r->Ok_0.stack@[0].gas.scope() is Some,
        crate::kernel::call_laws::meter_in(
            kernel.directory@,
            frame_in(r->Ok_0.stack@, 0),
            img.gas_slots@[i]@,
            r->Ok_0.stack@[0].gas.scope()->0,
        ),
        r->Ok_0.gas_state.balance(r->Ok_0.stack@[0].gas.scope()) == initial_gas,
{
    let dir = kernel.directory@;
    let task = r->Ok_0;
    let f = frame_in(task.stack@, 0);
    if let WireCap::Instance(w) = *dir[instance] {
        let (inst, built) = choose|inst: ResidentInstance, built: Result<KernelFrame, u32>|
            #[trigger] crate::kernel::frame::is_from_wire(inst, w)
                && #[trigger] crate::kernel::call_loop::task_started(
                kernel,
                endpoint_idx,
                args,
                initial_gas,
                id,
                lane,
                inst,
                built,
                r,
            );
        let meters = crate::kernel::dispatch::gas_meters(dir, f, img.gas_slots@)->Ok_0;
        crate::kernel::call_laws::lemma_first_slot_is_first(dir, f, img.gas_slots@, meters, i);
        let gas = task.stack@[0].gas;
        assert(crate::kernel::key::key_seq(gas.meters@)[0] == gas.meters@[0]@);
        assert(crate::kernel::key::key_seq(gas.meters@).len() == gas.meters@.len());
    }
}

/// Whether a task is to be run again.
pub open spec fn goes_on(r: Result<TaskPoll, u32>) -> bool {
    r matches Ok(TaskPoll::Pending)
}

/// Whether a frame may write to a slot: it is not pinned, and its instance is not
/// running.
pub open spec fn may_write(frame: KernelFrame, slot: Seq<u8>) -> bool {
    &&& !frame.pending@.contains_key(slot)
    &&& forall|i: int| 0 <= i < frame.pinned@.len() ==> (#[trigger] frame.pinned@[i])@ != slot
}

/// A spawn into a slot that may be written goes on where the image is published; the
/// identity of a type is read wherever there is a type.
pub proof fn law_spawn_and_identity_go_on(
    kernel: Kernel,
    kernel_after: Kernel,
    before: Seq<StackEntry>,
    gas: TaskGasState,
    iid: u64,
    info: ExitInfo,
    frame_cost: u64,
    after: KernelTask,
    r: Result<TaskPoll, u32>,
    image: CapHash,
)
    requires
        stack_wf(before),
        before.len() > 0,
        polled(kernel, kernel_after, before, gas, iid, info, frame_cost, after, r),
        can_pay(kernel, gas, info),
    ensures
        ({
            let f = frame_in(before, before.last().target as int);
            let src = named(f.regs@[7]);
            let dir = kernel.directory@;
            &&& asks_for(info, 18) && may_write(f, named(f.regs@[9])) && !f.pending@.contains_key(
                src,
            ) && (if f.cnode@.contains_key(src) && f.cnode@[src] is Hash {
                f.cnode@[src] == Target::Hash(image)
            } else {
                f.image_hash == image
            }) && dir.contains_key(image) && *dir[image] is Image ==> goes_on(r)
            &&& asks_for(info, 20) && may_write(f, named(f.regs@[8])) && !f.pending@.contains_key(
                src,
            ) && f.cnode@.contains_key(src) && type_in(dir, f.cnode@[src]) is Some && (
            f.cnode@[src] is Hash ==> dir.contains_key(f.cnode@[src]->Hash_0)) ==> goes_on(r)
        }),
{
    let t = before.last().target as int;
    assert(entry_wf(before, before.len() - 1));
    let f = frame_in(before, t);
    lemma_named(f.regs@[7]);
    lemma_named(f.regs@[8]);
    lemma_named(f.regs@[9]);
    let now = frame_in(after.stack@, t);
    if asks_for(info, 18) {
        let d = choose|d: Result<bool, u32>| #[trigger]
            crate::kernel::call_loop::trap_or_go_on(d, after.gas_state, info.regs@[7], r)
                && crate::kernel::dispatch::spawn_done(
                kernel.directory@,
                kernel.mem_cache@,
                kernel.config.data_base,
                f,
                now,
                kernel_after.mem_cache@,
                d,
            );
    } else if asks_for(info, 20) {
        let d = choose|d: Result<bool, u32>| #[trigger]
            crate::kernel::call_loop::trap_or_go_on(d, after.gas_state, info.regs@[7], r)
                && crate::kernel::dispatch::identity_done(kernel.directory@, f, now, d);
    }
}

/// What the kernel does itself goes on where the slots to write may be written: making a
/// yield key, a gas handle or a quota handle; merging two receivers; and setting a meter
/// always.
pub proof fn law_kernel_yields_go_on(
    kernel: Kernel,
    kernel_after: Kernel,
    before: Seq<StackEntry>,
    gas: TaskGasState,
    iid: u64,
    info: ExitInfo,
    frame_cost: u64,
    after: KernelTask,
    r: Result<TaskPoll, u32>,
    key: Seq<u8>,
)
    requires
        stack_wf(before),
        before.len() > 0,
        polled(kernel, kernel_after, before, gas, iid, info, frame_cost, after, r),
        asks_for(info, 16),
        can_pay(kernel, gas, info),
        sends(kernel.directory@, frame_in(before, before.last().target as int), key),
        ({
            let f = frame_in(before, before.last().target as int);
            let a = named(f.regs@[8]);
            let b = named(f.regs@[9]);
            let dir = kernel.directory@;
            ||| key == label("kernel:set_gas_meter"@)
            ||| key == label("kernel:mint_yield"@) && may_write(f, b) && may_write(
                f,
                named(f.regs@[10]),
            )
            ||| key == label("kernel:mint_gas"@) && may_write(f, b)
            ||| key == label("kernel:mint_quota"@) && may_write(f, b)
            ||| {
                &&& key == label("kernel:merge_yield_receiver"@)
                &&& may_write(f, named(f.regs@[10]))
                &&& !f.pending@.contains_key(a)
                &&& !f.pending@.contains_key(b)
                &&& f.cnode@.contains_key(a)
                &&& f.cnode@.contains_key(b)
                &&& role_in(dir, f.cnode@[a]) is Some
                &&& role_in(dir, f.cnode@[a])->0 is YieldReceiver
                &&& role_in(dir, f.cnode@[b]) is Some
                &&& role_in(dir, f.cnode@[b])->0 is YieldReceiver
            }
        }),
    ensures
        goes_on(r),
        after.stack@.len() == before.len(),
{
    let t = before.last().target as int;
    let top = before.len() - 1;
    assert(entry_wf(before, top));
    let f = frame_in(before, t);
    lemma_labels_differ();
    lemma_named(f.regs@[7]);
    lemma_named(f.regs@[8]);
    lemma_named(f.regs@[9]);
    lemma_named(f.regs@[10]);
    let paid = crate::kernel::call_loop::charged(
        gas,
        crate::kernel::call_loop::op_cost(
            kernel,
            crate::kernel::stack::frame_of(before, top),
            info,
            frame_cost,
        ),
    );
    let (frame, outcome) = choose|frame: KernelFrame, outcome: Result<YieldOutcome, u32>|
        #[trigger] yield_done(kernel, own_frame(before[t]), frame, paid, after.gas_state, outcome)
            && yield_answered(
            kernel,
            with_frame(before, t, frame),
            after.stack@,
            after.gas_state,
            info.regs@[7],
            outcome,
            r,
        );
}

/// A call of an instance that the caller holds goes on where it is paid for, calls are
/// not nested too deep, the image is published and has the endpoint, and declares no
/// gas slots.
pub proof fn law_call_goes_on(
    kernel: Kernel,
    kernel_after: Kernel,
    before: Seq<StackEntry>,
    gas: TaskGasState,
    iid: u64,
    info: ExitInfo,
    frame_cost: u64,
    after: KernelTask,
    r: Result<TaskPoll, u32>,
    inst: ResidentInstance,
    img: KernelImageCap,
    own: KernelImageCap,
    n: int,
)
    requires
        stack_wf(before),
        0 < before.len() < 32768,
        polled(kernel, kernel_after, before, gas, iid, info, frame_cost, after, r),
        asks_for(info, 26),
        frame_cost <= i64::MAX,
        gas.live_gas >= frame_cost + (if info.exit_reason == EXIT_HOST_CALL {
            kernel.config.ecalli_cost
        } else {
            kernel.config.ecall_cost
        }),
        ({
            let f = frame_in(before, before.last().target as int);
            let key = named(f.regs@[7]);
            let dir = kernel.directory@;
            &&& dir.contains_key(f.image_hash)
            &&& *dir[f.image_hash] == WireCap::Image(own)
            &&& own.yield_receiver_slot matches Some(s) ==> !f.pending@.contains_key(s@)
            &&& !f.pending@.contains_key(key)
            &&& f.cnode@.contains_key(key)
            &&& f.cnode@[key] == Target::Instance(Box::new(inst))
            &&& inst.root is Resident
            &&& dir.contains_key(inst.image_hash)
            &&& *dir[inst.image_hash] == WireCap::Image(img)
            &&& img.gas_slots@.len() == 0
            &&& 0 <= n < img.endpoints@.len()
            &&& img.endpoints@[n].0 == f.regs@[8] % 256
        }),
    ensures
        goes_on(r),
        after.stack@.len() == before.len() + 1,
        after.stack@.last().kind is Instance,
{
    let t = before.last().target as int;
    let top = before.len() - 1;
    assert(entry_wf(before, top));
    let f = frame_in(before, t);
    lemma_named(f.regs@[7]);
    lemma_named(f.regs@[8]);
    let dir = kernel.directory@;
    let selector = (f.regs@[8] & 0xFF) as u8;
    assert((f.regs@[8] & 0xFF) as u8 == f.regs@[8] % 256) by {
        let reg = f.regs@[8];
        assert((reg & 0xFF) == reg % 256) by (bit_vector);
        assert((reg & 0xFF) <= 0xFF) by (bit_vector);
    }
    lemma_endpoint_exists(img.endpoints@, selector, n);
    let paid = crate::kernel::call_loop::charged(
        gas,
        crate::kernel::call_loop::op_cost(
            kernel,
            crate::kernel::stack::frame_of(before, top),
            info,
            frame_cost,
        ),
    );
    let value = info.regs@[7];
    assert(crate::kernel::call_loop::call_polled(
        kernel,
        before,
        after.stack@,
        iid,
        after.next_iid,
        paid,
        value,
        r,
    ));
    let (parent, d) = choose|parent: KernelFrame, d: Result<Option<KernelFrame>, u32>|
        #[trigger] crate::kernel::dispatch::call_done(dir, f, parent, t as usize, d)
            && crate::kernel::call_loop::call_answered(
            kernel,
            before,
            after.stack@,
            iid,
            after.next_iid,
            parent,
            d,
            paid,
            value,
            r,
        );
    let made = choose|i: ResidentInstance| #[trigger]
        crate::kernel::dispatch::is_called(dir, f.slot(reg_key(f.regs@[7]))->0, i)
            && crate::kernel::dispatch::call_started(dir, f, parent, t as usize, i, d);
    assert(made == inst);
}

proof fn lemma_endpoint_exists(
    endpoints: Seq<(u8, crate::cap::EndpointDef)>,
    selector: u8,
    n: int,
)
    requires
        0 <= n < endpoints.len(),
        endpoints[n].0 == selector,
    ensures
        crate::kernel::frame::endpoint_at(endpoints, selector) is Some,
    decreases endpoints.len(),
{
    if endpoints[0].0 != selector {
        assert(endpoints.drop_first()[n - 1] == endpoints[n]);
        lemma_endpoint_exists(endpoints.drop_first(), selector, n - 1);
    }
}

} // verus!
