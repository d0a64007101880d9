//! What holds of the kernel across its operations.
use vstd::prelude::*;

use crate::kernel::call_loop::{
    call_answered, call_polled, call_refused, is_pending, op_cost, polled, EntryExit, KernelTask,
    LoopOutcome, TaskPoll, EXIT_ECALL, EXIT_HOST_CALL,
};
use crate::kernel::dispatch::{call_done, call_started, is_called, Kernel, SCRATCHPAD_SLOT};
use crate::kernel::frame::{origin_of, slot_of, KernelFrame, ResidentInstance, Target};
use crate::kernel::gas::TaskGasState;
use crate::kernel::key::{byte_key, has_key, reg_key};
use crate::kernel::runtime::ExitInfo;
use crate::kernel::scheduler::{turn_taken, KernelScheduler};
use crate::kernel::stack::{
    entry_wf, frame_of, has_frame, own_frame, stack_wf, with_frame, StackEntry, STATUS_OK,
};
use crate::hash::CapHash;
use crate::kernel::caps::Role;
use crate::kernel::transfer::{
    catcher_of, is_returned, oog_handled, reattempts, resumed, returned, with_scratch, yielded,
};
use crate::kernel::yields::{is_handle, label};

verus! {

/// What is called comes back: when a call has returned, the slot that was called holds
/// the instance as the run has left it, nothing is reserved that was not before, the
/// caller has the return value and the status, and its other slots are as they were,
/// but for the scratchpad, which went along. The entries of other frames are not
/// touched.
pub proof fn law_call_then_return(
    kernel: Kernel,
    before: Seq<StackEntry>,
    called: Seq<StackEntry>,
    callee: KernelFrame,
    after: Seq<StackEntry>,
    iid: u64,
    iid_after: u64,
    gas: TaskGasState,
    value: u64,
    return_value: u64,
    drained: bool,
    r: Result<TaskPoll, u32>,
)
    requires
        stack_wf(before),
        before.len() > 0,
        call_polled(kernel, before, called, iid, iid_after, gas, value, r),
        is_pending(r),
        origin_of(callee.origin) == origin_of(own_frame(called.last()).origin),
        returned(with_frame(called, called.len() - 1, callee), after, return_value, drained),
    ensures
        ({
            let t = before.last().target as int;
            let caller = own_frame(before[t]);
            let now = own_frame(after[t]);
            let key = reg_key(caller.regs@[7]);
            &&& !drained
            &&& after.len() == before.len()
            &&& slot_of(now.cnode@, key) matches Some(Target::Instance(inst)) && is_returned(
                *inst,
                callee,
            )
            &&& now.pending@ == caller.pending@
            &&& now.regs@ == caller.regs@.update(7, return_value).update(8, STATUS_OK)
            &&& now.mem == caller.mem
            &&& forall|k: Seq<u8>|
                k != key && k != byte_key(SCRATCHPAD_SLOT) ==> #[trigger] slot_of(now.cnode@, k)
                    == slot_of(caller.cnode@, k)
            &&& forall|i: int| 0 <= i < before.len() && i != t ==> #[trigger] after[i] == before[i]
        }),
{
    let t = before.last().target as int;
    let caller = own_frame(before[t]);
    let key = reg_key(caller.regs@[7]);
    assert(entry_wf(before, before.len() - 1));
    let dir = kernel.directory@;
    let (parent, d) = choose|parent: KernelFrame, d: Result<Option<KernelFrame>, u32>|
        #[trigger] call_done(dir, caller, parent, t as usize, d) && call_answered(
            kernel,
            before,
            called,
            iid,
            iid_after,
            parent,
            d,
            gas,
            value,
            r,
        );
    let child = d->Ok_0->0;
    let inst = choose|inst: ResidentInstance| #[trigger]
        is_called(dir, caller.slot(key)->0, inst) && call_started(
            dir,
            caller,
            parent,
            t as usize,
            inst,
            d,
        );
    assert(is_called(dir, caller.slot(key)->0, inst));
    assert(!caller.is_pending(key));
    assert(caller.pending@.insert(key, ()).remove(key) =~= caller.pending@);
    let (parent_after, child_after) = choose|parent_after: KernelFrame, child_after: KernelFrame|
        #[trigger] crate::kernel::call_loop::scratch_moved(
            parent,
            parent_after,
            child,
            child_after,
        ) && called.drop_last() == with_frame(before, t, parent_after)
            && crate::kernel::call_loop::is_call_entry(
            dir,
            before,
            iid,
            child_after,
            called.last(),
        );
    let mid = with_frame(called, called.len() - 1, callee);
    let n = mid.len() as int;
    assert(called.len() == before.len() + 1);
    assert(called[n - 2] == called.drop_last()[n - 2]);
    assert(mid[n - 2].target == t);
    assert(mid[t] == called.drop_last()[t]);
    assert(own_frame(mid[t]) == parent_after);
    assert(own_frame(mid[n - 1]) == callee);
    let now = own_frame(after[t]);
    assert forall|i: int| 0 <= i < before.len() && i != t implies #[trigger] after[i]
        == before[i] by {
        assert(after[i] == mid.drop_last()[i]);
        assert(mid[i] == called.drop_last()[i]);
    }
}

/// A yield that was routed, handled and then answered leaves the yielder on top, told
/// so, with the answer in its scratchpad; its other slots are as they were, whatever
/// the handler has done.
pub proof fn law_yield_then_resume(
    before: Seq<StackEntry>,
    routed: Seq<StackEntry>,
    handled: Seq<StackEntry>,
    after: Seq<StackEntry>,
    key: Seq<u8>,
    payload: Option<ResidentInstance>,
)
    requires
        stack_wf(before),
        before.len() > 0,
        yielded(before, routed, before.len() - 1, key, payload, true),
        handled.len() == routed.len(),
        handled.last().target == routed.last().target,
        handled[routed.len() - 2] == routed[routed.len() - 2],
        handled[before.last().target as int] == routed[before.last().target as int],
        resumed(handled, after),
    ensures
        ({
            let y = before.last().target as int;
            let h = routed.last().target as int;
            let was = own_frame(before[y]);
            let now = own_frame(after[y]);
            &&& after.len() == before.len()
            &&& now.regs@[8] == STATUS_OK
            &&& now.pc == was.pc
            &&& now.mem == was.mem
            &&& now.pending@ == was.pending@
            &&& forall|i: int|
                0 <= i < now.regs@.len() && i != 8 ==> #[trigger] now.regs@[i] == was.regs@[i]
            &&& now.cnode@ == with_scratch(
                was.cnode@,
                slot_of(own_frame(handled[h]).cnode@, byte_key(SCRATCHPAD_SLOT)),
            )
        }),
{
    let top = before.len() - 1;
    let y = before[top].target as int;
    assert(entry_wf(before, top));
    crate::kernel::transfer::lemma_catcher(before, y, key);
    let c = catcher_of(before, y, key)->0;
    assert(c < y);
    let n = routed.len() as int;
    assert(routed[n - 2] == routed.drop_last()[n - 2]);
    assert(routed[y] == routed.drop_last()[y]);
    assert(routed[y] == before[y]);
    assert(routed[n - 2].target == y);
    assert(routed[n - 1].target == c);
}

/// The entry that is `k` owners away.
pub open spec fn owner_after(stack: Seq<StackEntry>, node: int, k: nat) -> Option<int>
    decreases k,
{
    if k == 0 {
        Some(node)
    } else {
        match owner_after(stack, node, (k - 1) as nat) {
            Some(m) => match stack[m].owner {
                Some(o) => Some(o as int),
                None => None,
            },
            None => None,
        }
    }
}

/// Whether the owner that is `k + 1` away catches `key`.
pub open spec fn catches_at(stack: Seq<StackEntry>, node: int, k: nat, key: Seq<u8>) -> bool {
    owner_after(stack, node, k) matches Some(m) && stack[m].owner is Some && has_key(
        stack[m].owner_catch_set@,
        key,
    )
}

/// A yield goes to the nearest owner that catches its key, and to nobody only if no
/// owner does.
pub proof fn law_yield_goes_to_nearest_owner(stack: Seq<StackEntry>, node: int, key: Seq<u8>)
    requires
        stack_wf(stack),
        0 <= node < stack.len(),
    ensures
        match catcher_of(stack, node, key) {
            Some(c) => exists|k: nat|
                {
                    &&& #[trigger] catches_at(stack, node, k, key)
                    &&& owner_after(stack, node, k + 1) == Some(c)
                    &&& forall|j: nat| j < k ==> !#[trigger] catches_at(stack, node, j, key)
                },
            None => forall|k: nat| !#[trigger] catches_at(stack, node, k, key),
        },
    decreases node,
{
    assert(entry_wf(stack, node));
    assert(owner_after(stack, node, 0) == Some(node));
    match stack[node].owner {
        None => {
            assert forall|k: nat| !#[trigger] catches_at(stack, node, k, key) by {
                lemma_no_owner(stack, node, k);
            }
        },
        Some(o) => {
            let o = o as int;
            if has_key(stack[node].owner_catch_set@, key) {
                assert(catches_at(stack, node, 0, key));
                assert(owner_after(stack, node, 0 + 1) == Some(o));
            } else {
                law_yield_goes_to_nearest_owner(stack, o, key);
                assert(!catches_at(stack, node, 0, key));
                match catcher_of(stack, o, key) {
                    Some(c) => {
                        let k = choose|k: nat|
                            {
                                &&& #[trigger] catches_at(stack, o, k, key)
                                &&& owner_after(stack, o, k + 1) == Some(c)
                                &&& forall|j: nat|
                                    j < k ==> !#[trigger] catches_at(stack, o, j, key)
                            };
                        lemma_owner_step(stack, node, o, k);
                        lemma_owner_step(stack, node, o, k + 1);
                        assert(catches_at(stack, node, k + 1, key));
                        assert forall|j: nat| j < k + 1 implies !#[trigger] catches_at(
                            stack,
                            node,
                            j,
                            key,
                        ) by {
                            if j > 0 {
                                lemma_owner_step(stack, node, o, (j - 1) as nat);
                                assert(!catches_at(stack, o, (j - 1) as nat, key));
                            }
                        }
                    },
                    None => {
                        assert forall|k: nat| !#[trigger] catches_at(stack, node, k, key) by {
                            if k > 0 {
                                lemma_owner_step(stack, node, o, (k - 1) as nat);
                                assert(!catches_at(stack, o, (k - 1) as nat, key));
                            }
                        }
                    },
                }
            }
        },
    }
}

proof fn lemma_no_owner(stack: Seq<StackEntry>, node: int, k: nat)
    requires
        stack[node].owner is None,
    ensures
        k > 0 ==> owner_after(stack, node, k) is None,
    decreases k,
{
    if k > 0 {
        lemma_no_owner(stack, node, (k - 1) as nat);
    }
}

proof fn lemma_owner_step(stack: Seq<StackEntry>, node: int, o: int, k: nat)
    requires
        stack[node].owner matches Some(p) && p == o,
    ensures
        owner_after(stack, node, k + 1) == owner_after(stack, o, k),
    decreases k,
{
    reveal_with_fuel(owner_after, 2);
    if k > 0 {
        lemma_owner_step(stack, node, o, (k - 1) as nat);
    }
}

/// A turn of one task leaves every other task as it is, its gas with it.
pub proof fn law_turn_leaves_other_tasks(
    kernel: Kernel,
    kernel_after: Kernel,
    before: KernelScheduler,
    after: KernelScheduler,
    target: u64,
    answer: (EntryExit, u64),
    r: Result<Option<LoopOutcome>, u32>,
    other: u64,
)
    requires
        turn_taken(kernel, kernel_after, before, after, target, answer, r),
        other != before.ready@[0],
    ensures
        after.tasks@.contains_key(other) == before.tasks@.contains_key(other),
        before.tasks@.contains_key(other) ==> after.tasks@[other] == before.tasks@[other],
{
}

/// A kernel call that cannot be paid for moves nothing: the gas is as it was, nothing
/// is reserved that was not before, and every slot of every frame is as it was, but
/// for the scratchpad of a frame that is asked to fill up the meter.
pub proof fn law_unpaid_call_moves_nothing(
    kernel: Kernel,
    kernel_after: Kernel,
    before: Seq<StackEntry>,
    gas: TaskGasState,
    iid: u64,
    info: ExitInfo,
    frame_cost: u64,
    after: KernelTask,
    r: Result<TaskPoll, u32>,
    i: int,
)
    requires
        stack_wf(before),
        before.len() > 0,
        polled(kernel, kernel_after, before, gas, iid, info, frame_cost, after, r),
        info.exit_reason == EXIT_HOST_CALL || info.exit_reason == EXIT_ECALL,
        call_refused(kernel, before, info) is None,
        gas.live_gas < op_cost(kernel, frame_of(before, before.len() - 1), info, frame_cost),
        0 <= i < before.len(),
        has_frame(before[i]),
    ensures
        after.gas_state == gas,
        kernel_after == kernel,
        i < after.stack@.len(),
        own_frame(after.stack@[i]).pending@ == own_frame(before[i]).pending@,
        own_frame(after.stack@[i]).mem == own_frame(before[i]).mem,
        forall|k: Seq<u8>|
            k != byte_key(SCRATCHPAD_SLOT) ==> #[trigger] slot_of(
                own_frame(after.stack@[i]).cnode@,
                k,
            ) == slot_of(own_frame(before[i]).cnode@, k),
{
    let top = before.len() - 1;
    let pc = if info.pc >= 4 {
        (info.pc - 4) as u32
    } else {
        0
    };
    assert(entry_wf(before, top));
    if oog_handled(before, after.stack@, top, pc, kernel.config.gas_image, true) {
        lemma_oog_keeps_frames(before, after.stack@, pc, kernel.config.gas_image, true, i);
    } else {
        lemma_oog_keeps_frames(before, after.stack@, pc, kernel.config.gas_image, false, i);
    }
}

/// Whether `after` has what a frame has, but for its pc, its registers and its
/// scratchpad.
spec fn frame_kept(before: KernelFrame, after: KernelFrame) -> bool {
    &&& after.pending@ == before.pending@
    &&& after.mem == before.mem
    &&& forall|k: Seq<u8>|
        k != byte_key(SCRATCHPAD_SLOT) ==> #[trigger] slot_of(after.cnode@, k) == slot_of(
            before.cnode@,
            k,
        )
}

proof fn lemma_oog_keeps_frames(
    before: Seq<StackEntry>,
    after: Seq<StackEntry>,
    pc: u32,
    gas_image: CapHash,
    handled: bool,
    i: int,
)
    requires
        stack_wf(before),
        before.len() > 0,
        oog_handled(before, after, before.len() - 1, pc, gas_image, handled),
        0 <= i < before.len(),
        has_frame(before[i]),
    ensures
        i < after.len(),
        frame_kept(own_frame(before[i]), own_frame(after[i])),
{
    let top = before.len() - 1;
    let t = before[top].target as int;
    assert(entry_wf(before, top));
    let gas = before[top].gas;
    if let Some(a) = gas.active {
        if a + 1 < gas.meters@.len() {
            lemma_reattempt_keeps_frames(before, after, pc, Some((a + 1) as usize), i);
        } else {
            let (mid, payload) = choose|mid: Seq<StackEntry>, payload: ResidentInstance|
                #![trigger reattempts(before, mid, top, pc, Some(0usize)), is_handle(
                    payload,
                    gas_image,
                )]
                {
                    &&& reattempts(before, mid, top, pc, Some(0usize))
                    &&& is_handle(payload, gas_image)
                    &&& *payload.role matches Role::Gas(k)
                    &&& k@ == gas.meters@[0]@
                    &&& yielded(mid, after, top, label("kernel:oog"@), Some(payload), handled)
                };
            lemma_reattempt_keeps_frames(before, mid, pc, Some(0usize), i);
            let key = label("kernel:oog"@);
            assert forall|j: int| 0 <= j < before.len() implies (#[trigger] mid[j]).owner
                == before[j].owner && mid[j].owner_catch_set == before[j].owner_catch_set by {
                if j == t {
                    assert(entry_wf(before, t));
                }
            }
            assert(mid[top].target == t);
            lemma_catcher_same(before, mid, t, key);
            crate::kernel::transfer::lemma_catcher(before, t, key);
            match catcher_of(mid, t, key) {
                None => {},
                Some(c) => {
                    assert(after[i] == after.drop_last()[i]);
                    if i == c {
                        assert(frame_kept(own_frame(mid[c]), own_frame(after[c])));
                    }
                },
            }
        }
    }
}

proof fn lemma_catcher_same(
    before: Seq<StackEntry>,
    after: Seq<StackEntry>,
    node: int,
    key: Seq<u8>,
)
    requires
        0 <= node < before.len(),
        forall|j: int|
            0 <= j < before.len() ==> (#[trigger] after[j]).owner == before[j].owner
                && after[j].owner_catch_set == before[j].owner_catch_set,
    ensures
        catcher_of(after, node, key) == catcher_of(before, node, key),
    decreases node,
{
    assert(after[node].owner == before[node].owner);
    if let Some(o) = before[node].owner {
        if 0 <= o < node {
            lemma_catcher_same(before, after, o as int, key);
        }
    }
}

proof fn lemma_reattempt_keeps_frames(
    before: Seq<StackEntry>,
    after: Seq<StackEntry>,
    pc: u32,
    active: Option<usize>,
    i: int,
)
    requires
        stack_wf(before),
        before.len() > 0,
        reattempts(before, after, before.len() - 1, pc, active),
        0 <= i < before.len(),
        has_frame(before[i]),
    ensures
        i < after.len(),
        has_frame(after[i]),
        frame_kept(own_frame(before[i]), own_frame(after[i])),
{
    assert(entry_wf(before, before.len() - 1));
}

} // verus!
