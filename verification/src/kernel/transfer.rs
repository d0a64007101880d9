//! Transfer of control on the stack: yields, returns and resumptions.
use vstd::prelude::*;

use crate::hash::CapHash;
use crate::kernel::caps::Role;
use crate::kernel::dispatch::SCRATCHPAD_SLOT;
use crate::kernel::frame::{origin_of, slot_of, KernelFrame, ResidentInstance, Root, Target};
use crate::kernel::gas::FrameGas;
use crate::kernel::key::{byte_key, contains_key, has_key, Key};
use crate::kernel::runtime::{overlaid_at, rearmed, FrameRuntime};
use crate::kernel::stack::{
    entry_released, entry_wf, frame_at_mut, frame_of, has_frame, lemma_frame_changed,
    lemma_reference_pushed, lemma_released_prefix, origin_at, origins_differ, own_frame, released,
    release_pending_origins_for_dropped, reservations_wf, reserved_above, stack_wf, with_frame,
    EntryKind, StackEntry, ERR_PENDING_ORIGIN_INVARIANT, STATUS_OK, STATUS_YIELDED,
};
use crate::kernel::yields::{is_handle, label, make_handle};

verus! {

/// The nearest owner, from entry `node` on, that catches `key`.
pub open spec fn catcher_of(stack: Seq<StackEntry>, node: int, key: Seq<u8>) -> Option<int>
    decreases node,
{
    match stack[node].owner {
        Some(o) => if has_key(stack[node].owner_catch_set@, key) {
            Some(o as int)
        } else if 0 <= o < node {
            catcher_of(stack, o as int, key)
        } else {
            None
        },
        None => None,
    }
}

/// The slots with a cap moved into the scratchpad, if there is one.
pub open spec fn with_scratch(
    slots: Map<Seq<u8>, Target>,
    cap: Option<Target>,
) -> Map<Seq<u8>, Target> {
    match cap {
        Some(t) => slots.insert(byte_key(SCRATCHPAD_SLOT), t),
        None => slots,
    }
}

/// Whether `after` is `before` with the given slots and register 8.
pub open spec fn told(
    before: KernelFrame,
    after: KernelFrame,
    slots: Map<Seq<u8>, Target>,
    status: u64,
) -> bool {
    &&& after == (KernelFrame { cnode: after.cnode, regs: after.regs, ..before })
    &&& after.cnode@ == slots
    &&& after.regs@ == before.regs@.update(8, status)
}

/// What an instance becomes in a slot.
pub open spec fn owned(inst: Option<ResidentInstance>) -> Option<Target> {
    match inst {
        Some(i) => Some(Target::Instance(Box::new(i))),
        None => None,
    }
}

/// Whether `e` is a reference to entry `c`, as a yield to it makes it.
pub open spec fn handles(stack: Seq<StackEntry>, c: int, e: StackEntry) -> bool {
    &&& e.kind == EntryKind::Reference
    &&& e.target == c
    &&& e.instance_id == stack[c].instance_id
    &&& e.owner == stack[c].owner
    &&& e.owner_catch_set@ == Seq::<Key>::empty()
    &&& e.gas.same_as(&stack[c].gas)
}

/// What a yield from entry `top` comes to: its catcher, if there is one, goes on
/// with the payload in its scratchpad, above the yielder, which waits.
pub open spec fn yielded(
    before: Seq<StackEntry>,
    after: Seq<StackEntry>,
    top: int,
    key: Seq<u8>,
    payload: Option<ResidentInstance>,
    routed: bool,
) -> bool {
    match catcher_of(before, before[top].target as int, key) {
        None => !routed && after == before,
        Some(c) => {
            &&& routed
            &&& after.len() == before.len() + 1
            &&& after.drop_last() == with_frame(before, c, own_frame(after[c]))
            &&& told(
                own_frame(before[c]),
                own_frame(after[c]),
                with_scratch(own_frame(before[c]).cnode@, owned(payload)),
                STATUS_YIELDED,
            )
            &&& handles(before, c, after.last())
        },
    }
}

/// A catcher is an earlier entry with a frame.
pub proof fn lemma_catcher(stack: Seq<StackEntry>, node: int, key: Seq<u8>)
    requires
        stack_wf(stack),
        0 <= node < stack.len(),
    ensures
        catcher_of(stack, node, key) matches Some(c) ==> 0 <= c < node && has_frame(stack[c]),
    decreases node,
{
    assert(entry_wf(stack, node));
    if let Some(o) = stack[node].owner {
        if !has_key(stack[node].owner_catch_set@, key) {
            lemma_catcher(stack, o as int, key);
        }
    }
}

fn set_scratch(frame: &mut KernelFrame, cap: Option<Target>)
    ensures
        *final(frame) == (KernelFrame { cnode: final(frame).cnode, ..*old(frame) }),
        final(frame).cnode@ == with_scratch(old(frame).cnode@, cap),
{
    if let Some(t) = cap {
        frame.cnode.insert(Key::from_byte(SCRATCHPAD_SLOT), t);
    }
}

fn take_scratch(frame: &mut KernelFrame) -> (cap: Option<Target>)
    ensures
        *final(frame) == (KernelFrame { cnode: final(frame).cnode, ..*old(frame) }),
        final(frame).cnode@ == old(frame).cnode@.remove(byte_key(SCRATCHPAD_SLOT)),
        cap == slot_of(old(frame).cnode@, byte_key(SCRATCHPAD_SLOT)),
{
    frame.cnode.remove(&Key::from_byte(SCRATCHPAD_SLOT))
}

/// Yield `key` from entry `top_idx`: follow the owners to the nearest that catches
/// it, and let it handle the yield.
pub fn route_yield(
    stack: &mut Vec<StackEntry>,
    top_idx: usize,
    key: &Key,
    payload: Option<ResidentInstance>,
) -> (routed: bool)
    requires
        stack_wf(old(stack)@),
        top_idx < old(stack)@.len(),
    ensures
        yielded(old(stack)@, final(stack)@, top_idx as int, key@, payload, routed),
        stack_wf(final(stack)@),
{
    let ghost before = stack@;
    assert(entry_wf(before, top_idx as int));
    let mut node: usize = stack[top_idx].target;
    let mut catcher: Option<usize> = None;
    while catcher.is_none() && stack[node].owner.is_some()
        invariant
            stack@ == before,
            stack_wf(before),
            node < before.len(),
            match catcher {
                Some(c) => catcher_of(before, before[top_idx as int].target as int, key@) == Some(
                    c as int,
                ) && c < before.len() && has_frame(before[c as int]),
                None => catcher_of(before, before[top_idx as int].target as int, key@)
                    == catcher_of(before, node as int, key@),
            },
        decreases (if catcher is None {
            1int
        } else {
            0
        }) + node,
    {
        assert(entry_wf(before, node as int));
        let owner: usize = match stack[node].owner {
            Some(o) => o,
            None => node,
        };
        if contains_key(stack[node].owner_catch_set.as_slice(), key) {
            catcher = Some(owner);
        } else {
            node = owner;
        }
    }
    let c: usize = match catcher {
        None => return false,
        Some(c) => c,
    };
    assert(entry_wf(before, c as int));
    let entry = StackEntry {
        kind: EntryKind::Reference,
        target: c,
        instance_id: stack[c].instance_id,
        owner: stack[c].owner,
        owner_catch_set: Vec::new(),
        gas: stack[c].gas.duplicate(),
    };
    let frame = frame_at_mut(stack, c);
    let cap: Option<Target> = match payload {
        Some(i) => Some(Target::Instance(Box::new(i))),
        None => None,
    };
    set_scratch(frame, cap);
    frame.regs[8] = STATUS_YIELDED;
    let ghost touched = stack@;
    proof {
        let f = own_frame(touched[c as int]);
        assert(f.regs@ =~= own_frame(before[c as int]).regs@.update(8, STATUS_YIELDED));
        lemma_frame_changed(before, c as int, f);
        assert(touched =~= with_frame(before, c as int, f));
        assert(entry.owner_catch_set@ =~= Seq::<Key>::empty());
    }
    let ghost pushed = entry;
    stack.push(entry);
    let _len: usize = stack.len();
    proof {
        lemma_reference_pushed(touched, pushed);
    }
    assert(stack@.drop_last() =~= touched);
    true
}

/// Whether `after` is `before` with another pc in the frame that entry `top` runs
/// and another scope in use by it.
pub open spec fn reattempts(
    before: Seq<StackEntry>,
    after: Seq<StackEntry>,
    top: int,
    pc: u32,
    active: Option<usize>,
) -> bool {
    let t = before[top].target as int;
    let moved = with_frame(before, t, KernelFrame { pc: pc as u64, ..own_frame(before[t]) });
    &&& after.len() == before.len()
    &&& forall|i: int| 0 <= i < before.len() && i != top ==> #[trigger] after[i] == moved[i]
    &&& after[top] == (StackEntry { gas: after[top].gas, ..moved[top] })
    &&& after[top].gas == (FrameGas { active, ..moved[top].gas })
}

/// What running out of gas comes to. A frame without meters stops. One with
/// another meter goes on with that. One at its last meter yields its first to a
/// catcher of `kernel:oog`, which can fill it up; without a catcher it stops.
pub open spec fn oog_handled(
    before: Seq<StackEntry>,
    after: Seq<StackEntry>,
    top: int,
    pc: u32,
    gas_image: CapHash,
    handled: bool,
) -> bool {
    let gas = before[top].gas;
    match gas.active {
        None => !handled && after == before,
        Some(i) => if i + 1 < gas.meters@.len() {
            handled && reattempts(before, after, top, pc, Some((i + 1) as usize))
        } else {
            exists|mid: Seq<StackEntry>, payload: ResidentInstance|
                #![trigger reattempts(before, mid, top, pc, Some(0usize)), is_handle(
                    payload,
                    gas_image,
                )]
                {
                    &&& reattempts(before, mid, top, pc, Some(0usize))
                    &&& is_handle(payload, gas_image)
                    &&& *payload.role matches Role::Gas(k)
                    &&& k@ == gas.meters@[0]@
                    &&& yielded(
                        mid,
                        after,
                        top,
                        label("kernel:oog"@),
                        Some(payload),
                        handled,
                    )
                }
        },
    }
}

/// The frame that entry `top_idx` runs is out of gas at `reattempt_pc`. Whether the
/// task goes on.
pub fn try_oog_yield(
    stack: &mut Vec<StackEntry>,
    top_idx: usize,
    reattempt_pc: u32,
    gas_image: &CapHash,
) -> (handled: bool)
    requires
        stack_wf(old(stack)@),
        top_idx < old(stack)@.len(),
    ensures
        oog_handled(
            old(stack)@,
            final(stack)@,
            top_idx as int,
            reattempt_pc,
            *gas_image,
            handled,
        ),
        stack_wf(final(stack)@),
{
    let ghost before = stack@;
    assert(entry_wf(before, top_idx as int));
    if stack[top_idx].gas.active_key().is_none() {
        return false;
    }
    let ghost t = before[top_idx as int].target as int;
    let frame = frame_at_mut(stack, top_idx);
    frame.pc = reattempt_pc as u64;
    let ghost moved = stack@;
    proof {
        assert(entry_wf(before, t));
        lemma_frame_changed(
            before,
            t,
            KernelFrame { pc: reattempt_pc as u64, ..own_frame(before[t]) },
        );
        assert(entry_wf(moved, top_idx as int));
    }
    let advanced = stack[top_idx].gas.advance();
    proof {
        lemma_gas_changed(moved, stack@, top_idx as int);
    }
    if advanced {
        return true;
    }
    let meter = match stack[top_idx].gas.primary_key() {
        Some(k) => k,
        None => return false,
    };
    stack[top_idx].gas.reset_to_primary();
    let ghost mid = stack@;
    proof {
        lemma_gas_changed(moved, mid, top_idx as int);
        assert(reattempts(before, mid, top_idx as int, reattempt_pc, Some(0usize)));
    }
    let oog = Key::from_label("kernel:oog");
    let payload = make_handle(gas_image, Role::Gas(meter));
    let ghost handle = payload;
    assert(is_handle(handle, *gas_image));
    route_yield(stack, top_idx, &oog, Some(payload))
}

proof fn lemma_gas_changed(before: Seq<StackEntry>, after: Seq<StackEntry>, top: int)
    requires
        stack_wf(before),
        0 <= top < before.len(),
        after.len() == before.len(),
        forall|i: int| 0 <= i < before.len() && i != top ==> #[trigger] after[i] == before[i],
        after[top] == (StackEntry { gas: after[top].gas, ..before[top] }),
        after[top].gas.wf(),
    ensures
        stack_wf(after),
{
    assert forall|i: int| 0 <= i < before.len() implies #[trigger] origin_at(after, i) == origin_at(
        before,
        i,
    ) by {
    }
    assert forall|i: int| 0 <= i < after.len() implies #[trigger] entry_wf(after, i) by {
        assert(entry_wf(before, i));
        assert(origin_at(after, i) == origin_at(before, i));
        if i > 0 {
            assert(entry_wf(before, i - 1));
        }
    }
    assert forall|i: int| 0 <= i < after.len() implies #[trigger] reservations_wf(after, i) by {
        assert(reservations_wf(before, i));
        assert forall|s: Seq<u8>|
            has_frame(after[i]) && #[trigger] own_frame(after[i]).is_pending(s) implies exists|j: int|
            i < j < after.len() && #[trigger] origin_at(after, j) == Some((i as usize, s)) by {
            assert(own_frame(before[i]).is_pending(s));
            let j = choose|j: int|
                i < j < before.len() && #[trigger] origin_at(before, j) == Some((i as usize, s));
            assert(origin_at(after, j) == origin_at(before, j));
        }
    }
    assert forall|i: int, j: int|
        #![trigger origin_at(after, i), origin_at(after, j)]
        0 <= i < j < after.len() implies origins_differ(after, i, j) by {
        assert(origin_at(after, i) == origin_at(before, i));
        assert(origin_at(after, j) == origin_at(before, j));
        assert(origins_differ(before, i, j));
    }
}

/// Whether a kept address space is that of a frame, with the write permission taken
/// from the pages that were written.
pub open spec fn kept_runtime(
    before: Option<FrameRuntime>,
    after: Option<FrameRuntime>,
    frame: KernelFrame,
) -> bool {
    match before {
        None => after is None,
        Some(rt) => after matches Some(kept) && kept == (FrameRuntime { pt: kept.pt, ..rt })
            && (forall|v: u64| #[trigger]
            kept.pt.leaf(v) == if overlaid_at(rt.data_base, frame.mem.overlay@, v) {
                rearmed(rt.pt.leaf(v))
            } else {
                rt.pt.leaf(v)
            }),
    }
}

/// Whether `inst` is the instance of a frame that has ended: what the run has made
/// of it, without the scratchpad, which went to the caller.
pub open spec fn is_returned(inst: ResidentInstance, frame: KernelFrame) -> bool {
    &&& inst.image_hash_chain == frame.image_hash_chain
    &&& inst.image_hash == frame.image_hash
    &&& inst.root matches Root::Resident(c) && c@ == frame.cnode@.remove(
        byte_key(SCRATCHPAD_SLOT),
    )
    &&& inst.mem == frame.mem
    &&& inst.regs == frame.regs
    &&& inst.pc == frame.pc
    &&& inst.gas_remaining == 0
    &&& inst.role == frame.role
    &&& kept_runtime(frame.runtime, inst.runtime, frame)
}

/// Whether the caller has got back what it called: the return value and the status
/// in registers 7 and 8, the scratchpad of the callee if it left one, and in the
/// slot it called, which is no longer reserved, the instance.
pub open spec fn is_answered(
    before: KernelFrame,
    after: KernelFrame,
    callee: KernelFrame,
    value: u64,
) -> bool {
    let slots = with_scratch(before.cnode@, slot_of(callee.cnode@, byte_key(SCRATCHPAD_SLOT)));
    &&& after == (KernelFrame {
        cnode: after.cnode,
        regs: after.regs,
        pending: after.pending,
        ..before
    })
    &&& after.regs@ == before.regs@.update(7, value).update(8, STATUS_OK)
    &&& match origin_of(callee.origin) {
        Some(o) => {
            &&& after.pending@ == before.pending@.remove(o.1)
            &&& slot_of(after.cnode@, o.1) matches Some(Target::Instance(inst)) && is_returned(
                *inst,
                callee,
            ) && after.cnode@ == slots.insert(o.1, Target::Instance(inst))
        },
        None => after.pending@ == before.pending@ && after.cnode@ == slots,
    }
}

/// What the end of the frame on top comes to. `drained`: it was the last.
pub open spec fn returned(
    before: Seq<StackEntry>,
    after: Seq<StackEntry>,
    value: u64,
    drained: bool,
) -> bool {
    let n = before.len() as int;
    if n == 1 {
        drained && after.len() == 0
    } else {
        let p = before[n - 2].target as int;
        &&& !drained
        &&& after == with_frame(before.drop_last(), p, own_frame(after[p]))
        &&& is_answered(own_frame(before[p]), own_frame(after[p]), own_frame(before[n - 1]), value)
    }
}

/// End the frame on top: give its return value and its scratchpad to the caller,
/// and put the instance back where it was called from.
#[verifier::rlimit(40)]
pub fn pop_and_reflect(stack: &mut Vec<StackEntry>, return_value: u64) -> (drained: Result<
    bool,
    u32,
>)
    requires
        stack_wf(old(stack)@),
        old(stack)@.len() > 0,
        has_frame(old(stack)@.last()),
    ensures
        drained matches Ok(d) && returned(old(stack)@, final(stack)@, return_value, d),
        stack_wf(final(stack)@),
{
    let ghost before = stack@;
    let ghost n = before.len() as int;
    assert(entry_wf(before, n - 1));
    assert(reservations_wf(before, n - 1));
    let top = match stack.pop() {
        Some(e) => e,
        None => return Err(ERR_PENDING_ORIGIN_INVARIANT),
    };
    let mut popped: KernelFrame = match top.kind {
        EntryKind::Instance(f) => *f,
        EntryKind::Reference => return Err(ERR_PENDING_ORIGIN_INVARIANT),
    };
    let ghost callee = own_frame(before[n - 1]);
    assert(popped == callee);
    proof {
        assert forall|s: Seq<u8>| !callee.pending@.contains_key(s) by {
            assert(!callee.is_pending(s));
        }
        assert(callee.pending@ =~= Map::<Seq<u8>, ()>::empty());
    }
    if popped.pending.len() != 0 {
        return Err(ERR_PENDING_ORIGIN_INVARIANT);
    }
    if stack.len() == 0 {
        return Ok(true);
    }
    let scratch = take_scratch(&mut popped);
    let KernelFrame {
        image_hash_chain,
        image_hash,
        cnode,
        mem,
        regs,
        pc,
        role,
        origin,
        mut runtime,
        ..
    } = popped;
    if let Some(rt) = &mut runtime {
        rt.rearm_cow(&mem.overlay);
    }
    let inst = ResidentInstance {
        image_hash_chain,
        image_hash,
        root: Root::Resident(cnode),
        mem,
        regs,
        pc,
        gas_remaining: 0,
        role,
        runtime,
    };
    let ghost back = inst;
    assert(is_returned(back, callee));
    let parent_idx: usize = stack.len() - 1;
    let ghost p = before[n - 2].target as int;
    assert(entry_wf(before, n - 2));
    assert(entry_wf(before, p));
    let ghost kept = stack@;
    assert(kept == before.drop_last());
    let parent = frame_at_mut(stack, parent_idx);
    parent.regs[7] = return_value;
    parent.regs[8] = STATUS_OK;
    set_scratch(parent, scratch);
    match origin {
        Some(o) => {
            if parent.pending.remove(&o.slot).is_none() {
                return Err(ERR_PENDING_ORIGIN_INVARIANT);
            }
            parent.cnode.insert(o.slot, Target::Instance(Box::new(inst)));
        },
        None => {},
    }
    proof {
        let f = own_frame(stack@[p]);
        let old_f = own_frame(before[p]);
        assert(f.regs@ =~= old_f.regs@.update(7, return_value).update(8, STATUS_OK));
        assert(stack@ =~= with_frame(before.drop_last(), p, f));
        assert(origin_at(before, n - 1) is Some);
        let slot = origin_of(callee.origin)->0;
        assert(is_answered(old_f, f, callee, return_value));
        lemma_returned_wf(before, f);
    }
    Ok(false)
}

proof fn lemma_returned_wf(before: Seq<StackEntry>, frame: KernelFrame)
    requires
        stack_wf(before),
        before.len() >= 2,
        has_frame(before.last()),
        origin_of(frame.origin) == origin_of(
            frame_of(before, before.len() - 2).origin,
        ),
        origin_at(before, before.len() - 1) matches Some(o) ==> frame.pending@ == frame_of(
            before,
            before.len() - 2,
        ).pending@.remove(o.1),
    ensures
        stack_wf(
            with_frame(before.drop_last(), before[before.len() - 2].target as int, frame),
        ),
{
    let n = before.len() as int;
    let start = n - 1;
    assert(entry_wf(before, n - 1));
    assert(entry_wf(before, n - 2));
    let p = before[n - 2].target as int;
    assert(entry_wf(before, p));
    let slot = origin_at(before, n - 1)->0;
    let lean = KernelFrame { pending: frame.pending, ..own_frame(before[p]) };
    let mid = with_frame(before, p, lean);
    assert forall|i: int| 0 <= i < start implies #[trigger] entry_released(
        before,
        mid,
        start,
        i,
    ) by {
        if has_frame(before[i]) {
            assert forall|s: Seq<u8>| #[trigger] own_frame(mid[i]).is_pending(s) <==> own_frame(
                before[i],
            ).is_pending(s) && !reserved_above(before, start, i, s) by {
                if reserved_above(before, start, i, s) {
                    let j = choose|j: int|
                        start <= j < before.len() && #[trigger] origin_at(before, j) == Some(
                            (i as usize, s),
                        );
                    assert(j == n - 1);
                }
                if i == p && s == slot.1 {
                    assert(origin_at(before, n - 1) == Some((i as usize, s)));
                }
            }
        }
    }
    assert(released(before, mid, start));
    lemma_released_prefix(before, mid, start);
    let prefix = mid.take(start);
    lemma_frame_changed(prefix, p, frame);
    assert(with_frame(prefix, p, frame) =~= with_frame(before.drop_last(), p, frame));
}

/// Whether everything above entry `handler` was dropped: the frames there are gone,
/// with the instances they ran, and the slots they came from stay empty.
pub open spec fn dropped_above(
    before: Seq<StackEntry>,
    after: Seq<StackEntry>,
    handler: int,
) -> bool {
    exists|mid: Seq<StackEntry>| #[trigger]
        released(before, mid, handler + 1) && after == mid.take(handler + 1)
}

/// Drop everything above entry `handler`.
pub fn drop_above(stack: &mut Vec<StackEntry>, handler: usize)
    requires
        stack_wf(old(stack)@),
        handler < old(stack)@.len(),
    ensures
        dropped_above(old(stack)@, final(stack)@, handler as int),
        stack_wf(final(stack)@),
        final(stack)@.len() == handler + 1,
        has_frame(old(stack)@[handler as int]) ==> has_frame(final(stack)@.last()),
{
    let ghost before = stack@;
    release_pending_origins_for_dropped(stack, handler + 1);
    let ghost mid = stack@;
    assert(released(before, mid, handler + 1));
    proof {
        lemma_released_prefix(before, mid, handler + 1);
        assert(entry_released(before, mid, handler + 1, handler as int));
    }
    stack.truncate(handler + 1);
    assert(stack@ =~= mid.take(handler + 1));
}

/// What the end of the frame that runs on top comes to: where it handles a yield,
/// everything above its own entry goes with it.
pub open spec fn ended(
    before: Seq<StackEntry>,
    after: Seq<StackEntry>,
    value: u64,
    drained: bool,
) -> bool {
    let top = before.len() - 1;
    let handler = before[top].target as int;
    if handler == top {
        returned(before, after, value, drained)
    } else {
        exists|mid: Seq<StackEntry>| #[trigger]
            dropped_above(before, mid, handler) && returned(mid, after, value, drained)
    }
}

/// A handler has ended without answering the yield: drop what it left behind, and
/// end its own frame.
pub fn unwind_to_handler(stack: &mut Vec<StackEntry>, top_idx: usize, return_value: u64) -> (drained:
    Result<bool, u32>)
    requires
        stack_wf(old(stack)@),
        top_idx == old(stack)@.len() - 1,
    ensures
        drained matches Ok(d) && (exists|mid: Seq<StackEntry>| #[trigger]
            dropped_above(
                old(stack)@,
                mid,
                old(stack)@[top_idx as int].target as int,
            ) && returned(mid, final(stack)@, return_value, d)),
        stack_wf(final(stack)@),
{
    let ghost before = stack@;
    assert(entry_wf(before, top_idx as int));
    let handler: usize = stack[top_idx].target;
    drop_above(stack, handler);
    let ghost mid = stack@;
    assert(dropped_above(before, mid, handler as int));
    pop_and_reflect(stack, return_value)
}

/// End the frame that runs on top.
pub fn end_top(stack: &mut Vec<StackEntry>, return_value: u64) -> (drained: Result<bool, u32>)
    requires
        stack_wf(old(stack)@),
        old(stack)@.len() > 0,
    ensures
        drained matches Ok(d) && ended(old(stack)@, final(stack)@, return_value, d),
        stack_wf(final(stack)@),
{
    let top_idx: usize = stack.len() - 1;
    assert(entry_wf(stack@, top_idx as int));
    if stack[top_idx].target != top_idx {
        unwind_to_handler(stack, top_idx, return_value)
    } else {
        pop_and_reflect(stack, return_value)
    }
}

/// What answering a yield comes to: the scratchpad of the handler goes to the
/// yielder, which is on top again.
pub open spec fn resumed(before: Seq<StackEntry>, after: Seq<StackEntry>) -> bool {
    let top = before.len() - 1;
    let h = before[top].target as int;
    let y = before[top - 1].target as int;
    let response = slot_of(own_frame(before[h]).cnode@, byte_key(SCRATCHPAD_SLOT));
    &&& after.len() == before.len() - 1
    &&& if h == y {
        &&& after == with_frame(before.drop_last(), y, own_frame(after[y]))
        &&& told(
            own_frame(before[y]),
            own_frame(after[y]),
            with_scratch(
                own_frame(before[y]).cnode@.remove(byte_key(SCRATCHPAD_SLOT)),
                response,
            ),
            STATUS_OK,
        )
    } else {
        &&& after == with_frame(
            with_frame(before.drop_last(), h, own_frame(after[h])),
            y,
            own_frame(after[y]),
        )
        &&& own_frame(after[h]) == (KernelFrame {
            cnode: own_frame(after[h]).cnode,
            ..own_frame(before[h])
        })
        &&& own_frame(after[h]).cnode@ == own_frame(before[h]).cnode@.remove(
            byte_key(SCRATCHPAD_SLOT),
        )
        &&& told(
            own_frame(before[y]),
            own_frame(after[y]),
            with_scratch(own_frame(before[y]).cnode@, response),
            STATUS_OK,
        )
    }
}

/// Answer the yield that the frame on top handles.
pub fn resume_yielder(stack: &mut Vec<StackEntry>)
    requires
        stack_wf(old(stack)@),
        old(stack)@.len() > 0,
        !has_frame(old(stack)@.last()),
    ensures
        resumed(old(stack)@, final(stack)@),
        stack_wf(final(stack)@),
{
    let ghost before = stack@;
    let top_idx: usize = stack.len() - 1;
    let ghost top = top_idx as int;
    assert(entry_wf(before, top));
    assert(entry_wf(before, top - 1));
    let ghost h = before[top].target as int;
    let ghost y = before[top - 1].target as int;
    let handler = frame_at_mut(stack, top_idx);
    let response = take_scratch(handler);
    let ghost taken = stack@;
    proof {
        assert(entry_wf(before, h));
        lemma_frame_changed(before, h, own_frame(taken[h]));
        assert(taken =~= with_frame(before, h, own_frame(taken[h])));
        lemma_reference_popped(taken);
    }
    let _ = stack.pop();
    let ghost popped = stack@;
    assert(popped =~= taken.drop_last());
    let yielder_idx: usize = stack.len() - 1;
    assert(entry_wf(popped, top - 1));
    assert(entry_wf(popped, y));
    let yielder = frame_at_mut(stack, yielder_idx);
    set_scratch(yielder, response);
    yielder.regs[8] = STATUS_OK;
    proof {
        let f = own_frame(stack@[y]);
        assert(f.regs@ =~= own_frame(popped[y]).regs@.update(8, STATUS_OK));
        lemma_frame_changed(popped, y, f);
        assert(stack@ =~= with_frame(popped, y, f));
        if h == y {
            assert(stack@ =~= with_frame(before.drop_last(), y, f));
        } else {
            assert(stack@ =~= with_frame(
                with_frame(before.drop_last(), h, own_frame(stack@[h])),
                y,
                f,
            ));
        }
    }
}

proof fn lemma_reference_popped(stack: Seq<StackEntry>)
    requires
        stack_wf(stack),
        stack.len() > 0,
        !has_frame(stack.last()),
    ensures
        stack_wf(stack.drop_last()),
{
    let start = stack.len() - 1;
    assert forall|i: int| 0 <= i < start implies #[trigger] entry_released(
        stack,
        stack,
        start,
        i,
    ) by {
        if has_frame(stack[i]) {
            assert forall|s: Seq<u8>| #[trigger] own_frame(stack[i]).is_pending(s) <==> own_frame(
                stack[i],
            ).is_pending(s) && !reserved_above(stack, start, i, s) by {
                if reserved_above(stack, start, i, s) {
                    let j = choose|j: int|
                        start <= j < stack.len() && #[trigger] origin_at(stack, j) == Some(
                            (i as usize, s),
                        );
                    assert(j == start);
                }
            }
        }
    }
    assert(released(stack, stack, start));
    lemma_released_prefix(stack, stack, start);
    assert(stack.take(start) =~= stack.drop_last());
}

} // verus!
