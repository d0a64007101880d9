//! What a call hands to the frame that it starts.
use vstd::prelude::*;

use crate::cap::EndpointDef;
use crate::hash::CapHash;
use crate::kernel::call_loop::{
    call_answered, call_polled, is_pending, polled, scratch_moved, KernelTask, TaskPoll,
    EXIT_ECALL, EXIT_HOST_CALL,
};
use crate::kernel::caps::{KernelImageCap, KeySlotCap, Role, WireCap, WireTarget};
use crate::kernel::dispatch::{call_done, call_started, gas_meters, is_called, Kernel};
use crate::kernel::frame::{
    endpoint_at, seeded, wire_slots, with_initial, with_pinned, CapMap, KernelFrame,
    ResidentInstance, Root, Target,
};
use crate::kernel::gas::TaskGasState;
use crate::kernel::key::{reg_key, Key};
use crate::kernel::mem_laws::{first_declares, undeclared};
use crate::kernel::runtime::ExitInfo;
use crate::kernel::stack::{own_frame, stack_wf, StackEntry};

verus! {

/// What the instance that a cap stands for is a handle to.
pub open spec fn role_in(dir: CapMap, target: Target) -> Option<Role> {
    match target {
        Target::Instance(i) => Some(*i.role),
        Target::Hash(h) => if dir.contains_key(h) {
            match *dir[h] {
                WireCap::Instance(w) => Some(*w.role),
                _ => None,
            }
        } else {
            None
        },
        Target::Wire(c) => match *c {
            WireCap::Instance(w) => Some(*w.role),
            _ => None,
        },
        Target::Bytes(_) => None,
    }
}

/// Whether a slot of a frame holds a handle to gas meter `meter`.
pub open spec fn meter_in(dir: CapMap, frame: KernelFrame, slot: Seq<u8>, meter: Seq<u8>) -> bool {
    &&& frame.cnode@.contains_key(slot)
    &&& role_in(dir, frame.cnode@[slot]) matches Some(Role::Gas(k))
    &&& k@ == meter
}

/// The key of the byte that a register names.
pub open spec fn named(reg: u64) -> Seq<u8> {
    seq![(reg % 256) as u8]
}

proof fn lemma_named(reg: u64)
    ensures
        reg_key(reg) == named(reg),
        (reg & 0xFF) as u8 == reg % 256,
{
    assert((reg & 0xFF) == reg % 256) by (bit_vector);
    assert((reg & 0xFF) <= 0xFF) by (bit_vector);
    assert((reg & 0xFF) as u8 == reg % 256);
}

/// Whether slot `i` is the first of the slots that a frame has something in.
pub open spec fn first_filled(frame: KernelFrame, slots: Seq<Key>, i: int) -> bool {
    &&& 0 <= i < slots.len()
    &&& frame.cnode@.contains_key(slots[i]@)
    &&& forall|x: int| 0 <= x < i ==> !frame.cnode@.contains_key((#[trigger] slots[x])@)
}

/// Whether one of the slots holds a handle to the meter.
pub open spec fn comes_from(
    dir: CapMap,
    frame: KernelFrame,
    slots: Seq<Key>,
    meter: Seq<u8>,
) -> bool {
    exists|i: int|
        0 <= i < slots.len() && meter_in(dir, frame, (#[trigger] slots[i])@, meter)
}

proof fn lemma_filled_slot_is_listed(
    dir: CapMap,
    frame: KernelFrame,
    slots: Seq<Key>,
    meters: Seq<Seq<u8>>,
    i: int,
) -> (m: int)
    requires
        gas_meters(dir, frame, slots) == Ok::<Seq<Seq<u8>>, u32>(meters),
        0 <= i < slots.len(),
        frame.cnode@.contains_key(slots[i]@),
    ensures
        0 <= m < meters.len(),
        meter_in(dir, frame, slots[i]@, meters[m]),
    decreases slots.len(),
{
    let rest = slots.drop_last();
    let before = gas_meters(dir, frame, rest)->Ok_0;
    if i < rest.len() {
        assert(rest[i] == slots[i]);
        let m = lemma_filled_slot_is_listed(dir, frame, rest, before, i);
        assert(meters[m] == before[m]);
        m
    } else {
        let k = crate::kernel::dispatch::gas_meter_at(dir, frame.slot(slots[i]@))->0;
        assert(meter_in(dir, frame, slots[i]@, k));
        if before.contains(k) {
            choose|at: int| 0 <= at < before.len() && before[at] == k
        } else {
            meters.len() - 1
        }
    }
}

proof fn lemma_listed_meter_has_slot(
    dir: CapMap,
    frame: KernelFrame,
    slots: Seq<Key>,
    meters: Seq<Seq<u8>>,
    m: int,
)
    requires
        gas_meters(dir, frame, slots) == Ok::<Seq<Seq<u8>>, u32>(meters),
        0 <= m < meters.len(),
    ensures
        comes_from(dir, frame, slots, meters[m]),
    decreases slots.len(),
{
    let rest = slots.drop_last();
    let before = gas_meters(dir, frame, rest)->Ok_0;
    if m < before.len() {
        lemma_listed_meter_has_slot(dir, frame, rest, before, m);
        let i = choose|i: int|
            0 <= i < rest.len() && meter_in(dir, frame, (#[trigger] rest[i])@, before[m]);
        assert(slots[i] == rest[i]);
        assert(meters[m] == before[m]);
    } else {
        assert(meter_in(dir, frame, slots[slots.len() - 1]@, meters[m]));
    }
}

/// The first meter is that of the first slot that is filled.
pub proof fn lemma_first_slot_is_first(
    dir: CapMap,
    frame: KernelFrame,
    slots: Seq<Key>,
    meters: Seq<Seq<u8>>,
    i: int,
)
    requires
        gas_meters(dir, frame, slots) == Ok::<Seq<Seq<u8>>, u32>(meters),
        first_filled(frame, slots, i),
    ensures
        meters.len() > 0,
        meter_in(dir, frame, slots[i]@, meters[0]),
    decreases slots.len(),
{
    let rest = slots.drop_last();
    let before = gas_meters(dir, frame, rest)->Ok_0;
    if i < rest.len() {
        assert forall|x: int| 0 <= x < i implies !frame.cnode@.contains_key(
            (#[trigger] rest[x])@,
        ) by {
            assert(rest[x] == slots[x]);
        }
        assert(rest[i] == slots[i]);
        lemma_first_slot_is_first(dir, frame, rest, before, i);
        assert(meters[0] == before[0]);
    } else {
        if before.len() > 0 {
            lemma_listed_meter_has_slot(dir, frame, rest, before, 0);
            let x = choose|x: int|
                0 <= x < rest.len() && meter_in(dir, frame, (#[trigger] rest[x])@, before[0]);
            assert(slots[x] == rest[x]);
        }
        let k = crate::kernel::dispatch::gas_meter_at(dir, frame.slot(slots[i]@))->0;
        assert(meter_in(dir, frame, slots[i]@, k));
        assert(meters =~= seq![k]);
    }
}

/// Whether a run has ended with the call of an instance.
pub open spec fn asks_for_call(info: ExitInfo) -> bool {
    ||| info.exit_reason == EXIT_HOST_CALL && info.exit_arg == 26
    ||| info.exit_reason == EXIT_ECALL && info.regs@[11] as u32 == 26
}

/// A call that goes on starts the frame of what was called, and leaves the caller
/// without it.
proof fn lemma_called(
    kernel: Kernel,
    kernel_after: Kernel,
    before: Seq<StackEntry>,
    gas: TaskGasState,
    iid: u64,
    info: ExitInfo,
    frame_cost: u64,
    after: KernelTask,
    r: Result<TaskPoll, u32>,
) -> (made: (ResidentInstance, KernelFrame, KernelFrame))
    requires
        stack_wf(before),
        before.len() > 0,
        polled(kernel, kernel_after, before, gas, iid, info, frame_cost, after, r),
        asks_for_call(info),
        after.stack@.len() == before.len() + 1,
        after.stack@.last().kind is Instance,
    ensures
        ({
            let dir = kernel.directory@;
            let t = before.last().target as int;
            let caller = own_frame(before[t]);
            let e = after.stack@.last();
            let child = *e.kind->Instance_0;
            let (inst, parent, started) = made;
            &&& !caller.is_pending(reg_key(caller.regs@[7]))
            &&& caller.slot(reg_key(caller.regs@[7])) is Some
            &&& is_called(dir, caller.slot(reg_key(caller.regs@[7]))->0, inst)
            &&& call_started(
                dir,
                caller,
                parent,
                t as usize,
                inst,
                Ok::<Option<KernelFrame>, u32>(Some(started)),
            )
            &&& scratch_moved(parent, own_frame(after.stack@.drop_last()[t]), started, child)
            &&& after.stack@.drop_last() == crate::kernel::stack::with_frame(
                before,
                t,
                own_frame(after.stack@.drop_last()[t]),
            )
            &&& crate::kernel::call_loop::is_call_entry(dir, before, iid, child, e)
            &&& crate::kernel::dispatch::frame_meters(dir, child) is Ok
            &&& after.next_iid == iid.wrapping_add(1)
        }),
{
    let dir = kernel.directory@;
    let t = before.last().target as int;
    let caller = own_frame(before[t]);
    let paid = crate::kernel::call_loop::charged(
        gas,
        crate::kernel::call_loop::op_cost(
            kernel,
            crate::kernel::stack::frame_of(before, before.len() - 1),
            info,
            frame_cost,
        ),
    );
    let value = info.regs@[7];
    assert(crate::kernel::stack::entry_wf(before, before.len() - 1));
    assert(call_polled(kernel, before, after.stack@, iid, after.next_iid, paid, value, r));
    let (parent, d) = choose|parent: KernelFrame, d: Result<Option<KernelFrame>, u32>|
        #[trigger] call_done(dir, caller, parent, t as usize, d) && call_answered(
            kernel,
            before,
            after.stack@,
            iid,
            after.next_iid,
            parent,
            d,
            paid,
            value,
            r,
        );
    let started = d->Ok_0->0;
    assert(d == Ok::<Option<KernelFrame>, u32>(Some(started)));
    let inst = choose|inst: ResidentInstance| #[trigger]
        is_called(dir, caller.slot(reg_key(caller.regs@[7]))->0, inst) && call_started(
            dir,
            caller,
            parent,
            t as usize,
            inst,
            d,
        );
    let child = *after.stack@.last().kind->Instance_0;
    let (parent_after, child_after) = choose|parent_after: KernelFrame, child_after: KernelFrame|
        #[trigger] scratch_moved(parent, parent_after, started, child_after)
            && match crate::kernel::dispatch::frame_meters(dir, child_after) {
            Err(e) => {
                &&& r == Err::<TaskPoll, u32>(e)
                &&& after.stack@ == crate::kernel::stack::with_frame(before, t, parent_after)
            },
            Ok(_) => {
                &&& is_pending(r)
                &&& after.stack@.len() == before.len() + 1
                &&& after.stack@.drop_last() == crate::kernel::stack::with_frame(
                    before,
                    t,
                    parent_after,
                )
                &&& crate::kernel::call_loop::is_call_entry(
                    dir,
                    before,
                    iid,
                    child_after,
                    after.stack@.last(),
                )
            },
        };
    assert(child_after == child);
    (inst, parent, started)
}

/// A called frame draws on gas of its own: where its image declares gas slots, the
/// scope of its entry is the meter of the first of these slots that is filled,
/// whatever its caller draws on.
pub proof fn law_callee_draws_on_its_first_meter(
    kernel: Kernel,
    kernel_after: Kernel,
    before: Seq<StackEntry>,
    gas: TaskGasState,
    iid: u64,
    info: ExitInfo,
    frame_cost: u64,
    after: KernelTask,
    r: Result<TaskPoll, u32>,
    img: KernelImageCap,
    i: int,
)
    requires
        stack_wf(before),
        before.len() > 0,
        polled(kernel, kernel_after, before, gas, iid, info, frame_cost, after, r),
        asks_for_call(info),
        after.stack@.len() == before.len() + 1,
        after.stack@.last().kind is Instance,
        *kernel.directory@[after.stack@.last().kind->Instance_0.image_hash] == WireCap::Image(img),
        first_filled(*after.stack@.last().kind->Instance_0, img.gas_slots@, i),
    ensures
        after.stack@.last().gas.active == Some(0usize),
        after.stack@.last().gas.scope() is Some,
        meter_in(
            kernel.directory@,
            *after.stack@.last().kind->Instance_0,
            img.gas_slots@[i]@,
            after.stack@.last().gas.scope()->0,
        ),
{
    let made = lemma_called(kernel, kernel_after, before, gas, iid, info, frame_cost, after, r);
    let dir = kernel.directory@;
    let e = after.stack@.last();
    let child = *e.kind->Instance_0;
    let meters = gas_meters(dir, child, img.gas_slots@)->Ok_0;
    lemma_first_slot_is_first(dir, child, img.gas_slots@, meters, i);
    assert(crate::kernel::key::key_seq(e.gas.meters@)[0] == e.gas.meters@[0]@);
    assert(crate::kernel::key::key_seq(e.gas.meters@).len() == e.gas.meters@.len());
}

/// The meters of a called frame whose image declares gas slots are those of the
/// handles in these slots: each filled slot has its meter among them, and each meter
/// comes from a slot.
pub proof fn law_callee_meters_are_its_handles(
    kernel: Kernel,
    kernel_after: Kernel,
    before: Seq<StackEntry>,
    gas: TaskGasState,
    iid: u64,
    info: ExitInfo,
    frame_cost: u64,
    after: KernelTask,
    r: Result<TaskPoll, u32>,
    img: KernelImageCap,
    i: int,
    m: int,
)
    requires
        stack_wf(before),
        before.len() > 0,
        polled(kernel, kernel_after, before, gas, iid, info, frame_cost, after, r),
        asks_for_call(info),
        after.stack@.len() == before.len() + 1,
        after.stack@.last().kind is Instance,
        *kernel.directory@[after.stack@.last().kind->Instance_0.image_hash] == WireCap::Image(img),
        0 <= i < img.gas_slots@.len(),
    ensures
        after.stack@.last().kind->Instance_0.cnode@.contains_key(img.gas_slots@[i]@)
            ==> exists|x: int|
            0 <= x < after.stack@.last().gas.meters@.len() && meter_in(
                kernel.directory@,
                *after.stack@.last().kind->Instance_0,
                img.gas_slots@[i]@,
                (#[trigger] after.stack@.last().gas.meters@[x])@,
            ),
        0 <= m < after.stack@.last().gas.meters@.len() ==> comes_from(
            kernel.directory@,
            *after.stack@.last().kind->Instance_0,
            img.gas_slots@,
            after.stack@.last().gas.meters@[m]@,
        ),
{
    let made = lemma_called(kernel, kernel_after, before, gas, iid, info, frame_cost, after, r);
    let dir = kernel.directory@;
    let e = after.stack@.last();
    let child = *e.kind->Instance_0;
    let meters = gas_meters(dir, child, img.gas_slots@)->Ok_0;
    assert(crate::kernel::key::key_seq(e.gas.meters@) == meters);
    assert(meters.len() == e.gas.meters@.len());
    if child.cnode@.contains_key(img.gas_slots@[i]@) {
        let x = lemma_filled_slot_is_listed(dir, child, img.gas_slots@, meters, i);
        assert(meters[x] == e.gas.meters@[x]@);
    }
    if 0 <= m < e.gas.meters@.len() {
        lemma_listed_meter_has_slot(dir, child, img.gas_slots@, meters, m);
        assert(meters[m] == e.gas.meters@[m]@);
    }
}

/// A called frame whose image declares no gas slots draws on what its caller draws
/// on.
pub proof fn law_callee_without_gas_slots_shares(
    kernel: Kernel,
    kernel_after: Kernel,
    before: Seq<StackEntry>,
    gas: TaskGasState,
    iid: u64,
    info: ExitInfo,
    frame_cost: u64,
    after: KernelTask,
    r: Result<TaskPoll, u32>,
    img: KernelImageCap,
)
    requires
        stack_wf(before),
        before.len() > 0,
        polled(kernel, kernel_after, before, gas, iid, info, frame_cost, after, r),
        asks_for_call(info),
        after.stack@.len() == before.len() + 1,
        after.stack@.last().kind is Instance,
        *kernel.directory@[after.stack@.last().kind->Instance_0.image_hash] == WireCap::Image(img),
        img.gas_slots@.len() == 0,
    ensures
        after.stack@.last().gas.active == before.last().gas.active,
        after.stack@.last().gas.meters@.len() == before.last().gas.meters@.len(),
        forall|m: int|
            0 <= m < before.last().gas.meters@.len() ==> (
            #[trigger] after.stack@.last().gas.meters@[m])@ == before.last().gas.meters@[m]@,
        before.last().gas.wf() ==> after.stack@.last().gas.scope() == before.last().gas.scope(),
{
    let made = lemma_called(kernel, kernel_after, before, gas, iid, info, frame_cost, after, r);
}

/// Whether an instance is the one that a cap stands for.
pub open spec fn stands_for(
    dir: CapMap,
    target: Target,
    chain: CapHash,
    image: CapHash,
    mem: crate::kernel::caps::DataMem,
    role: Role,
) -> bool {
    match target {
        Target::Instance(i) => {
            &&& chain == i.image_hash_chain
            &&& image == i.image_hash
            &&& mem == i.mem
            &&& role == *i.role
        },
        Target::Bytes(_) => false,
        _ => {
            let c = match target {
                Target::Hash(h) => dir[h],
                Target::Wire(c) => c,
                _ => arbitrary(),
            };
            *c matches WireCap::Instance(w) && {
                &&& chain == w.image_hash_chain
                &&& image == w.image_hash
                &&& mem.backing@ == w.mem.backing@
                &&& mem.overlay@ == w.mem.overlay@
                &&& role == *w.role
            }
        },
    }
}

/// Whether `ep` is the first endpoint with the selector.
pub open spec fn first_endpoint(
    endpoints: Seq<(u8, EndpointDef)>,
    selector: int,
    ep: EndpointDef,
) -> bool {
    exists|n: int|
        {
            &&& 0 <= n < endpoints.len()
            &&& (#[trigger] endpoints[n]).0 == selector
            &&& endpoints[n].1 == ep
            &&& forall|m: int| 0 <= m < n ==> (#[trigger] endpoints[m]).0 != selector
        }
}

/// The endpoint that is looked up is the first with the selector.
pub proof fn lemma_endpoint(endpoints: Seq<(u8, EndpointDef)>, selector: u8)
    requires
        endpoint_at(endpoints, selector) is Some,
    ensures
        first_endpoint(endpoints, selector as int, endpoint_at(endpoints, selector)->0),
    decreases endpoints.len(),
{
    if endpoints.len() > 0 {
        if endpoints[0].0 == selector {
            assert(first_endpoint(endpoints, selector as int, endpoints[0].1));
        } else {
            let rest = endpoints.drop_first();
            lemma_endpoint(rest, selector);
            let ep = endpoint_at(endpoints, selector)->0;
            let n = choose|n: int|
                {
                    &&& 0 <= n < rest.len()
                    &&& (#[trigger] rest[n]).0 == selector
                    &&& rest[n].1 == ep
                    &&& forall|m: int| 0 <= m < n ==> (#[trigger] rest[m]).0 != selector
                };
            assert(endpoints[n + 1] == rest[n]);
            assert forall|m: int| 0 <= m < n + 1 implies (#[trigger] endpoints[m]).0
                != selector by {
                if m > 0 {
                    assert(rest[m - 1] == endpoints[m]);
                }
            }
        }
    }
}

/// A call starts the instance in the slot that register 7 names, at the first endpoint
/// with the selector that register 8 names: with registers 9 and 10 of the caller as
/// its first arguments, zeros as the other two, and else the registers of the
/// endpoint. The caller gives the instance up: its slot is empty and reserved, the
/// scratchpad is gone, and nothing else of the caller or of the entries below changes.
pub proof fn law_call_starts_the_callee(
    kernel: Kernel,
    kernel_after: Kernel,
    before: Seq<StackEntry>,
    gas: TaskGasState,
    iid: u64,
    info: ExitInfo,
    frame_cost: u64,
    after: KernelTask,
    r: Result<TaskPoll, u32>,
)
    requires
        stack_wf(before),
        before.len() > 0,
        polled(kernel, kernel_after, before, gas, iid, info, frame_cost, after, r),
        asks_for_call(info),
        after.stack@.len() == before.len() + 1,
        after.stack@.last().kind is Instance,
    ensures
        ({
            let dir = kernel.directory@;
            let t = before.last().target as int;
            let caller = *before[t].kind->Instance_0;
            let now = *after.stack@[t].kind->Instance_0;
            let e = after.stack@.last();
            let child = *e.kind->Instance_0;
            let key = named(caller.regs@[7]);
            &&& caller.cnode@.contains_key(key)
            &&& !caller.pending@.contains_key(key)
            &&& stands_for(
                dir,
                caller.cnode@[key],
                child.image_hash_chain,
                child.image_hash,
                child.mem,
                *child.role,
            )
            &&& *dir[child.image_hash] matches WireCap::Image(img) && exists|ep: EndpointDef|
                {
                    &&& #[trigger] first_endpoint(
                        img.endpoints@,
                        (caller.regs@[8] % 256) as int,
                        ep,
                    )
                    &&& child.pc == ep.entry_pc
                    &&& forall|x: int|
                        0 <= x < 13 && !(7 <= x <= 10) ==> #[trigger] child.regs@[x]
                            == ep.initial_regs@[x]
                }
            &&& child.regs@[7] == caller.regs@[9]
            &&& child.regs@[8] == caller.regs@[10]
            &&& child.regs@[9] == 0
            &&& child.regs@[10] == 0
            &&& child.pending@.dom() == Set::<Seq<u8>>::empty()
            &&& child.gas_remaining == 0
            &&& child.ro_units@.len() == 0
            &&& child.mat_state@.len() == child.mem.backing@.len()
            &&& forall|x: int| 0 <= x < child.mat_state@.len() ==> #[trigger] child.mat_state@[x] == 0
            &&& *dir[child.image_hash] matches WireCap::Image(img) && {
                &&& child.pinned@.len() == img.pinned@.len()
                &&& forall|x: int|
                    0 <= x < img.pinned@.len() ==> (#[trigger] child.pinned@[x])@
                        == img.pinned@[x].slot@
            }
            &&& caller.cnode@[key] matches Target::Instance(i) ==> child.runtime == i.runtime
            &&& child.origin matches Some(o) && o.owner == t && o.slot@ == key
            &&& e.target == before.len()
            &&& e.instance_id == iid
            &&& e.owner == Some(before.last().target)
            &&& iid < u64::MAX ==> after.next_iid == iid + 1
            &&& !now.cnode@.contains_key(key)
            &&& now.pending@.contains_key(key)
            &&& !now.cnode@.contains_key(seq![0u8])
            &&& forall|k: Seq<u8>|
                k != key && k != seq![0u8] ==> {
                    &&& #[trigger] now.cnode@.contains_key(k) == caller.cnode@.contains_key(k)
                    &&& caller.cnode@.contains_key(k) ==> now.cnode@[k] == caller.cnode@[k]
                }
            &&& forall|k: Seq<u8>|
                k != key ==> #[trigger] now.pending@.contains_key(k)
                    == caller.pending@.contains_key(k)
            &&& now == (KernelFrame { cnode: now.cnode, pending: now.pending, ..caller })
            &&& forall|q: int|
                0 <= q < before.len() && q != t ==> #[trigger] after.stack@[q] == before[q]
        }),
{
    let made = lemma_called(kernel, kernel_after, before, gas, iid, info, frame_cost, after, r);
    let (inst, parent, started) = made;
    let dir = kernel.directory@;
    let t = before.last().target as int;
    assert(crate::kernel::stack::entry_wf(before, before.len() - 1));
    let caller = *before[t].kind->Instance_0;
    lemma_named(caller.regs@[7]);
    lemma_named(caller.regs@[8]);
    let img = crate::kernel::frame::image_at(dir, inst.image_hash)->Ok_0;
    let selector = (caller.regs@[8] & 0xFF) as u8;
    lemma_endpoint(img.endpoints@, selector);
    let below = after.stack@.drop_last();
    assert(below[t] == after.stack@[t]);
    assert forall|q: int| 0 <= q < before.len() && q != t implies #[trigger] after.stack@[q]
        == before[q] by {
        assert(below[q] == after.stack@[q]);
    }
    assert(iid < u64::MAX ==> iid.wrapping_add(1) == iid + 1);
    assert(crate::kernel::key::byte_key(0u8) =~= seq![0u8]);
    let child = *after.stack@.last().kind->Instance_0;
    assert(crate::kernel::key::key_seq(child.pinned@).len() == child.pinned@.len());
    assert forall|x: int| 0 <= x < img.pinned@.len() implies (#[trigger] child.pinned@[x])@
        == img.pinned@[x].slot@ by {
        assert(crate::kernel::key::key_seq(child.pinned@)[x] == child.pinned@[x]@);
        assert(crate::kernel::frame::slot_keys(img.pinned@)[x] == img.pinned@[x].slot@);
    }
}

/// Whether the last declaration for the slot is of the cap.
pub open spec fn last_declares(declared: Seq<KeySlotCap>, slot: Seq<u8>, cap: CapHash) -> bool {
    exists|n: int|
        {
            &&& 0 <= n < declared.len()
            &&& (#[trigger] declared[n]).slot@ == slot
            &&& declared[n].cap_hash == cap
            &&& forall|m: int| n < m < declared.len() ==> (#[trigger] declared[m]).slot@ != slot
        }
}

proof fn lemma_with_pinned(
    slots: Map<Seq<u8>, Target>,
    pinned: Seq<KeySlotCap>,
    k: Seq<u8>,
)
    ensures
        forall|h: CapHash| #[trigger]
            last_declares(pinned, k, h) ==> with_pinned(slots, pinned).contains_key(k)
                && with_pinned(slots, pinned)[k] == Target::Hash(h),
        undeclared(pinned, k) ==> {
            &&& with_pinned(slots, pinned).contains_key(k) == slots.contains_key(k)
            &&& slots.contains_key(k) ==> with_pinned(slots, pinned)[k] == slots[k]
        },
    decreases pinned.len(),
{
    if pinned.len() > 0 {
        let rest = pinned.drop_last();
        let last = pinned.last();
        assert(pinned[pinned.len() - 1] == last);
        lemma_with_pinned(slots, rest, k);
        assert forall|h: CapHash| #[trigger] last_declares(pinned, k, h) implies with_pinned(
            slots,
            pinned,
        ).contains_key(k) && with_pinned(slots, pinned)[k] == Target::Hash(h) by {
            let n = choose|n: int|
                {
                    &&& 0 <= n < pinned.len()
                    &&& (#[trigger] pinned[n]).slot@ == k
                    &&& pinned[n].cap_hash == h
                    &&& forall|m: int| n < m < pinned.len() ==> (#[trigger] pinned[m]).slot@ != k
                };
            if n < pinned.len() - 1 {
                assert(rest[n] == pinned[n]);
                assert forall|m: int| n < m < rest.len() implies (#[trigger] rest[m]).slot@
                    != k by {
                    assert(rest[m] == pinned[m]);
                }
                assert(last_declares(rest, k, h));
                assert(last.slot@ != k);
            }
        }
        if undeclared(pinned, k) {
            assert forall|m: int| 0 <= m < rest.len() implies (#[trigger] rest[m]).slot@ != k by {
                assert(rest[m] == pinned[m]);
            }
        }
    }
}

proof fn lemma_with_initial(
    slots: Map<Seq<u8>, Target>,
    initial: Seq<KeySlotCap>,
    k: Seq<u8>,
)
    ensures
        slots.contains_key(k) ==> with_initial(slots, initial).contains_key(k) && with_initial(
            slots,
            initial,
        )[k] == slots[k],
        forall|h: CapHash| #[trigger]
            first_declares(initial, k, h) && !slots.contains_key(k) ==> with_initial(
                slots,
                initial,
            ).contains_key(k) && with_initial(slots, initial)[k] == Target::Hash(h),
        undeclared(initial, k) ==> with_initial(slots, initial).contains_key(k)
            == slots.contains_key(k),
    decreases initial.len(),
{
    if initial.len() > 0 {
        let rest = initial.drop_last();
        let last = initial.last();
        assert(initial[initial.len() - 1] == last);
        lemma_with_initial(slots, rest, k);
        assert forall|h: CapHash| #[trigger]
            first_declares(initial, k, h) && !slots.contains_key(k) implies with_initial(
            slots,
            initial,
        ).contains_key(k) && with_initial(slots, initial)[k] == Target::Hash(h) by {
            let n = choose|n: int|
                {
                    &&& 0 <= n < initial.len()
                    &&& (#[trigger] initial[n]).slot@ == k
                    &&& initial[n].cap_hash == h
                    &&& forall|m: int| 0 <= m < n ==> (#[trigger] initial[m]).slot@ != k
                };
            if n < initial.len() - 1 {
                assert(rest[n] == initial[n]);
                assert forall|m: int| 0 <= m < n implies (#[trigger] rest[m]).slot@ != k by {
                    assert(rest[m] == initial[m]);
                }
                assert(first_declares(rest, k, h));
            } else {
                assert forall|m: int| 0 <= m < rest.len() implies (#[trigger] rest[m]).slot@
                    != k by {
                    assert(rest[m] == initial[m]);
                }
                assert(undeclared(rest, k));
            }
        }
        if undeclared(initial, k) {
            assert forall|m: int| 0 <= m < rest.len() implies (#[trigger] rest[m]).slot@ != k by {
                assert(rest[m] == initial[m]);
            }
        }
    }
}

/// The cap that the instance itself keeps in a slot when it does not run.
pub open spec fn keeps(dir: CapMap, target: Target, k: Seq<u8>, held: Target) -> bool {
    let root = match target {
        Target::Instance(i) => match i.root {
            Root::Wire(w) => Some(w),
            Root::Resident(_) => None,
        },
        Target::Hash(h) => match *dir[h] {
            WireCap::Instance(w) => Some(w.root_cnode),
            _ => None,
        },
        Target::Wire(c) => match *c {
            WireCap::Instance(w) => Some(w.root_cnode),
            _ => None,
        },
        Target::Bytes(_) => None,
    };
    ||| target matches Target::Instance(i) && i.root matches Root::Resident(c)
        && c@.contains_key(k) && c@[k] == held
    ||| root matches Some(WireTarget::Hash(h)) && *dir[h] matches WireCap::CNode(slots)
        && last_entry(slots@, k, held) && h@ != Seq::new(32, |x: int| 0u8)
    ||| root matches Some(WireTarget::Owned(c)) && *c matches WireCap::CNode(slots) && last_entry(
        slots@,
        k,
        held,
    )
}

/// Whether the last entry of a published cnode for a slot is the cap.
pub open spec fn last_entry(slots: Seq<(Key, WireTarget)>, k: Seq<u8>, held: Target) -> bool {
    exists|n: int|
        {
            &&& 0 <= n < slots.len()
            &&& (#[trigger] slots[n]).0@ == k
            &&& held == (match slots[n].1 {
                WireTarget::Hash(h) => Target::Hash(h),
                WireTarget::Owned(c) => Target::Wire(c),
            })
            &&& forall|m: int| n < m < slots.len() ==> (#[trigger] slots[m]).0@ != k
        }
}

proof fn lemma_wire_slots(slots: Seq<(Key, WireTarget)>, k: Seq<u8>)
    ensures
        wire_slots(slots).contains_key(k) ==> last_entry(slots, k, wire_slots(slots)[k]),
        forall|held: Target| #[trigger]
            last_entry(slots, k, held) ==> wire_slots(slots).contains_key(k)
                && wire_slots(slots)[k] == held,
    decreases slots.len(),
{
    if slots.len() > 0 {
        let rest = slots.drop_last();
        let last = slots.last();
        assert(slots[slots.len() - 1] == last);
        lemma_wire_slots(rest, k);
        if wire_slots(slots).contains_key(k) && last.0@ != k {
            let held = wire_slots(slots)[k];
            let n = choose|n: int|
                {
                    &&& 0 <= n < rest.len()
                    &&& (#[trigger] rest[n]).0@ == k
                    &&& held == (match rest[n].1 {
                        WireTarget::Hash(h) => Target::Hash(h),
                        WireTarget::Owned(c) => Target::Wire(c),
                    })
                    &&& forall|m: int| n < m < rest.len() ==> (#[trigger] rest[m]).0@ != k
                };
            assert(slots[n] == rest[n]);
            assert forall|m: int| n < m < slots.len() implies (#[trigger] slots[m]).0@ != k by {
                if m < rest.len() {
                    assert(rest[m] == slots[m]);
                }
            }
        }
        assert forall|held: Target| #[trigger] last_entry(slots, k, held) implies wire_slots(
            slots,
        ).contains_key(k) && wire_slots(slots)[k] == held by {
            let n = choose|n: int|
                {
                    &&& 0 <= n < slots.len()
                    &&& (#[trigger] slots[n]).0@ == k
                    &&& held == (match slots[n].1 {
                        WireTarget::Hash(h) => Target::Hash(h),
                        WireTarget::Owned(c) => Target::Wire(c),
                    })
                    &&& forall|m: int| n < m < slots.len() ==> (#[trigger] slots[m]).0@ != k
                };
            if n < slots.len() - 1 {
                assert(rest[n] == slots[n]);
                assert forall|m: int| n < m < rest.len() implies (#[trigger] rest[m]).0@ != k by {
                    assert(rest[m] == slots[m]);
                }
                assert(last_entry(rest, k, held));
                assert(last.0@ != k);
            }
        }
    }
}

/// What a called frame finds in a slot other than the scratchpad: the cap that its
/// image pins there; else what the instance kept there; else the cap that its image
/// has for it at first; else, where the caller holds a published cap there, that cap;
/// else nothing. The scratchpad is the one that the caller had, if it had one.
pub proof fn law_callee_slots(
    kernel: Kernel,
    kernel_after: Kernel,
    before: Seq<StackEntry>,
    gas: TaskGasState,
    iid: u64,
    info: ExitInfo,
    frame_cost: u64,
    after: KernelTask,
    r: Result<TaskPoll, u32>,
    img: KernelImageCap,
    k: Seq<u8>,
)
    requires
        stack_wf(before),
        before.len() > 0,
        polled(kernel, kernel_after, before, gas, iid, info, frame_cost, after, r),
        asks_for_call(info),
        after.stack@.len() == before.len() + 1,
        after.stack@.last().kind is Instance,
        *kernel.directory@[after.stack@.last().kind->Instance_0.image_hash] == WireCap::Image(img),
    ensures
        ({
            let dir = kernel.directory@;
            let t = before.last().target as int;
            let caller = *before[t].kind->Instance_0;
            let child = *after.stack@.last().kind->Instance_0;
            let key = named(caller.regs@[7]);
            let called = caller.cnode@[key];
            &&& k == seq![0u8] && k != key && caller.cnode@.contains_key(k) ==> {
                &&& child.cnode@.contains_key(k)
                &&& child.cnode@[k] == caller.cnode@[k]
            }
            &&& k != seq![0u8] ==> {
                &&& forall|h: CapHash| #[trigger]
                    last_declares(img.pinned@, k, h) ==> child.cnode@.contains_key(k)
                        && child.cnode@[k] == Target::Hash(h)
                &&& forall|held: Target|
                    undeclared(img.pinned@, k) && #[trigger] keeps(dir, called, k, held)
                        ==> child.cnode@.contains_key(k) && child.cnode@[k] == held
                &&& undeclared(img.pinned@, k) && (forall|held: Target|
                    !(#[trigger] keeps(dir, called, k, held))) ==> {
                    &&& forall|h: CapHash| #[trigger]
                        first_declares(img.initial@, k, h) ==> child.cnode@.contains_key(k)
                            && child.cnode@[k] == Target::Hash(h)
                    &&& undeclared(img.initial@, k) ==> {
                        let passed = k != key && caller.cnode@.contains_key(k)
                            && caller.cnode@[k] is Hash;
                        &&& child.cnode@.contains_key(k) == passed
                        &&& passed ==> child.cnode@[k] == caller.cnode@[k]
                    }
                }
            }
        }),
{
    let made = lemma_called(kernel, kernel_after, before, gas, iid, info, frame_cost, after, r);
    let (inst, parent, started) = made;
    let dir = kernel.directory@;
    let t = before.last().target as int;
    assert(crate::kernel::stack::entry_wf(before, before.len() - 1));
    let caller = *before[t].kind->Instance_0;
    let child = *after.stack@.last().kind->Instance_0;
    lemma_named(caller.regs@[7]);
    let key = named(caller.regs@[7]);
    let called = caller.cnode@[key];
    assert(crate::kernel::key::byte_key(0u8) =~= seq![0u8]);
    let own = crate::kernel::frame::instance_slots(dir, inst.root)->Ok_0;
    assert(crate::kernel::frame::image_at(dir, inst.image_hash) == Ok::<KernelImageCap, u32>(img));
    assert(started.cnode@ == crate::kernel::dispatch::inherited(
        seeded(own, img),
        parent.cnode@,
    ));
    lemma_with_pinned(own, img.pinned@, k);
    lemma_with_initial(with_pinned(own, img.pinned@), img.initial@, k);
    assert(crate::kernel::frame::zero_bytes() =~= Seq::new(32, |x: int| 0u8));
    if let Root::Wire(w) = inst.root {
        match w {
            WireTarget::Hash(h) => {
                if let WireCap::CNode(slots) = *dir[h] {
                    lemma_wire_slots(slots@, k);
                }
            },
            WireTarget::Owned(c) => {
                if let WireCap::CNode(slots) = *c {
                    lemma_wire_slots(slots@, k);
                }
            },
        }
    }
    assert(own.contains_key(k) ==> keeps(dir, called, k, own[k]));
    assert forall|held: Target| #[trigger] keeps(dir, called, k, held) implies own.contains_key(k)
        && own[k] == held by {
    }
}

} // verus!
