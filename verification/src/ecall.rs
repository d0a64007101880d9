//! Dispatch of environment calls.
//!
//! The operation code selects: 0 replies to the caller; 1 to 15 operate on the
//! cap table; 16 to 63 are host calls; the rest is reserved and does nothing.
//! Slot operands are the low bytes of registers.
use vstd::prelude::*;

use crate::cache::{settled, CacheDirectory};
use crate::callstack::{
    pushed_reference, push_reference_check, running_entry, running_position, Entry, InstanceEntry,
};
use crate::cap::{
    collect_slots, copy_bytes, declared_slots, empty_slots, is_pinned_slot, slot_at, slot_check,
    slot_of_reg, slots_set, CNodeCap, Cap, CapHashOrRef, SlotIdx,
};
use crate::error::{CapError, OpError, VmError};
use crate::exec::{EcallKind, EcallResult, ExitReason, Regs};
use crate::hash::{hash_of_bytes, hash_pair_of, lemma_hash_of_bytes, same_hash, Blake2b256, CapHash};
use crate::kernel_assist::KernelAssist;
use crate::vm::{
    catches, program_cached, same_around_stack, same_vm, topmost_catcher, with_instance, Vm,
};

pub mod cached;
pub mod laws;
pub mod host_op;
pub mod mgmt_op;

verus! {

/// The result of a table access as the VM reports it.
pub open spec fn table_result(r: Result<(), CapError>) -> Result<(), VmError> {
    match r {
        Ok(()) => Ok(()),
        Err(e) => Err(VmError::CapTable(e)),
    }
}

/// The slots of the running instance.
pub open spec fn running_slots(s: Seq<Entry>) -> Seq<Option<CapHashOrRef>> {
    running_entry(s)->0.root_cnode.slots@
}

/// The pinned slots of the running instance.
pub open spec fn running_pinned(s: Seq<Entry>) -> Seq<SlotIdx> {
    running_entry(s)->0.pinned_slots@
}

/// The content hash in a slot of the running instance.
pub open spec fn slot_hash(s: Seq<Entry>, slot: SlotIdx) -> Result<CapHash, VmError> {
    match running_entry(s) {
        None => Err(VmError::CallStackEmpty),
        Some(e) => match e.root_cnode.at(slot) {
            Some(CapHashOrRef::Hash(h)) => Ok(h),
            Some(CapHashOrRef::Ref(_)) => Err(VmError::SlotKindMismatch(slot.0)),
            None => Err(VmError::SlotEmpty(slot.0)),
        },
    }
}

/// The target in a slot of the running instance.
pub open spec fn slot_target(s: Seq<Entry>, slot: SlotIdx) -> Result<CapHashOrRef, VmError> {
    match running_entry(s) {
        None => Err(VmError::CallStackEmpty),
        Some(e) => match e.root_cnode.at(slot) {
            Some(t) => Ok(t),
            None => Err(VmError::SlotEmpty(slot.0)),
        },
    }
}

/// Whether `after` is `before` with `slots` as the slots of the running
/// instance, everything else unchanged.
pub open spec fn slots_now(
    before: Seq<Entry>,
    after: Seq<Entry>,
    slots: Seq<Option<CapHashOrRef>>,
) -> bool {
    let p = running_position(before)->0;
    &&& after.len() == before.len()
    &&& forall|i: int| 0 <= i < before.len() && i != p ==> after[i] == before[i]
    &&& after[p] is Instance
    &&& {
        let b = *before[p]->Instance_0;
        let a = *after[p]->Instance_0;
        &&& a == (InstanceEntry { root_cnode: a.root_cnode, ..b })
        &&& a.root_cnode.size_log == b.root_cnode.size_log
        &&& a.root_cnode.slots@ == slots
    }
}

/// The slots and the result that an operation on the cap table leaves.
pub type TableEffect = (Seq<Option<CapHashOrRef>>, Result<(), VmError>);

/// An operation on the cap table of the running instance had effect `effect`.
pub open spec fn effect_post(
    s: Seq<Entry>,
    after: Seq<Entry>,
    effect: TableEffect,
    r: Result<(), VmError>,
) -> bool {
    if running_entry(s) is None {
        &&& r == Err::<(), VmError>(VmError::CallStackEmpty)
        &&& after == s
    } else {
        &&& slots_now(s, after, effect.0)
        &&& r == effect.1
    }
}

/// Copy slot `a` to slot `b`.
pub open spec fn copy_effect(
    slots: Seq<Option<CapHashOrRef>>,
    pinned: Seq<SlotIdx>,
    a: SlotIdx,
    b: SlotIdx,
) -> TableEffect {
    if pinned.contains(b) {
        (slots, Err(VmError::Op(OpError::SlotPinned(b.0))))
    } else if slot_at(slots, a) is None {
        (slots, Err(VmError::Op(OpError::SourceEmpty)))
    } else {
        (slots_set(slots, b, slot_at(slots, a)), table_result(slot_check(slots, b)))
    }
}

/// Move slot `a` to slot `b`. A destination that does not exist loses the source.
pub open spec fn move_effect(
    slots: Seq<Option<CapHashOrRef>>,
    pinned: Seq<SlotIdx>,
    a: SlotIdx,
    b: SlotIdx,
) -> TableEffect {
    if pinned.contains(a) {
        (slots, Err(VmError::Op(OpError::SlotPinned(a.0))))
    } else if pinned.contains(b) {
        (slots, Err(VmError::Op(OpError::SlotPinned(b.0))))
    } else if slot_check(slots, a) is Err {
        (slots, table_result(slot_check(slots, a)))
    } else if slot_at(slots, a) is None {
        (slots, Err(VmError::Op(OpError::SourceEmpty)))
    } else {
        (
            slots_set(slots_set(slots, a, None), b, slot_at(slots, a)),
            table_result(slot_check(slots, b)),
        )
    }
}

/// Empty slot `a`.
pub open spec fn drop_effect(
    slots: Seq<Option<CapHashOrRef>>,
    pinned: Seq<SlotIdx>,
    a: SlotIdx,
) -> TableEffect {
    if pinned.contains(a) {
        (slots, Err(VmError::Op(OpError::SlotPinned(a.0))))
    } else {
        (slots_set(slots, a, None), table_result(slot_check(slots, a)))
    }
}

/// Swap slots `a` and `b`. A second slot that does not exist empties the first.
pub open spec fn swap_effect(
    slots: Seq<Option<CapHashOrRef>>,
    pinned: Seq<SlotIdx>,
    a: SlotIdx,
    b: SlotIdx,
) -> TableEffect {
    if pinned.contains(a) {
        (slots, Err(VmError::Op(OpError::SlotPinned(a.0))))
    } else if pinned.contains(b) {
        (slots, Err(VmError::Op(OpError::SlotPinned(b.0))))
    } else if slot_check(slots, a) is Err {
        (slots, table_result(slot_check(slots, a)))
    } else if slot_check(slots, b) is Err {
        (slots_set(slots, a, None), table_result(slot_check(slots, b)))
    } else {
        (slots_set(slots_set(slots, a, slot_at(slots, b)), b, slot_at(slots, a)), Ok(()))
    }
}

/// Put `target` into slot `dst`.
pub open spec fn place_effect(
    slots: Seq<Option<CapHashOrRef>>,
    pinned: Seq<SlotIdx>,
    dst: SlotIdx,
    target: CapHashOrRef,
) -> TableEffect {
    if pinned.contains(dst) {
        (slots, Err(VmError::Op(OpError::SlotPinned(dst.0))))
    } else {
        (slots_set(slots, dst, Some(target)), table_result(slot_check(slots, dst)))
    }
}

/// `target` was put into slot `dst` of the running instance.
pub open spec fn place_post(
    s: Seq<Entry>,
    after: Seq<Entry>,
    dst: SlotIdx,
    target: CapHashOrRef,
    r: Result<(), VmError>,
) -> bool {
    effect_post(s, after, place_effect(running_slots(s), running_pinned(s), dst, target), r)
}

/// An empty cnode of the size in register 8 was made and its hash put into the
/// slot that register 7 names. `c` and `h` are the cnode and its hash.
pub open spec fn mint_post<H: Fn(&Cap) -> CapHash>(
    s: Seq<Entry>,
    after: Seq<Entry>,
    regs: Regs,
    content_hash: H,
    c: CNodeCap,
    h: CapHash,
    r: Result<(), VmError>,
) -> bool {
    &&& c.size_log == slot_of_reg(regs.gpr@[8]).0
    &&& c.slots@ == empty_slots(c.size_log)
    &&& call_ensures(content_hash, (&Cap::CNode(c),), h)
    &&& place_post(s, after, slot_of_reg(regs.gpr@[7]), CapHashOrRef::Hash(h), r)
}

/// The cap-table operations other than making a cnode.
pub open spec fn mgmt_effect(
    slots: Seq<Option<CapHashOrRef>>,
    pinned: Seq<SlotIdx>,
    op: u32,
    regs: Regs,
) -> TableEffect {
    let a = slot_of_reg(regs.gpr@[7]);
    let b = slot_of_reg(regs.gpr@[8]);
    if op == mgmt_op::COPY {
        copy_effect(slots, pinned, a, b)
    } else if op == mgmt_op::MOVE {
        move_effect(slots, pinned, a, b)
    } else if op == mgmt_op::DROP {
        drop_effect(slots, pinned, a)
    } else {
        swap_effect(slots, pinned, a, b)
    }
}

/// Whether `op` is one of the operations of `mgmt_effect`.
pub open spec fn is_table_op(op: u32) -> bool {
    op == mgmt_op::COPY || op == mgmt_op::MOVE || op == mgmt_op::DROP || op == mgmt_op::CNODE_SWAP
}

/// A cap-table operation without a directory.
pub open spec fn mgmt_post<K, H: Fn(&Cap) -> CapHash>(
    b: Vm<K>,
    a: Vm<K>,
    op: u32,
    regs: Regs,
    content_hash: H,
    r: Result<(), VmError>,
) -> bool {
    &&& same_around_stack(b, a)
    &&& if is_table_op(op) {
        effect_post(
            b.stack@,
            a.stack@,
            mgmt_effect(running_slots(b.stack@), running_pinned(b.stack@), op, regs),
            r,
        )
    } else if op == mgmt_op::CNODE_MINT {
        let size_log = slot_of_reg(regs.gpr@[8]).0 as u8;
        if size_log > crate::cap::MAX_CNODE_SIZE_LOG {
            &&& r == Err::<(), VmError>(VmError::CapTable(CapError::CNodeTooLarge(size_log)))
            &&& a.stack@ == b.stack@
        } else {
            exists|c: CNodeCap, h: CapHash| #[trigger]
                mint_post(b.stack@, a.stack@, regs, content_hash, c, h, r)
        }
    } else {
        &&& r == Err::<(), VmError>(VmError::Invariant("unknown MGMT op"))
        &&& a.stack@ == b.stack@
    }
}

/// A cap-table operation with a directory: a cnode that is made is published.
pub open spec fn mgmt_cached_post<K, H: Fn(&Cap) -> CapHash>(
    b: Vm<K>,
    a: Vm<K>,
    op: u32,
    regs: Regs,
    cache: &CacheDirectory<H>,
    cache_after: &CacheDirectory<H>,
    r: Result<(), VmError>,
) -> bool {
    &&& same_around_stack(b, a)
    &&& if op == mgmt_op::CNODE_MINT && slot_of_reg(regs.gpr@[8]).0
        <= crate::cap::MAX_CNODE_SIZE_LOG {
        exists|c: CNodeCap, h: CapHash|
            {
                &&& #[trigger] mint_post(b.stack@, a.stack@, regs, cache.hasher(), c, h, r)
                &&& cache_after.published(cache, Cap::CNode(c), h)
            }
    } else {
        &&& mgmt_post(b, a, op, regs, cache.hasher(), r)
        &&& cache_after.same(cache)
    }
}

/// A yield of the marker in the slot that register 7 names: the highest entry
/// below the top that catches it is referred to by a new top.
pub open spec fn host_yield_post<K: KernelAssist>(
    b: Vm<K>,
    a: Vm<K>,
    regs: Regs,
    r: Result<EcallResult, VmError>,
) -> bool {
    let s = b.stack@;
    &&& same_around_stack(b, a)
    &&& match slot_hash(s, slot_of_reg(regs.gpr@[7])) {
        Err(e) => r == Err::<EcallResult, VmError>(e) && a.stack@ == s,
        Ok(marker) => match topmost_catcher(s, b.kernel_assist.assist(), marker, s.len() - 1) {
            None => r == Err::<EcallResult, VmError>(VmError::UnhandledMarker) && a.stack@ == s,
            Some(p) => match push_reference_check(s, b.stack.max_depth(), p) {
                Err(e) => r == Err::<EcallResult, VmError>(e) && a.stack@ == s,
                Ok(()) => {
                    &&& r == Ok::<EcallResult, VmError>(
                        EcallResult::Exit(ExitReason::HostCall(host_op::HOST_YIELD)),
                    )
                    &&& a.stack@ == pushed_reference(s, p)
                },
            },
        },
    }
}

/// The chain of the running instance extended by an image hash.
pub open spec fn extended_chain(s: Seq<Entry>, image: CapHash) -> CapHash {
    hash_of_bytes(hash_pair_of(running_entry(s)->0.image_hash_chain@, image@))
}

/// Binding the image in the slot that register 7 names, without a directory:
/// only the chain and the image hash change.
pub open spec fn set_image_post<K>(
    b: Vm<K>,
    a: Vm<K>,
    regs: Regs,
    r: Result<(), VmError>,
) -> bool {
    let s = b.stack@;
    &&& same_around_stack(b, a)
    &&& match slot_hash(s, slot_of_reg(regs.gpr@[7])) {
        Err(e) => r == Err::<(), VmError>(e) && a.stack@ == s,
        Ok(image) => {
            &&& r == Ok::<(), VmError>(())
            &&& a.stack@ == with_instance(
                s,
                running_position(s)->0,
                InstanceEntry {
                    image_hash_chain: extended_chain(s, image),
                    image_hash: image,
                    ..running_entry(s)->0
                },
            )
        },
    }
}

/// Binding the image in the slot that register 7 names, with a directory: the
/// program, the pinned slots and the catcher slot become those of the image.
pub open spec fn set_image_cached_post<K, H: Fn(&Cap) -> CapHash>(
    b: Vm<K>,
    a: Vm<K>,
    regs: Regs,
    cache: &CacheDirectory<H>,
    r: Result<(), VmError>,
) -> bool {
    let s = b.stack@;
    &&& a.stack.max_depth() == b.stack.max_depth()
    &&& a.kernel_assist == b.kernel_assist
    &&& match slot_hash(s, slot_of_reg(regs.gpr@[7])) {
        Err(e) => r == Err::<(), VmError>(e) && same_vm(b, a),
        Ok(image) => match cache.at(CapHashOrRef::Hash(image)) {
            Some(Cap::Image(img)) => {
                let p = running_position(s)->0;
                &&& r == Ok::<(), VmError>(())
                &&& program_cached(b.image_cache@, a.image_cache@, image, img)
                &&& a.stack@.len() == s.len()
                &&& a.stack@[p] is Instance
                &&& {
                    let now = *a.stack@[p]->Instance_0;
                    &&& a.stack@ == with_instance(s, p, now)
                    &&& now == (InstanceEntry {
                        image_hash_chain: extended_chain(s, image),
                        image_hash: image,
                        program: a.image_cache@[image],
                        pinned_slots: now.pinned_slots,
                        yield_marker_slot: img.yield_marker_slot,
                        ..running_entry(s)->0
                    })
                    &&& now.pinned_slots@ == declared_slots(img.pinned@)
                }
            },
            _ => r == Err::<(), VmError>(VmError::ImageNotFound) && same_vm(b, a),
        },
    }
}

/// Spawning without a directory: the extended chain is put into the slot that
/// register 8 names.
pub open spec fn derive_spawn_post<K>(
    b: Vm<K>,
    a: Vm<K>,
    regs: Regs,
    r: Result<(), VmError>,
) -> bool {
    let s = b.stack@;
    &&& same_around_stack(b, a)
    &&& match slot_hash(s, slot_of_reg(regs.gpr@[7])) {
        Err(e) => r == Err::<(), VmError>(e) && a.stack@ == s,
        Ok(image) => place_post(
            s,
            a.stack@,
            slot_of_reg(regs.gpr@[8]),
            CapHashOrRef::Hash(extended_chain(s, image)),
            r,
        ),
    }
}

/// Comparing the hashes in the slots that registers 7 and 8 name.
pub open spec fn same_type_result(s: Seq<Entry>, regs: Regs) -> Result<u64, VmError> {
    let a = slot_of_reg(regs.gpr@[7]);
    let b = slot_of_reg(regs.gpr@[8]);
    match running_entry(s) {
        None => Err(VmError::CallStackEmpty),
        Some(e) => match e.root_cnode.at(a) {
            Some(CapHashOrRef::Hash(ha)) => match e.root_cnode.at(b) {
                Some(CapHashOrRef::Hash(hb)) => Ok(
                    if ha == hb {
                        1
                    } else {
                        0
                    },
                ),
                _ => Err(VmError::SlotEmpty(b.0)),
            },
            _ => Err(VmError::SlotEmpty(a.0)),
        },
    }
}

/// Register 7 set.
pub open spec fn with_r7(regs: Regs, after: Regs, value: u64) -> bool {
    &&& after.pc == regs.pc
    &&& after.gpr@ == regs.gpr@.update(7, value)
}

/// An operation that only answers in register 7.
pub open spec fn answer_post(
    regs: Regs,
    regs_after: Regs,
    answer: Result<u64, VmError>,
    r: Result<(), VmError>,
) -> bool {
    match answer {
        Err(e) => r == Err::<(), VmError>(e) && regs_after == regs,
        Ok(v) => r == Ok::<(), VmError>(()) && with_r7(regs, regs_after, v),
    }
}

/// What the machine does after a host call that continues.
pub open spec fn continue_or_trap(r: Result<(), VmError>) -> EcallResult {
    match r {
        Ok(()) => EcallResult::Continue,
        Err(_) => EcallResult::Exit(ExitReason::Trap),
    }
}

/// What the machine does after a host call that leaves the run.
pub open spec fn exit_or_trap(op: u32, r: Result<(), VmError>) -> EcallResult {
    match r {
        Ok(()) => EcallResult::Exit(ExitReason::HostCall(op)),
        Err(_) => EcallResult::Exit(ExitReason::Trap),
    }
}

/// A host call without a directory. Those that need one trap.
pub open spec fn host_call_post<K: KernelAssist>(
    b: Vm<K>,
    a: Vm<K>,
    op: u32,
    regs: Regs,
    regs_after: Regs,
    result: EcallResult,
) -> bool {
    if op == host_op::HOST_YIELD {
        &&& regs_after == regs
        &&& exists|r: Result<EcallResult, VmError>|
            {
                &&& #[trigger] host_yield_post(b, a, regs, r)
                &&& result == (match r {
                    Ok(x) => x,
                    Err(_) => EcallResult::Exit(ExitReason::Trap),
                })
            }
    } else if op == host_op::SET_IMAGE {
        &&& regs_after == regs
        &&& exists|r: Result<(), VmError>| #[trigger]
            set_image_post(b, a, regs, r) && result == continue_or_trap(r)
    } else if op == host_op::DERIVE_SPAWN {
        &&& regs_after == regs
        &&& exists|r: Result<(), VmError>| #[trigger]
            derive_spawn_post(b, a, regs, r) && result == continue_or_trap(r)
    } else if op == host_op::HOST_SAME_TYPE {
        &&& same_vm(b, a)
        &&& exists|r: Result<(), VmError>| #[trigger]
            answer_post(regs, regs_after, same_type_result(b.stack@, regs), r) && result
                == continue_or_trap(r)
    } else if op == host_op::MAKE_IMAGE || op == host_op::HOST_TYPE_OF || op
        == host_op::HOST_READ_DATA_CAP || op == host_op::HOST_MINT_DATA_CAP || op
        == host_op::HOST_OPEN || op == host_op::HOST_SAVE || op == host_op::HOST_CALL {
        &&& same_vm(b, a)
        &&& regs_after == regs
        &&& result == EcallResult::Exit(ExitReason::Trap)
    } else {
        &&& same_vm(b, a)
        &&& regs_after == regs
        &&& result == EcallResult::Continue
    }
}

/// An environment call without a directory.
pub open spec fn ecalli_post<K: KernelAssist, H: Fn(&Cap) -> CapHash>(
    b: Vm<K>,
    a: Vm<K>,
    op: u32,
    regs: Regs,
    regs_after: Regs,
    content_hash: H,
    result: EcallResult,
) -> bool {
    if op == 0 {
        &&& same_vm(b, a)
        &&& regs_after == regs
        &&& result == EcallResult::Exit(ExitReason::Halt)
    } else if op <= mgmt_op::MAX {
        &&& regs_after == regs
        &&& exists|r: Result<(), VmError>| #[trigger]
            mgmt_post(b, a, op, regs, content_hash, r) && result == continue_or_trap(r)
    } else if op <= host_op::MAX {
        host_call_post(b, a, op, regs, regs_after, result)
    } else {
        &&& same_vm(b, a)
        &&& regs_after == regs
        &&& result == EcallResult::Continue
    }
}

impl<K: KernelAssist> Vm<K> {
    /// The content hash in a slot of the running instance.
    pub(crate) fn running_slot_hash(&self, slot: SlotIdx) -> (r: Result<CapHash, VmError>)
        ensures
            r == slot_hash(self.stack@, slot),
    {
        match self.stack.running_instance() {
            None => Err(VmError::CallStackEmpty),
            Some(running) => match running.root_cnode.get(slot) {
                Some(CapHashOrRef::Hash(h)) => Ok(h),
                Some(CapHashOrRef::Ref(_)) => Err(VmError::SlotKindMismatch(slot.get())),
                None => Err(VmError::SlotEmpty(slot.get())),
            },
        }
    }

    /// The target in a slot of the running instance.
    pub(crate) fn running_slot_target(&self, slot: SlotIdx) -> (r: Result<CapHashOrRef, VmError>)
        ensures
            r == slot_target(self.stack@, slot),
    {
        match self.stack.running_instance() {
            None => Err(VmError::CallStackEmpty),
            Some(running) => match running.root_cnode.get(slot) {
                Some(t) => Ok(t),
                None => Err(VmError::SlotEmpty(slot.get())),
            },
        }
    }

    /// The chain of the running instance extended by an image hash.
    pub(crate) fn extend_chain(&self, image: &CapHash) -> (r: Result<CapHash, VmError>)
        ensures
            running_entry(self.stack@) is None ==> r == Err::<CapHash, VmError>(
                VmError::CallStackEmpty,
            ),
            running_entry(self.stack@) is Some ==> r == Ok::<CapHash, VmError>(
                extended_chain(self.stack@, *image),
            ),
    {
        match self.stack.running_instance() {
            None => Err(VmError::CallStackEmpty),
            Some(running) => {
                let chain = Blake2b256::hash_pair(&running.image_hash_chain, image);
                proof {
                    lemma_hash_of_bytes(chain);
                }
                Ok(chain)
            },
        }
    }

    /// Put `target` into slot `dst` of the running instance, unless it is pinned.
    pub(crate) fn place(&mut self, dst: SlotIdx, target: CapHashOrRef) -> (r: Result<(), VmError>)
        ensures
            place_post(old(self).stack@, final(self).stack@, dst, target, r),
            same_around_stack(*old(self), *final(self)),
    {
        match self.stack.running_instance_mut() {
            None => Err(VmError::CallStackEmpty),
            Some(running) => {
                if is_pinned_slot(running.pinned_slots.as_slice(), dst) {
                    return Err(VmError::Op(OpError::SlotPinned(dst.get())));
                }
                match running.root_cnode.set(dst, Some(target)) {
                    Ok(()) => Ok(()),
                    Err(e) => Err(VmError::CapTable(e)),
                }
            },
        }
    }

    /// Copy slot `a` to slot `b`.
    pub fn mgmt_copy(&mut self, a: SlotIdx, b: SlotIdx) -> (r: Result<(), VmError>)
        ensures
            effect_post(
                old(self).stack@,
                final(self).stack@,
                copy_effect(running_slots(old(self).stack@), running_pinned(old(self).stack@), a, b),
                r,
            ),
            same_around_stack(*old(self), *final(self)),
    {
        match self.stack.running_instance_mut() {
            None => Err(VmError::CallStackEmpty),
            Some(running) => {
                if is_pinned_slot(running.pinned_slots.as_slice(), b) {
                    return Err(VmError::Op(OpError::SlotPinned(b.get())));
                }
                match running.root_cnode.get(a) {
                    None => Err(VmError::Op(OpError::SourceEmpty)),
                    Some(src) => match running.root_cnode.set(b, Some(src)) {
                        Ok(()) => Ok(()),
                        Err(e) => Err(VmError::CapTable(e)),
                    },
                }
            },
        }
    }

    /// Move slot `a` to slot `b`.
    pub fn mgmt_move(&mut self, a: SlotIdx, b: SlotIdx) -> (r: Result<(), VmError>)
        ensures
            effect_post(
                old(self).stack@,
                final(self).stack@,
                move_effect(running_slots(old(self).stack@), running_pinned(old(self).stack@), a, b),
                r,
            ),
            same_around_stack(*old(self), *final(self)),
    {
        match self.stack.running_instance_mut() {
            None => Err(VmError::CallStackEmpty),
            Some(running) => {
                if is_pinned_slot(running.pinned_slots.as_slice(), a) {
                    return Err(VmError::Op(OpError::SlotPinned(a.get())));
                }
                if is_pinned_slot(running.pinned_slots.as_slice(), b) {
                    return Err(VmError::Op(OpError::SlotPinned(b.get())));
                }
                let ghost slots = running.root_cnode.slots@;
                match running.root_cnode.take(a) {
                    Err(e) => Err(VmError::CapTable(e)),
                    Ok(None) => {
                        assert(slots_set(slots, a, None) =~= slots);
                        Err(VmError::Op(OpError::SourceEmpty))
                    },
                    Ok(Some(src)) => match running.root_cnode.set(b, Some(src)) {
                        Ok(()) => Ok(()),
                        Err(e) => Err(VmError::CapTable(e)),
                    },
                }
            },
        }
    }

    /// Empty slot `a`.
    pub fn mgmt_drop(&mut self, a: SlotIdx) -> (r: Result<(), VmError>)
        ensures
            effect_post(
                old(self).stack@,
                final(self).stack@,
                drop_effect(running_slots(old(self).stack@), running_pinned(old(self).stack@), a),
                r,
            ),
            same_around_stack(*old(self), *final(self)),
    {
        match self.stack.running_instance_mut() {
            None => Err(VmError::CallStackEmpty),
            Some(running) => {
                if is_pinned_slot(running.pinned_slots.as_slice(), a) {
                    return Err(VmError::Op(OpError::SlotPinned(a.get())));
                }
                match running.root_cnode.take(a) {
                    Ok(_) => Ok(()),
                    Err(e) => Err(VmError::CapTable(e)),
                }
            },
        }
    }

    /// Swap slots `a` and `b`.
    pub fn mgmt_cnode_swap(&mut self, a: SlotIdx, b: SlotIdx) -> (r: Result<(), VmError>)
        ensures
            effect_post(
                old(self).stack@,
                final(self).stack@,
                swap_effect(running_slots(old(self).stack@), running_pinned(old(self).stack@), a, b),
                r,
            ),
            same_around_stack(*old(self), *final(self)),
    {
        match self.stack.running_instance_mut() {
            None => Err(VmError::CallStackEmpty),
            Some(running) => {
                if is_pinned_slot(running.pinned_slots.as_slice(), a) {
                    return Err(VmError::Op(OpError::SlotPinned(a.get())));
                }
                if is_pinned_slot(running.pinned_slots.as_slice(), b) {
                    return Err(VmError::Op(OpError::SlotPinned(b.get())));
                }
                let ghost slots = running.root_cnode.slots@;
                let av = match running.root_cnode.take(a) {
                    Ok(t) => t,
                    Err(e) => {
                        return Err(VmError::CapTable(e));
                    },
                };
                let bv = match running.root_cnode.take(b) {
                    Ok(t) => t,
                    Err(e) => {
                        return Err(VmError::CapTable(e));
                    },
                };
                if let Some(t) = bv {
                    match running.root_cnode.set(a, Some(t)) {
                        Ok(()) => {},
                        Err(e) => {
                            return Err(VmError::CapTable(e));
                        },
                    }
                }
                if let Some(t) = av {
                    match running.root_cnode.set(b, Some(t)) {
                        Ok(()) => {},
                        Err(e) => {
                            return Err(VmError::CapTable(e));
                        },
                    }
                }
                assert(running.root_cnode.slots@ =~= slots_set(
                    slots_set(slots, a, slot_at(slots, b)),
                    b,
                    slot_at(slots, a),
                ));
                Ok(())
            },
        }
    }

    /// Make an empty cnode, and put its hash into slot `dst`.
    fn mgmt_cnode_mint<H: Fn(&Cap) -> CapHash>(
        &mut self,
        regs: &Regs,
        content_hash: &H,
    ) -> (r: Result<(), VmError>)
        requires
            crate::cache::callable(*content_hash),
        ensures
            mgmt_post(*old(self), *final(self), mgmt_op::CNODE_MINT, *regs, *content_hash, r),
    {
        let dst = SlotIdx::from_reg(regs.gpr[7]);
        let size_log: u8 = SlotIdx::from_reg(regs.gpr[8]).0 as u8;
        proof {
            lemma_slot_is_byte(regs.gpr@[8]);
        }
        let cnode = match CNodeCap::new(size_log) {
            Ok(c) => c,
            Err(e) => {
                return Err(VmError::CapTable(e));
            },
        };
        let ghost c = cnode;
        let cap = Cap::CNode(cnode);
        let h = content_hash(&cap);
        let r = self.place(dst, CapHashOrRef::Hash(h));
        assert(mint_post(old(self).stack@, self.stack@, *regs, *content_hash, c, h, r));
        r
    }

    /// Make an empty cnode, publish it, and put its hash into slot `dst`.
    fn mgmt_cnode_mint_cached<H: Fn(&Cap) -> CapHash>(
        &mut self,
        regs: &Regs,
        cache: &mut CacheDirectory<H>,
    ) -> (r: Result<(), VmError>)
        requires
            old(cache).wf(),
        ensures
            final(cache).wf(),
            mgmt_cached_post(
                *old(self),
                *final(self),
                mgmt_op::CNODE_MINT,
                *regs,
                old(cache),
                final(cache),
                r,
            ),
    {
        let dst = SlotIdx::from_reg(regs.gpr[7]);
        let size_log: u8 = SlotIdx::from_reg(regs.gpr[8]).0 as u8;
        proof {
            lemma_slot_is_byte(regs.gpr@[8]);
        }
        let cnode = match CNodeCap::new(size_log) {
            Ok(c) => c,
            Err(e) => {
                return Err(VmError::CapTable(e));
            },
        };
        let ghost c = cnode;
        let h = match cache.put_cap(Cap::CNode(cnode)) {
            Ok(h) => h,
            Err(e) => {
                assert(settled(Cap::CNode(c)));
                return Err(VmError::CacheDirectory(e));
            },
        };
        let r = self.place(dst, CapHashOrRef::Hash(h));
        assert(mint_post(old(self).stack@, self.stack@, *regs, old(cache).hasher(), c, h, r));
        r
    }

    /// A cap-table operation without a directory.
    pub fn dispatch_mgmt<H: Fn(&Cap) -> CapHash>(
        &mut self,
        op: u32,
        regs: &Regs,
        content_hash: &H,
    ) -> (r: Result<(), VmError>)
        requires
            crate::cache::callable(*content_hash),
        ensures
            mgmt_post(*old(self), *final(self), op, *regs, *content_hash, r),
    {
        let a = SlotIdx::from_reg(regs.gpr[7]);
        let b = SlotIdx::from_reg(regs.gpr[8]);
        if op == mgmt_op::COPY {
            self.mgmt_copy(a, b)
        } else if op == mgmt_op::MOVE {
            self.mgmt_move(a, b)
        } else if op == mgmt_op::DROP {
            self.mgmt_drop(a)
        } else if op == mgmt_op::CNODE_SWAP {
            self.mgmt_cnode_swap(a, b)
        } else if op == mgmt_op::CNODE_MINT {
            self.mgmt_cnode_mint(regs, content_hash)
        } else {
            Err(VmError::Invariant("unknown MGMT op"))
        }
    }

    /// A cap-table operation with a directory.
    pub fn dispatch_mgmt_cached<H: Fn(&Cap) -> CapHash>(
        &mut self,
        op: u32,
        regs: &Regs,
        cache: &mut CacheDirectory<H>,
    ) -> (r: Result<(), VmError>)
        requires
            old(cache).wf(),
        ensures
            final(cache).wf(),
            mgmt_cached_post(*old(self), *final(self), op, *regs, old(cache), final(cache), r),
    {
        let a = SlotIdx::from_reg(regs.gpr[7]);
        let b = SlotIdx::from_reg(regs.gpr[8]);
        if op == mgmt_op::COPY {
            self.mgmt_copy(a, b)
        } else if op == mgmt_op::MOVE {
            self.mgmt_move(a, b)
        } else if op == mgmt_op::DROP {
            self.mgmt_drop(a)
        } else if op == mgmt_op::CNODE_SWAP {
            self.mgmt_cnode_swap(a, b)
        } else if op == mgmt_op::CNODE_MINT {
            self.mgmt_cnode_mint_cached(regs, cache)
        } else {
            Err(VmError::Invariant("unknown MGMT op"))
        }
    }

    /// Yield the marker in the slot that register 7 names.
    pub fn dispatch_host_yield(&mut self, regs: &Regs) -> (r: Result<EcallResult, VmError>)
        ensures
            host_yield_post(*old(self), *final(self), *regs, r),
    {
        let marker_slot = SlotIdx::from_reg(regs.gpr[7]);
        let marker = match self.running_slot_hash(marker_slot) {
            Ok(h) => h,
            Err(e) => {
                return Err(e);
            },
        };
        let n: usize = self.stack.len();
        match self.find_catcher(&marker, n - 1) {
            None => Err(VmError::UnhandledMarker),
            Some(pos) => match self.stack.push_reference(pos) {
                Ok(()) => Ok(EcallResult::Exit(ExitReason::HostCall(host_op::HOST_YIELD))),
                Err(e) => Err(e),
            },
        }
    }

    /// Bind the image in the slot that register 7 names, without a directory.
    pub fn dispatch_set_image(&mut self, regs: &Regs) -> (r: Result<(), VmError>)
        ensures
            set_image_post(*old(self), *final(self), *regs, r),
    {
        let image = match self.running_slot_hash(SlotIdx::from_reg(regs.gpr[7])) {
            Ok(h) => h,
            Err(e) => {
                return Err(e);
            },
        };
        let chain = match self.extend_chain(&image) {
            Ok(c) => c,
            Err(e) => {
                return Err(e);
            },
        };
        match self.stack.running_instance_mut() {
            None => Err(VmError::CallStackEmpty),
            Some(running) => {
                running.image_hash_chain = chain;
                running.image_hash = image;
                Ok(())
            },
        }
    }

    /// Bind the image in the slot that register 7 names.
    pub fn dispatch_set_image_cached<H: Fn(&Cap) -> CapHash>(
        &mut self,
        regs: &Regs,
        cache: &CacheDirectory<H>,
    ) -> (r: Result<(), VmError>)
        ensures
            set_image_cached_post(*old(self), *final(self), *regs, cache, r),
    {
        let image = match self.running_slot_hash(SlotIdx::from_reg(regs.gpr[7])) {
            Ok(h) => h,
            Err(e) => {
                return Err(e);
            },
        };
        let chain = match self.extend_chain(&image) {
            Ok(c) => c,
            Err(e) => {
                return Err(e);
            },
        };
        let img = match cache.get(CapHashOrRef::Hash(image)) {
            Some(Cap::Image(i)) => i,
            _ => {
                return Err(VmError::ImageNotFound);
            },
        };
        let program = self.image_cache.get_or_decode(
            image,
            copy_bytes(img.code.as_slice()),
            img.code_base,
        );
        let pinned_slots = collect_slots(img.pinned.as_slice());
        match self.stack.running_instance_mut() {
            None => Err(VmError::CallStackEmpty),
            Some(running) => {
                running.image_hash_chain = chain;
                running.image_hash = image;
                running.program = program;
                running.pinned_slots = pinned_slots;
                running.yield_marker_slot = img.yield_marker_slot;
                Ok(())
            },
        }
    }

    /// Spawn without a directory.
    pub fn dispatch_derive_spawn(&mut self, regs: &Regs) -> (r: Result<(), VmError>)
        ensures
            derive_spawn_post(*old(self), *final(self), *regs, r),
    {
        let image = match self.running_slot_hash(SlotIdx::from_reg(regs.gpr[7])) {
            Ok(h) => h,
            Err(e) => {
                return Err(e);
            },
        };
        let chain = match self.extend_chain(&image) {
            Ok(c) => c,
            Err(e) => {
                return Err(e);
            },
        };
        self.place(SlotIdx::from_reg(regs.gpr[8]), CapHashOrRef::Hash(chain))
    }

    /// Compare the hashes in the slots that registers 7 and 8 name; the answer
    /// goes into register 7.
    pub fn dispatch_host_same_type(&self, regs: &mut Regs) -> (r: Result<(), VmError>)
        ensures
            answer_post(
                *old(regs),
                *final(regs),
                same_type_result(self.stack@, *old(regs)),
                r,
            ),
    {
        let a = SlotIdx::from_reg(regs.gpr[7]);
        let b = SlotIdx::from_reg(regs.gpr[8]);
        let same: bool = match self.stack.running_instance() {
            None => {
                return Err(VmError::CallStackEmpty);
            },
            Some(running) => match running.root_cnode.get(a) {
                Some(CapHashOrRef::Hash(ha)) => match running.root_cnode.get(b) {
                    Some(CapHashOrRef::Hash(hb)) => same_hash(&ha, &hb),
                    _ => {
                        return Err(VmError::SlotEmpty(b.get()));
                    },
                },
                _ => {
                    return Err(VmError::SlotEmpty(a.get()));
                },
            },
        };
        regs.gpr[7] = if same {
            1
        } else {
            0
        };
        Ok(())
    }

    pub(crate) fn continue_after(r: Result<(), VmError>) -> (result: EcallResult)
        ensures
            result == continue_or_trap(r),
    {
        match r {
            Ok(()) => EcallResult::Continue,
            Err(_) => EcallResult::Exit(ExitReason::Trap),
        }
    }

    /// A host call without a directory.
    pub fn dispatch_host_call(&mut self, op: u32, regs: &mut Regs) -> (result: EcallResult)
        ensures
            host_call_post(*old(self), *final(self), op, *old(regs), *final(regs), result),
    {
        if op == host_op::HOST_YIELD {
            let r = self.dispatch_host_yield(regs);
            assert(host_yield_post(*old(self), *self, *regs, r));
            match r {
                Ok(x) => x,
                Err(_) => EcallResult::Exit(ExitReason::Trap),
            }
        } else if op == host_op::SET_IMAGE {
            let r = self.dispatch_set_image(regs);
            assert(set_image_post(*old(self), *self, *regs, r));
            Self::continue_after(r)
        } else if op == host_op::DERIVE_SPAWN {
            let r = self.dispatch_derive_spawn(regs);
            assert(derive_spawn_post(*old(self), *self, *regs, r));
            Self::continue_after(r)
        } else if op == host_op::HOST_SAME_TYPE {
            let r = self.dispatch_host_same_type(regs);
            assert(answer_post(*old(regs), *regs, same_type_result(self.stack@, *old(regs)), r));
            Self::continue_after(r)
        } else if op == host_op::MAKE_IMAGE || op == host_op::HOST_TYPE_OF || op
            == host_op::HOST_READ_DATA_CAP || op == host_op::HOST_MINT_DATA_CAP || op
            == host_op::HOST_OPEN || op == host_op::HOST_SAVE || op == host_op::HOST_CALL {
            EcallResult::Exit(ExitReason::Trap)
        } else {
            EcallResult::Continue
        }
    }

    /// An environment call with operation code `op`, without a directory.
    pub fn dispatch_ecalli<H: Fn(&Cap) -> CapHash>(
        &mut self,
        op: u32,
        regs: &mut Regs,
        content_hash: &H,
    ) -> (result: EcallResult)
        requires
            crate::cache::callable(*content_hash),
        ensures
            ecalli_post(
                *old(self),
                *final(self),
                op,
                *old(regs),
                *final(regs),
                *content_hash,
                result,
            ),
    {
        if op == 0 {
            EcallResult::Exit(ExitReason::Halt)
        } else if op <= mgmt_op::MAX {
            let r = self.dispatch_mgmt(op, regs, content_hash);
            assert(mgmt_post(*old(self), *self, op, *regs, *content_hash, r));
            Self::continue_after(r)
        } else if op <= host_op::MAX {
            self.dispatch_host_call(op, regs)
        } else {
            EcallResult::Continue
        }
    }

    /// An environment call without immediate: register 11 holds the code.
    pub fn dispatch_ecall<H: Fn(&Cap) -> CapHash>(
        &mut self,
        regs: &mut Regs,
        content_hash: &H,
    ) -> (result: EcallResult)
        requires
            crate::cache::callable(*content_hash),
        ensures
            ecalli_post(
                *old(self),
                *final(self),
                old(regs).gpr@[11] as u32,
                *old(regs),
                *final(regs),
                *content_hash,
                result,
            ),
    {
        let op: u32 = regs.gpr[11] as u32;
        self.dispatch_ecalli(op, regs, content_hash)
    }

    /// Handle an environment call without a directory.
    pub fn handle<H: Fn(&Cap) -> CapHash>(
        &mut self,
        kind: EcallKind,
        regs: &mut Regs,
        content_hash: &H,
    ) -> (result: EcallResult)
        requires
            crate::cache::callable(*content_hash),
        ensures
            ecalli_post(
                *old(self),
                *final(self),
                op_of(kind, *old(regs)),
                *old(regs),
                *final(regs),
                *content_hash,
                result,
            ),
    {
        match kind {
            EcallKind::Ecalli(op) => self.dispatch_ecalli(op, regs, content_hash),
            EcallKind::Ecall => self.dispatch_ecall(regs, content_hash),
        }
    }
}

/// The operation code of an environment call.
pub open spec fn op_of(kind: EcallKind, regs: Regs) -> u32 {
    match kind {
        EcallKind::Ecalli(op) => op,
        EcallKind::Ecall => regs.gpr@[11] as u32,
    }
}

proof fn lemma_slot_is_byte(reg: u64)
    ensures
        slot_of_reg(reg).0 <= 0xFF,
{
    assert(reg & 0xFF <= 0xFF) by (bit_vector);
}

/// No operation on the cap table changes a pinned slot.
pub proof fn law_pinned_slots_stay(
    slots: Seq<Option<CapHashOrRef>>,
    pinned: Seq<SlotIdx>,
    op: u32,
    regs: Regs,
    target: CapHashOrRef,
    dst: SlotIdx,
    idx: SlotIdx,
)
    requires
        pinned.contains(idx),
        is_table_op(op),
    ensures
        slot_at(mgmt_effect(slots, pinned, op, regs).0, idx) == slot_at(slots, idx),
        slot_at(place_effect(slots, pinned, dst, target).0, idx) == slot_at(slots, idx),
{
}

/// A swap that succeeds is undone by the same swap.
pub proof fn law_swap_undoes_swap(
    slots: Seq<Option<CapHashOrRef>>,
    pinned: Seq<SlotIdx>,
    a: SlotIdx,
    b: SlotIdx,
)
    requires
        swap_effect(slots, pinned, a, b).1 is Ok,
    ensures
        swap_effect(swap_effect(slots, pinned, a, b).0, pinned, a, b).1 is Ok,
        swap_effect(swap_effect(slots, pinned, a, b).0, pinned, a, b).0 == slots,
{
    assert(swap_effect(swap_effect(slots, pinned, a, b).0, pinned, a, b).0 =~= slots);
}

/// A move that succeeds leaves what a copy and then a drop of the source leave.
pub proof fn law_move_is_copy_then_drop(
    slots: Seq<Option<CapHashOrRef>>,
    pinned: Seq<SlotIdx>,
    a: SlotIdx,
    b: SlotIdx,
)
    requires
        a != b,
        move_effect(slots, pinned, a, b).1 is Ok,
    ensures
        copy_effect(slots, pinned, a, b).1 is Ok,
        drop_effect(copy_effect(slots, pinned, a, b).0, pinned, a).1 is Ok,
        drop_effect(copy_effect(slots, pinned, a, b).0, pinned, a).0 == move_effect(
            slots,
            pinned,
            a,
            b,
        ).0,
        slot_at(move_effect(slots, pinned, a, b).0, a) is None,
        slot_at(move_effect(slots, pinned, a, b).0, b) == slot_at(slots, a),
{
    assert(drop_effect(copy_effect(slots, pinned, a, b).0, pinned, a).0 =~= move_effect(
        slots,
        pinned,
        a,
        b,
    ).0);
}

/// A yield goes to the nearest entry below that catches its marker, and to none
/// only if none catches it.
pub proof fn law_yield_goes_to_nearest_catcher(
    s: Seq<Entry>,
    assist: crate::kernel_assist::AssistView,
    marker: CapHash,
    below: int,
)
    requires
        0 <= below <= s.len() <= usize::MAX,
    ensures
        match topmost_catcher(s, assist, marker, below) {
            Some(p) => {
                &&& p < below
                &&& catches(s[p as int], assist, marker)
                &&& forall|q: int| p < q < below ==> !catches(#[trigger] s[q], assist, marker)
            },
            None => forall|q: int| 0 <= q < below ==> !catches(#[trigger] s[q], assist, marker),
        },
    decreases below,
{
    if below > 0 && !catches(s[below - 1], assist, marker) {
        law_yield_goes_to_nearest_catcher(s, assist, marker, below - 1);
    }
}

} // verus!
