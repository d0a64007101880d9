//! The VM driver: it builds invocations from published caps, and turns the way
//! a run ended into the next run or into a result. Running a program is up to
//! the caller, which hands back how the run ended.
use vstd::prelude::*;

use std::sync::Arc;

use crate::cache::{cap_at, CacheDirectory};
use crate::callstack::{
    law_instance_update_keeps_invariant, lemma_pop_keeps_invariant, lemma_push_keeps_invariant,
    popped, pushed_instance, pushed_reference, push_reference_check, running_position,
    stack_invariant, CallStack, Entry, EntryStatus, InstanceEntry, DEFAULT_MAX_DEPTH,
};
use crate::cap::{
    collect_slots, copy_bytes, declared_slots, slots_set, CNodeCap, Cap, CapHashOrRef, ImageCap,
    InstanceCap, MemoryMapping, Overlay, SlotIdx, SlotPath, NUM_REGS,
};
use crate::ecall::host_op::HOST_CALL;
use crate::error::{CacheError, CapError, MapError, VmError};
use crate::exec::{compose_entry_regs, entry_gprs, zero_gprs, ExitReason, GasCounter, Program, Regs};
use crate::hash::{contains_hash, CapHash};
use crate::image_cache::ImageCache;
use crate::kernel_assist::{kernel_hash, kernel_image_hash, AssistView, KernelAssist, KernelImage};
use crate::mem::{
    overlaid, overlay_check, overlay_into, page_round_up, page_round_up_u64, Access, Cell, Mem,
};

verus! {

/// The VM driver.
pub struct Vm<K> {
    pub stack: CallStack,
    pub kernel_assist: K,
    pub image_cache: ImageCache,
}

/// Result of an invocation.
#[derive(Debug)]
pub enum CallResult {
    /// The program replied.
    Halt {
        /// Register 7 at the reply.
        return_value: u64,
        /// Content hash of the instance as the program left it.
        post_instance_hash: CapHash,
        /// What slot 0 held.
        reflected_slot0: Option<CapHashOrRef>,
        gas_used: u64,
    },
    /// The program trapped, panicked, faulted or ran out of gas.
    Faulted { reason: ExitReason, reflected_slot0: Option<CapHashOrRef>, gas_used: u64 },
    /// The program yielded.
    Paused { marker_payload: Option<CapHashOrRef>, gas_used: u64 },
}

/// A run to be made: the entry at `position` with these registers, this memory
/// and this gas.
#[derive(Debug)]
pub struct RunRequest {
    pub position: usize,
    pub program: Arc<Program>,
    pub regs: Regs,
    pub mem: Mem,
    pub gas: GasCounter,
    /// Gas at the start of the invocation.
    pub gas_initial: u64,
}

/// A finished run.
#[derive(Debug)]
pub struct RunOutcome {
    pub position: usize,
    pub exit: ExitReason,
    pub regs: Regs,
    pub mem: Mem,
    pub gas: GasCounter,
    /// Gas at the start of the invocation.
    pub gas_initial: u64,
}

/// What follows a finished run.
#[derive(Debug)]
pub enum DriveStep {
    Run(RunRequest),
    Done(CallResult),
}

/// An entry with its initial registers, memory and gas.
#[derive(Debug)]
pub struct BuiltEntry {
    pub entry: InstanceEntry,
    pub mem: Mem,
    pub regs: Regs,
    pub gas: GasCounter,
    pub gas_initial: u64,
}

/// The memory that a list of overlays leaves at `a`, over `base`.
pub open spec fn overlay_cells(overlays: Seq<Overlay>, base: Option<Cell>, a: int) -> Option<Cell>
    decreases overlays.len(),
{
    if overlays.len() == 0 {
        base
    } else {
        overlaid(
            overlay_cells(overlays.drop_last(), base, a),
            overlays.last().start,
            overlays.last().bytes@,
            Access::ReadWrite,
            a,
        )
    }
}

/// The first refusal when a list of overlays is laid down.
pub open spec fn overlays_check(overlays: Seq<Overlay>) -> Result<(), MapError>
    decreases overlays.len(),
{
    if overlays.len() == 0 {
        Ok(())
    } else {
        match overlays_check(overlays.drop_last()) {
            Err(e) => Err(e),
            Ok(()) => overlay_check(overlays.last().start, overlays.last().bytes@),
        }
    }
}

/// The byte at `a` of an instance's initial memory: zeros up to its size in
/// whole pages, and its overlays over that.
pub open spec fn entry_cell(inst: InstanceCap, a: int) -> Option<Cell> {
    overlay_cells(
        inst.rw_overlays@,
        if 0 <= a < page_round_up(inst.mem_size as int) {
            Some(Cell { access: Access::ReadWrite, byte: 0 })
        } else {
            None
        },
        a,
    )
}

/// The instance, image and cnode behind an instance reference.
pub open spec fn resolved_instance<H: Fn(&Cap) -> CapHash>(
    cache: &CacheDirectory<H>,
    inst_ref: CapHashOrRef,
) -> Result<(InstanceCap, ImageCap, CNodeCap), VmError> {
    match cache.at(inst_ref) {
        Some(Cap::Instance(inst)) => match cache.at(CapHashOrRef::Hash(inst.image_hash)) {
            Some(Cap::Image(img)) => match cache.at(inst.root_cnode) {
                None => Err(VmError::Invariant("instance root_cnode missing in cache")),
                Some(Cap::CNode(cn)) => Ok((inst, img, cn)),
                Some(_) => Err(VmError::Invariant("root_cnode does not point at Cap::CNode")),
            },
            _ => Err(VmError::ImageNotFound),
        },
        _ => Err(VmError::InstanceNotFound),
    }
}

/// What can still be refused once the caps are resolved.
pub open spec fn entry_check(inst: InstanceCap, img: ImageCap, endpoint_idx: u8) -> Result<
    (),
    VmError,
> {
    if endpoint_idx >= img.endpoints@.len() {
        Err(VmError::Invariant("endpoint index out of range"))
    } else {
        match overlays_check(inst.rw_overlays@) {
            Ok(()) => Ok(()),
            Err(e) => Err(VmError::MapRegion(e)),
        }
    }
}

/// Whether `b` is the invocation of `inst` at an endpoint of `img`.
pub open spec fn built_from(
    b: BuiltEntry,
    inst_ref: CapHashOrRef,
    inst: InstanceCap,
    img: ImageCap,
    cn: CNodeCap,
    endpoint_idx: u8,
    args: Seq<u64>,
    gas_budget: u64,
) -> bool {
    let endpoint = img.endpoints@[endpoint_idx as int];
    &&& b.entry.instance_ref == inst_ref
    &&& b.entry.image_hash_chain == inst.image_hash_chain
    &&& b.entry.image_hash == inst.image_hash
    &&& b.entry.root_cnode.size_log == cn.size_log
    &&& b.entry.root_cnode.slots@ == cn.slots@
    &&& b.entry.yield_marker_slot == img.yield_marker_slot
    &&& b.entry.pinned_slots@ == declared_slots(img.pinned@)
    &&& b.entry.status == EntryStatus::Waiting
    &&& b.entry.gas.left == 0
    &&& b.entry.regs.gpr@ == zero_gprs()
    &&& b.entry.regs.pc == 0
    &&& forall|a: int| #[trigger] b.entry.mem.cell(a) is None
    &&& b.regs.pc == endpoint.entry_pc
    &&& b.regs.gpr@ == entry_gprs(endpoint.initial_regs@, inst.regs@, args)
    &&& forall|a: int| #[trigger] b.mem.cell(a) == entry_cell(inst, a)
    &&& b.gas.left == gas_budget
    &&& b.gas_initial == gas_budget
}

/// Whether an entry's yield catcher catches `marker`.
pub open spec fn catches(e: Entry, assist: AssistView, marker: CapHash) -> bool {
    match e {
        Entry::Reference(_) => false,
        Entry::Instance(i) => match i.yield_marker_slot {
            None => false,
            Some(slot) => match i.root_cnode.at(slot) {
                Some(CapHashOrRef::Hash(catcher)) => assist.markers(catcher).contains(marker),
                _ => false,
            },
        },
    }
}

/// The highest position below `below` whose entry catches `marker`.
pub open spec fn topmost_catcher(
    s: Seq<Entry>,
    assist: AssistView,
    marker: CapHash,
    below: int,
) -> Option<usize>
    decreases below,
{
    if below <= 0 {
        None
    } else if catches(s[below - 1], assist, marker) {
        Some((below - 1) as usize)
    } else {
        topmost_catcher(s, assist, marker, below - 1)
    }
}

/// The bytes at `[start, start + len)`.
pub open spec fn mem_bytes(mem: Mem, start: int, len: nat) -> Seq<u8> {
    Seq::new(len, |i: int| mem.cell(start + i)->0.byte)
}

/// Overlays as plain values.
pub open spec fn overlay_values(overlays: Seq<Overlay>) -> Seq<(u32, Seq<u8>)> {
    overlays.map_values(|o: Overlay| (o.start, o.bytes@))
}

/// The mapped memory of an instance, mapping by mapping; a mapping that is not
/// fully mapped is left out.
pub open spec fn memory_snapshot(mem: Mem, mappings: Seq<MemoryMapping>) -> Seq<(u32, Seq<u8>)>
    decreases mappings.len(),
{
    if mappings.len() == 0 {
        Seq::empty()
    } else {
        let rest = memory_snapshot(mem, mappings.drop_last());
        let m = mappings.last();
        let start = m.start as u32;
        if mem.readable(start as int, m.size as nat) {
            rest.push((start, mem_bytes(mem, start as int, m.size as nat)))
        } else {
            rest
        }
    }
}

/// End of a mapping, as the 32-bit address space has it.
pub open spec fn mapping_end(m: MemoryMapping) -> u32 {
    m.start.wrapping_add(m.size) as u32
}

/// Whether `cap` is the instance that `entry` has become.
pub open spec fn settled_instance(
    cap: InstanceCap,
    entry: InstanceEntry,
    cnode_hash: CapHash,
    img: ImageCap,
) -> bool {
    &&& cap.image_hash_chain == entry.image_hash_chain
    &&& cap.image_hash == entry.image_hash
    &&& cap.root_cnode == CapHashOrRef::Hash(cnode_hash)
    &&& overlay_values(cap.rw_overlays@) == memory_snapshot(entry.mem, img.mappings@)
    &&& cap.mem_size == (if img.mappings@.len() == 0 {
        0
    } else {
        mapping_end(img.mappings@.last())
    })
    &&& cap.regs@ == entry.regs.gpr@.take(NUM_REGS as int)
    &&& cap.pc == entry.regs.pc
    &&& cap.gas_remaining == entry.gas.left
}

/// The outcome of publishing the state of `entry`: the cnode first, then the
/// instance that holds it. Without an image the instance is not published.
pub open spec fn settle_post<H: Fn(&Cap) -> CapHash>(
    entry: InstanceEntry,
    before: &CacheDirectory<H>,
    after: &CacheDirectory<H>,
    r: Result<CapHash, VmError>,
) -> bool {
    if !crate::cache::settled(Cap::CNode(entry.root_cnode)) {
        &&& r == Err::<CapHash, VmError>(VmError::CacheDirectory(CacheError::HasRef))
        &&& after.same(before)
    } else {
        exists|cn: CNodeCap, cn_hash: CapHash|
            {
                &&& cn.size_log == entry.root_cnode.size_log
                &&& cn.slots@ == entry.root_cnode.slots@
                &&& #[trigger] before.addresses(Cap::CNode(cn), cn_hash)
                &&& {
                    let blobs = before.blobs().insert(cn_hash, Cap::CNode(cn));
                    &&& after.live() == before.live()
                    &&& after.hasher() == before.hasher()
                    &&& match cap_at(blobs, before.live(), CapHashOrRef::Hash(entry.image_hash)) {
                        Some(Cap::Image(img)) => {
                            &&& r is Ok
                            &&& exists|i: InstanceCap|
                                {
                                    &&& #[trigger] settled_instance(i, entry, cn_hash, img)
                                    &&& before.addresses(Cap::Instance(i), r->Ok_0)
                                    &&& after.blobs() == blobs.insert(r->Ok_0, Cap::Instance(i))
                                }
                        },
                        _ => {
                            &&& r == Err::<CapHash, VmError>(VmError::ImageNotFound)
                            &&& after.blobs() == blobs
                        },
                    }
                }
            }
    }
}

/// Whether `a` has the stack, state and programs of `b`.
pub open spec fn same_vm<K>(b: Vm<K>, a: Vm<K>) -> bool {
    &&& a.stack@ == b.stack@
    &&& same_around_stack(b, a)
}

/// Whether `a` has the depth limit, state and programs of `b`.
pub open spec fn same_around_stack<K>(b: Vm<K>, a: Vm<K>) -> bool {
    &&& a.stack.max_depth() == b.stack.max_depth()
    &&& a.kernel_assist == b.kernel_assist
    &&& a.image_cache@ == b.image_cache@
}

/// The entry with registers, memory and gas saved.
pub open spec fn saved(e: InstanceEntry, regs: Regs, mem: Mem, gas: GasCounter) -> InstanceEntry {
    InstanceEntry { regs, mem, gas, ..e }
}

/// The stack with the entry at `at` replaced.
pub open spec fn with_instance(s: Seq<Entry>, at: int, e: InstanceEntry) -> Seq<Entry> {
    s.update(at, Entry::Instance(Box::new(e)))
}

/// Gas used since the start of the invocation.
pub open spec fn gas_used_of(run: RunOutcome) -> u64 {
    if run.gas_initial >= run.gas.left {
        (run.gas_initial - run.gas.left) as u64
    } else {
        0
    }
}

/// Whether `a` is `b` with its saved registers, memory and gas taken out.
pub open spec fn emptied(b: InstanceEntry, a: InstanceEntry) -> bool {
    &&& a == (InstanceEntry { regs: a.regs, mem: a.mem, gas: a.gas, ..b })
    &&& a.regs.gpr@ == zero_gprs()
    &&& a.regs.pc == 0
    &&& forall|x: int| #[trigger] a.mem.cell(x) is None
    &&& a.gas.left == 0
}

/// Take the saved registers, memory and gas out of an entry.
fn take_state(entry: &mut InstanceEntry) -> (state: (Regs, Mem, GasCounter))
    ensures
        state.0 == old(entry).regs,
        state.1 == old(entry).mem,
        state.2 == old(entry).gas,
        emptied(*old(entry), *final(entry)),
{
    let regs = entry.regs;
    let gas = entry.gas;
    let mut mem = Mem::new();
    std::mem::swap(&mut mem, &mut entry.mem);
    entry.regs = Regs::new();
    entry.gas = GasCounter::new(0);
    (regs, mem, gas)
}

/// The marker that stands for running out of gas.
pub open spec fn oog_marker() -> CapHash {
    crate::hash::hash_of_bytes(kernel_hash(KernelImage::OogMarker))
}

/// Routing a run out of gas from position `yielder`: the stack with a reference
/// to the catcher, and the marker. Without a catcher, or on a full stack, the
/// stack as it is and nothing.
pub open spec fn oog_route(
    s: Seq<Entry>,
    max_depth: usize,
    assist: AssistView,
    yielder: int,
) -> (Seq<Entry>, Option<CapHashOrRef>) {
    match topmost_catcher(s, assist, oog_marker(), yielder) {
        None => (s, None),
        Some(p) => if push_reference_check(s, max_depth, p) is Ok {
            (pushed_reference(s, p), Some(CapHashOrRef::Hash(oog_marker())))
        } else {
            (s, None)
        },
    }
}

/// A yield at position `p` of stack `s`: the run's state is saved and the
/// payload is `routed`, or else what the slot named by register 7 holds.
pub open spec fn paused_post(
    s: Seq<Entry>,
    after: Seq<Entry>,
    run: RunOutcome,
    routed: Option<CapHashOrRef>,
    r: Result<DriveStep, VmError>,
) -> bool {
    let p = run.position as int;
    let e = *s[p]->Instance_0;
    &&& after == with_instance(s, p, saved(e, run.regs, run.mem, run.gas))
    &&& r matches Ok(DriveStep::Done(CallResult::Paused { marker_payload, gas_used }))
    &&& gas_used == gas_used_of(run)
    &&& marker_payload == (match routed {
        Some(m) => Some(m),
        None => e.root_cnode.at(crate::cap::slot_of_reg(run.regs.gpr@[7])),
    })
}

/// A call from position `p` into the instance on top: the caller's registers and
/// memory are saved, and the callee runs on the caller's gas.
pub open spec fn enter_post(
    s: Seq<Entry>,
    after: Seq<Entry>,
    run: RunOutcome,
    r: Result<DriveStep, VmError>,
) -> bool {
    let p = run.position as int;
    let top = s.len() - 1;
    let caller = *s[p]->Instance_0;
    let callee = *s[top]->Instance_0;
    &&& after.len() == s.len()
    &&& forall|i: int| 0 <= i < s.len() && i != p && i != top ==> after[i] == s[i]
    &&& after[p] == Entry::Instance(
        Box::new(saved(caller, run.regs, run.mem, caller.gas)),
    )
    &&& after[top] is Instance
    &&& emptied(callee, *after[top]->Instance_0)
    &&& r matches Ok(DriveStep::Run(next))
    &&& next.position == top
    &&& next.program == callee.program
    &&& next.regs == callee.regs
    &&& next.mem == callee.mem
    &&& next.gas == run.gas
    &&& next.gas_initial == run.gas_initial
}

/// A callee on top that replied: it leaves the stack, the caller gets what its
/// slot 0 holds into its own slot 0, and runs on from its saved state with the
/// gas that is left.
pub open spec fn return_post(
    s: Seq<Entry>,
    after: Seq<Entry>,
    run: RunOutcome,
    r: Result<DriveStep, VmError>,
) -> bool {
    let callee = *s[s.len() - 1]->Instance_0;
    let below = popped(s);
    let top = below.len() - 1;
    if !(s[s.len() - 1] is Instance) {
        &&& after == below
        &&& r == Err::<DriveStep, VmError>(VmError::Invariant("popped a non-Instance entry"))
    } else if !(below[top] is Instance) {
        &&& after == below
        &&& r == Err::<DriveStep, VmError>(VmError::Invariant("caller is not an Instance"))
    } else {
        let caller = *below[top]->Instance_0;
        let slots = caller.root_cnode.slots@;
        if slots.len() == 0 {
            &&& after.len() == below.len()
            &&& forall|i: int| 0 <= i < top ==> after[i] == below[i]
            &&& after[top] is Instance
            &&& {
                let now = *after[top]->Instance_0;
                &&& now == (InstanceEntry { root_cnode: now.root_cnode, ..caller })
                &&& now.root_cnode.slots@ == slots
            }
            &&& r == Err::<DriveStep, VmError>(VmError::CapTable(CapError::SlotOutOfRange(0)))
        } else {
            &&& after.len() == below.len()
            &&& forall|i: int| 0 <= i < top ==> after[i] == below[i]
            &&& after[top] is Instance
            &&& {
                let resumed = *after[top]->Instance_0;
                &&& emptied(InstanceEntry { root_cnode: resumed.root_cnode, ..caller }, resumed)
                &&& resumed.root_cnode.size_log == caller.root_cnode.size_log
                &&& resumed.root_cnode.slots@ == slots_set(
                    slots,
                    SlotIdx(0),
                    callee.root_cnode.at(SlotIdx(0)),
                )
            }
            &&& r matches Ok(DriveStep::Run(next))
            &&& next.position == top
            &&& next.program == caller.program
            &&& next.regs == caller.regs
            &&& next.mem == caller.mem
            &&& next.gas == run.gas
            &&& next.gas_initial == run.gas_initial
        }
    }
}

/// The entry on top of `s` as the run left it, without its slot 0.
pub open spec fn is_left_by(e: InstanceEntry, top: InstanceEntry, run: RunOutcome) -> bool {
    &&& e == (InstanceEntry { root_cnode: e.root_cnode, ..saved(top, run.regs, run.mem, run.gas) })
    &&& e.root_cnode.size_log == top.root_cnode.size_log
    &&& e.root_cnode.slots@ == slots_set(top.root_cnode.slots@, SlotIdx(0), None)
}

/// The end of an invocation: the top leaves the stack and the way the run ended
/// becomes the result. A reply also publishes the instance as the run left it.
pub open spec fn finish_post<H: Fn(&Cap) -> CapHash>(
    s: Seq<Entry>,
    after: Seq<Entry>,
    run: RunOutcome,
    cache: &CacheDirectory<H>,
    cache_after: &CacheDirectory<H>,
    r: Result<DriveStep, VmError>,
) -> bool {
    let top = *s[s.len() - 1]->Instance_0;
    let slot0 = top.root_cnode.at(SlotIdx(0));
    if !(s[s.len() - 1] is Instance) {
        &&& r == Err::<DriveStep, VmError>(VmError::Invariant("popped a non-Instance entry"))
        &&& cache_after.same(cache)
    } else {
        &&& after == popped(s)
        &&& match run.exit {
            ExitReason::Halt => exists|e: InstanceEntry, settled: Result<CapHash, VmError>|
                {
                    &&& is_left_by(e, top, run)
                    &&& #[trigger] settle_post(e, cache, cache_after, settled)
                    &&& match settled {
                        Err(err) => r == Err::<DriveStep, VmError>(err),
                        Ok(hash) => r == Ok::<DriveStep, VmError>(
                            DriveStep::Done(
                                CallResult::Halt {
                                    return_value: run.regs.gpr@[7],
                                    post_instance_hash: hash,
                                    reflected_slot0: slot0,
                                    gas_used: gas_used_of(run),
                                },
                            ),
                        ),
                    }
                },
            ExitReason::HostCall(_) | ExitReason::Ecall => {
                &&& cache_after.same(cache)
                &&& r == Ok::<DriveStep, VmError>(
                    DriveStep::Done(
                        CallResult::Paused { marker_payload: slot0, gas_used: gas_used_of(run) },
                    ),
                )
            },
            _ => {
                &&& cache_after.same(cache)
                &&& r == Ok::<DriveStep, VmError>(
                    DriveStep::Done(
                        CallResult::Faulted {
                            reason: run.exit,
                            reflected_slot0: slot0,
                            gas_used: gas_used_of(run),
                        },
                    ),
                )
            },
        }
    }
}

/// What follows a run of the entry at `run.position`, in an invocation whose
/// first entry is at `base`.
pub open spec fn drive_post<H: Fn(&Cap) -> CapHash>(
    s: Seq<Entry>,
    max_depth: usize,
    assist: AssistView,
    after: Seq<Entry>,
    base: usize,
    run: RunOutcome,
    cache: &CacheDirectory<H>,
    cache_after: &CacheDirectory<H>,
    r: Result<DriveStep, VmError>,
) -> bool {
    let p = run.position as int;
    let (routed_stack, routed) = if run.exit == ExitReason::OutOfGas {
        oog_route(s, max_depth, assist, p)
    } else {
        (s, None)
    };
    if !(s[p] is Instance) {
        &&& r == Err::<DriveStep, VmError>(VmError::Invariant("pushed_pos points at non-Instance"))
        &&& after == s
        &&& cache_after.same(cache)
    } else if run.exit == ExitReason::HostCall(HOST_CALL) && s.len() > p + 1
        && s.last() is Instance {
        &&& enter_post(s, after, run, r)
        &&& cache_after.same(cache)
    } else if routed_stack.len() > p + 1 && routed_stack.last() is Reference {
        &&& paused_post(routed_stack, after, run, routed, r)
        &&& cache_after.same(cache)
    } else if run.exit == ExitReason::Halt && p > base {
        &&& return_post(s, after, run, r)
        &&& cache_after.same(cache)
    } else {
        finish_post(s, after, run, cache, cache_after, r)
    }
}

impl<K: KernelAssist> Vm<K> {
    pub fn new(kernel_assist: K) -> (vm: Vm<K>)
        ensures
            vm.stack@ == Seq::<Entry>::empty(),
            vm.stack.max_depth() == DEFAULT_MAX_DEPTH,
            vm.kernel_assist == kernel_assist,
            vm.image_cache@ == Map::<CapHash, Arc<Program>>::empty(),
    {
        Self::with_max_depth(kernel_assist, DEFAULT_MAX_DEPTH)
    }

    pub fn with_max_depth(kernel_assist: K, max_depth: usize) -> (vm: Vm<K>)
        ensures
            vm.stack@ == Seq::<Entry>::empty(),
            vm.stack.max_depth() == max_depth,
            vm.kernel_assist == kernel_assist,
            vm.image_cache@ == Map::<CapHash, Arc<Program>>::empty(),
    {
        Vm { stack: CallStack::new(max_depth), kernel_assist, image_cache: ImageCache::new() }
    }

    /// The initial memory of an instance.
    fn build_memory(inst: &InstanceCap) -> (r: Result<Mem, VmError>)
        ensures
            r is Ok <==> overlays_check(inst.rw_overlays@) is Ok,
            r matches Ok(mem) ==> forall|a: int| #[trigger] mem.cell(a) == entry_cell(*inst, a),
            r matches Err(e) ==> e == VmError::MapRegion(overlays_check(inst.rw_overlays@)->Err_0),
    {
        let mut mem = Mem::new();
        let size: u64 = page_round_up_u64(inst.mem_size as u64);
        if size > 0 {
            match mem.map_region(0, size, Access::ReadWrite, None) {
                Ok(()) => {},
                Err(e) => {
                    assert(false);
                    return Err(VmError::MapRegion(e));
                },
            }
        }
        let ghost whole = inst.rw_overlays@;
        let mut i: usize = 0;
        while i < inst.rw_overlays.len()
            invariant
                whole == inst.rw_overlays@,
                i <= whole.len(),
                overlays_check(whole.take(i as int)) is Ok,
                forall|a: int| #[trigger]
                    mem.cell(a) == overlay_cells(
                        whole.take(i as int),
                        if 0 <= a < page_round_up(inst.mem_size as int) {
                            Some(Cell { access: Access::ReadWrite, byte: 0 })
                        } else {
                            None
                        },
                        a,
                    ),
            decreases whole.len() - i,
        {
            let o = &inst.rw_overlays[i];
            let laid = overlay_into(&mut mem, o.start, o.bytes.as_slice(), Access::ReadWrite);
            assert(whole.take(i + 1).drop_last() =~= whole.take(i as int));
            assert(whole.take(i + 1).last() == whole[i as int]);
            match laid {
                Ok(()) => {},
                Err(e) => {
                    proof {
                        lemma_overlays_check_fails(whole, i as int, e);
                    }
                    return Err(VmError::MapRegion(e));
                },
            }
            i = i + 1;
        }
        assert(whole.take(i as int) =~= whole);
        Ok(mem)
    }

    /// The invocation of the instance behind `inst_ref` at an endpoint: its
    /// entry, and its initial registers, memory and gas. The program is cached
    /// as soon as the caps are resolved.
    pub fn build_entry<H: Fn(&Cap) -> CapHash>(
        &mut self,
        cache: &CacheDirectory<H>,
        inst_ref: CapHashOrRef,
        endpoint_idx: u8,
        args: [u64; 4],
        gas_budget: u64,
    ) -> (r: Result<BuiltEntry, VmError>)
        ensures
            final(self).stack == old(self).stack,
            final(self).kernel_assist == old(self).kernel_assist,
            match resolved_instance(cache, inst_ref) {
                Err(e) => r == Err::<BuiltEntry, VmError>(e) && final(self).image_cache@ == old(
                    self).image_cache@,
                Ok((inst, img, cn)) => {
                    &&& program_cached(
                        old(self).image_cache@,
                        final(self).image_cache@,
                        inst.image_hash,
                        img,
                    )
                    &&& match entry_check(inst, img, endpoint_idx) {
                        Err(e) => r == Err::<BuiltEntry, VmError>(e),
                        Ok(()) => {
                            &&& r is Ok
                            &&& r->Ok_0.entry.program == final(self).image_cache@[inst.image_hash]
                            &&& built_from(
                                r->Ok_0,
                                inst_ref,
                                inst,
                                img,
                                cn,
                                endpoint_idx,
                                args@,
                                gas_budget,
                            )
                        },
                    }
                },
            },
    {
        let inst = match cache.get(inst_ref) {
            Some(Cap::Instance(i)) => i,
            _ => {
                return Err(VmError::InstanceNotFound);
            },
        };
        let img = match cache.get(CapHashOrRef::Hash(inst.image_hash)) {
            Some(Cap::Image(i)) => i,
            _ => {
                return Err(VmError::ImageNotFound);
            },
        };
        let cn = match cache.get(inst.root_cnode) {
            None => {
                return Err(VmError::Invariant("instance root_cnode missing in cache"));
            },
            Some(Cap::CNode(c)) => c,
            Some(_) => {
                return Err(VmError::Invariant("root_cnode does not point at Cap::CNode"));
            },
        };
        let program = self.image_cache.get_or_decode(
            inst.image_hash,
            copy_bytes(img.code.as_slice()),
            img.code_base,
        );
        if endpoint_idx as usize >= img.endpoints.len() {
            return Err(VmError::Invariant("endpoint index out of range"));
        }
        let endpoint = &img.endpoints[endpoint_idx as usize];
        let mem = match Self::build_memory(inst) {
            Ok(m) => m,
            Err(e) => {
                return Err(e);
            },
        };
        let regs = compose_entry_regs(
            endpoint.entry_pc,
            &endpoint.initial_regs,
            &inst.regs,
            &args,
        );
        let entry = InstanceEntry {
            instance_ref: inst_ref,
            image_hash_chain: inst.image_hash_chain,
            image_hash: inst.image_hash,
            program,
            root_cnode: cn.duplicate(),
            yield_marker_slot: img.yield_marker_slot,
            pinned_slots: collect_slots(img.pinned.as_slice()),
            regs: Regs::new(),
            mem: Mem::new(),
            gas: GasCounter::new(0),
            status: EntryStatus::Waiting,
        };
        Ok(
            BuiltEntry {
                entry,
                mem,
                regs,
                gas: GasCounter::new(gas_budget),
                gas_initial: gas_budget,
            },
        )
    }

    /// Begin an invocation of a published instance: its entry goes on top of the
    /// stack, and the run to be made is returned.
    pub fn begin_invoke<H: Fn(&Cap) -> CapHash>(
        &mut self,
        cache: &CacheDirectory<H>,
        instance_hash: CapHash,
        endpoint_idx: u8,
        args: [u64; 4],
        gas_budget: u64,
    ) -> (r: Result<RunRequest, VmError>)
        ensures
            final(self).kernel_assist == old(self).kernel_assist,
            final(self).stack.max_depth() == old(self).stack.max_depth(),
            match resolved_instance(cache, CapHashOrRef::Hash(instance_hash)) {
                Err(e) => {
                    &&& r == Err::<RunRequest, VmError>(e)
                    &&& final(self).stack@ == old(self).stack@
                    &&& final(self).image_cache@ == old(self).image_cache@
                },
                Ok((inst, img, cn)) => {
                    &&& program_cached(
                        old(self).image_cache@,
                        final(self).image_cache@,
                        inst.image_hash,
                        img,
                    )
                    &&& match entry_check(inst, img, endpoint_idx) {
                        Err(e) => {
                            &&& r == Err::<RunRequest, VmError>(e)
                            &&& final(self).stack@ == old(self).stack@
                        },
                        Ok(()) => if old(self).stack@.len() >= old(self).stack.max_depth() {
                            &&& r == Err::<RunRequest, VmError>(VmError::CallStackFull)
                            &&& final(self).stack@ == old(self).stack@
                        } else {
                            &&& r is Ok
                            &&& exists|b: BuiltEntry|
                                {
                                    &&& #[trigger] built_from(
                                        b,
                                        CapHashOrRef::Hash(instance_hash),
                                        inst,
                                        img,
                                        cn,
                                        endpoint_idx,
                                        args@,
                                        gas_budget,
                                    )
                                    &&& b.entry.program == final(
                                        self).image_cache@[inst.image_hash]
                                    &&& final(self).stack@ == pushed_instance(
                                        old(self).stack@,
                                        b.entry,
                                    )
                                    &&& r->Ok_0.position == old(self).stack@.len()
                                    &&& r->Ok_0.program == b.entry.program
                                    &&& r->Ok_0.regs == b.regs
                                    &&& r->Ok_0.mem == b.mem
                                    &&& r->Ok_0.gas == b.gas
                                    &&& r->Ok_0.gas_initial == gas_budget
                                }
                        },
                    }
                },
            },
    {
        let built = match self.build_entry(
            cache,
            CapHashOrRef::Hash(instance_hash),
            endpoint_idx,
            args,
            gas_budget,
        ) {
            Ok(b) => b,
            Err(e) => {
                return Err(e);
            },
        };
        let BuiltEntry { entry, mem, regs, gas, gas_initial } = built;
        let position: usize = self.stack.len();
        let program = Arc::clone(&entry.program);
        match self.stack.push_instance(entry) {
            Ok(()) => {},
            Err(e) => {
                return Err(e);
            },
        }
        Ok(RunRequest { position, program, regs, mem, gas, gas_initial })
    }

    /// The highest entry below position `below` that catches `marker`.
    pub fn find_catcher(&self, marker: &CapHash, below: usize) -> (found: Option<usize>)
        requires
            below <= self.stack@.len(),
        ensures
            found == topmost_catcher(
                self.stack@,
                self.kernel_assist.assist(),
                *marker,
                below as int,
            ),
            found matches Some(p) ==> p < below,
    {
        let entries = self.stack.entries();
        let mut pos: usize = below;
        while pos > 0
            invariant
                pos <= below <= self.stack@.len(),
                entries@ == self.stack@,
                topmost_catcher(
                    self.stack@,
                    self.kernel_assist.assist(),
                    *marker,
                    below as int,
                ) == topmost_catcher(
                    self.stack@,
                    self.kernel_assist.assist(),
                    *marker,
                    pos as int,
                ),
            decreases pos,
        {
            pos = pos - 1;
            match &entries[pos] {
                Entry::Instance(ie) => match ie.yield_marker_slot {
                    Some(slot) => match ie.root_cnode.get(slot) {
                        Some(CapHashOrRef::Hash(catcher)) => {
                            let markers = self.kernel_assist.yield_catcher_markers(catcher);
                            if contains_hash(markers.as_slice(), marker) {
                                return Some(pos);
                            }
                        },
                        _ => {},
                    },
                    None => {},
                },
                Entry::Reference(_) => {},
            }
        }
        None
    }

    /// Route a run out of gas at position `yielder_pos` to the highest entry
    /// below it that catches the out-of-gas marker.
    pub fn reconcile_and_route_oog(&mut self, yielder_pos: usize) -> (payload: Option<
        CapHashOrRef,
    >)
        requires
            yielder_pos < old(self).stack@.len(),
        ensures
            (final(self).stack@, payload) == oog_route(
                old(self).stack@,
                old(self).stack.max_depth(),
                old(self).kernel_assist.assist(),
                yielder_pos as int,
            ),
            same_around_stack(*old(self), *final(self)),
    {
        let marker = kernel_image_hash(KernelImage::OogMarker);
        proof {
            crate::hash::lemma_hash_of_bytes(marker);
        }
        match self.find_catcher(&marker, yielder_pos) {
            None => None,
            Some(pos) => match self.stack.push_reference(pos) {
                Ok(()) => Some(CapHashOrRef::Hash(marker)),
                Err(_) => None,
            },
        }
    }

    /// Publish the state of `entry` as an instance and return its hash.
    pub fn settle_post_instance<H: Fn(&Cap) -> CapHash>(
        cache: &mut CacheDirectory<H>,
        entry: &InstanceEntry,
    ) -> (r: Result<CapHash, VmError>)
        requires
            old(cache).wf(),
        ensures
            final(cache).wf(),
            settle_post(*entry, old(cache), final(cache), r),
    {
        let cnode = entry.root_cnode.duplicate();
        let ghost cn = cnode;
        let cnode_hash = match cache.put_cap(Cap::CNode(cnode)) {
            Ok(h) => h,
            Err(e) => {
                return Err(VmError::CacheDirectory(e));
            },
        };
        let ghost blobs = cache.blobs();
        assert(old(cache).addresses(Cap::CNode(cn), cnode_hash));
        let mut overlays: Vec<Overlay> = Vec::new();
        let mem_size: u32;
        let ghost image: ImageCap;
        match cache.get(CapHashOrRef::Hash(entry.image_hash)) {
            Some(Cap::Image(img)) => {
                proof {
                    image = *img;
                }
                let n: usize = img.mappings.len();
                let mut i: usize = 0;
                while i < n
                    invariant
                        i <= n,
                        n == img.mappings@.len(),
                        overlay_values(overlays@) == memory_snapshot(
                            entry.mem,
                            img.mappings@.take(i as int),
                        ),
                    decreases n - i,
                {
                    let m = &img.mappings[i];
                    let start: u32 = m.start as u32;
                    assert(img.mappings@.take(i + 1).drop_last() =~= img.mappings@.take(i as int));
                    match entry.mem.read(start, m.size) {
                        Ok(bytes) => {
                            assert(bytes@ =~= mem_bytes(entry.mem, start as int, m.size as nat));
                            let o = Overlay { start, bytes };
                            assert(overlay_values(overlays@.push(o)) =~= overlay_values(
                                overlays@,
                            ).push((start, bytes@)));
                            overlays.push(o);
                        },
                        Err(_) => {},
                    }
                    i = i + 1;
                }
                assert(img.mappings@.take(n as int) =~= img.mappings@);
                mem_size = if n == 0 {
                    0
                } else {
                    img.mappings[n - 1].start.wrapping_add(img.mappings[n - 1].size) as u32
                };
            },
            _ => {
                return Err(VmError::ImageNotFound);
            },
        }
        let inst = InstanceCap {
            image_hash_chain: entry.image_hash_chain,
            image_hash: entry.image_hash,
            root_cnode: CapHashOrRef::Hash(cnode_hash),
            rw_overlays: overlays,
            mem_size,
            regs: entry.regs.persisted(),
            pc: entry.regs.pc,
            gas_remaining: entry.gas.remaining(),
        };
        let ghost settled_as = inst;
        assert(settled_instance(settled_as, *entry, cnode_hash, image));
        match cache.put_cap(Cap::Instance(inst)) {
            Ok(h) => Ok(h),
            Err(e) => {
                assert(false);
                Err(VmError::CacheDirectory(e))
            },
        }
    }

    /// The caller at `run.position` called the instance on top.
    fn enter_callee(&mut self, run: RunOutcome) -> (r: Result<DriveStep, VmError>)
        requires
            run.position + 1 < old(self).stack@.len(),
            old(self).stack@[run.position as int] is Instance,
            old(self).stack@.last() is Instance,
        ensures
            enter_post(old(self).stack@, final(self).stack@, run, r),
            same_around_stack(*old(self), *final(self)),
    {
        let top: usize = self.stack.len() - 1;
        let entries = self.stack.entries_mut();
        match entries[run.position].as_instance_mut() {
            Some(caller) => {
                caller.regs = run.regs;
                caller.mem = run.mem;
            },
            None => {},
        }
        let mut state: (Regs, Mem, GasCounter) = (Regs::new(), Mem::new(), GasCounter::new(0));
        match entries[top].as_instance_mut() {
            Some(callee) => {
                state = take_state(callee);
            },
            None => {},
        }
        let program = match &entries[top] {
            Entry::Instance(e) => Arc::clone(&e.program),
            Entry::Reference(_) => {
                return Err(VmError::Invariant("callee is not an Instance"));
            },
        };
        Ok(
            DriveStep::Run(
                RunRequest {
                    position: top,
                    program,
                    regs: state.0,
                    mem: state.1,
                    gas: run.gas,
                    gas_initial: run.gas_initial,
                },
            ),
        )
    }

    /// The entry at `run.position` yielded.
    fn pause(&mut self, run: RunOutcome, routed: Option<CapHashOrRef>) -> (r: Result<
        DriveStep,
        VmError,
    >)
        requires
            run.position < old(self).stack@.len(),
            old(self).stack@[run.position as int] is Instance,
        ensures
            paused_post(old(self).stack@, final(self).stack@, run, routed, r),
            same_around_stack(*old(self), *final(self)),
    {
        let gas_used: u64 = run.gas_initial.saturating_sub(run.gas.remaining());
        let slot = SlotIdx::from_reg(run.regs.gpr[7]);
        let entries = self.stack.entries_mut();
        match entries[run.position].as_instance_mut() {
            Some(yielder) => {
                let marker_payload = match routed {
                    Some(m) => Some(m),
                    None => yielder.root_cnode.get(slot),
                };
                yielder.regs = run.regs;
                yielder.mem = run.mem;
                yielder.gas = run.gas;
                Ok(DriveStep::Done(CallResult::Paused { marker_payload, gas_used }))
            },
            None => Err(VmError::Invariant("yielder is not an Instance")),
        }
    }

    /// The callee on top replied: its caller runs on.
    fn return_to_caller(&mut self, run: RunOutcome) -> (r: Result<DriveStep, VmError>)
        requires
            old(self).stack@.len() >= 2,
        ensures
            return_post(old(self).stack@, final(self).stack@, run, r),
            same_around_stack(*old(self), *final(self)),
    {
        let slot0: Option<CapHashOrRef> = match self.stack.pop() {
            Some(Entry::Instance(callee)) => callee.root_cnode.get(SlotIdx(0)),
            _ => {
                return Err(VmError::Invariant("popped a non-Instance entry"));
            },
        };
        let top: usize = self.stack.len() - 1;
        if !self.stack.entries()[top].is_instance() {
            return Err(VmError::Invariant("caller is not an Instance"));
        }
        let entries = self.stack.entries_mut();
        match entries[top].as_instance_mut() {
            Some(caller) => {
                match caller.root_cnode.set(SlotIdx(0), slot0) {
                    Ok(()) => {},
                    Err(e) => {
                        return Err(VmError::CapTable(e));
                    },
                }
                let state = take_state(caller);
                let program = Arc::clone(&caller.program);
                Ok(
                    DriveStep::Run(
                        RunRequest {
                            position: top,
                            program,
                            regs: state.0,
                            mem: state.1,
                            gas: run.gas,
                            gas_initial: run.gas_initial,
                        },
                    ),
                )
            },
            None => Err(VmError::Invariant("caller is not an Instance")),
        }
    }

    /// The invocation ended with the entry on top.
    fn finish<H: Fn(&Cap) -> CapHash>(
        &mut self,
        cache: &mut CacheDirectory<H>,
        run: RunOutcome,
    ) -> (r: Result<DriveStep, VmError>)
        requires
            old(self).stack@.len() >= 1,
            old(cache).wf(),
        ensures
            final(cache).wf(),
            finish_post(old(self).stack@, final(self).stack@, run, old(cache), final(cache), r),
            same_around_stack(*old(self), *final(self)),
    {
        let gas_used: u64 = run.gas_initial.saturating_sub(run.gas.remaining());
        let ghost outcome = run;
        let RunOutcome { position: _, exit, regs, mem, gas, gas_initial: _ } = run;
        if let Some(top) = self.stack.running_instance_mut() {
            top.regs = regs;
            top.mem = mem;
            top.gas = gas;
        }
        assert(old(self).stack@.last() is Instance ==> self.stack@.drop_last()
            =~= old(self).stack@.drop_last());
        let mut entry: InstanceEntry = match self.stack.pop() {
            Some(Entry::Instance(e)) => *e,
            _ => {
                return Err(VmError::Invariant("popped a non-Instance entry"));
            },
        };
        let slot0: Option<CapHashOrRef> = match entry.root_cnode.take(SlotIdx(0)) {
            Ok(t) => t,
            Err(_) => None,
        };
        assert(is_left_by(entry, *old(self).stack@.last()->Instance_0, outcome));
        match exit {
            ExitReason::Halt => {
                let settled = Self::settle_post_instance(cache, &entry);
                assert(settle_post(entry, old(cache), cache, settled));
                match settled {
                    Err(e) => Err(e),
                    Ok(post_instance_hash) => Ok(
                        DriveStep::Done(
                            CallResult::Halt {
                                return_value: entry.regs.gpr[7],
                                post_instance_hash,
                                reflected_slot0: slot0,
                                gas_used,
                            },
                        ),
                    ),
                }
            },
            ExitReason::HostCall(_) | ExitReason::Ecall => Ok(
                DriveStep::Done(CallResult::Paused { marker_payload: slot0, gas_used }),
            ),
            _ => Ok(
                DriveStep::Done(
                    CallResult::Faulted { reason: exit, reflected_slot0: slot0, gas_used },
                ),
            ),
        }
    }

    /// Turn a finished run of the entry at `run.position` into what follows, in
    /// an invocation whose first entry is at `base`.
    pub fn drive_and_translate<H: Fn(&Cap) -> CapHash>(
        &mut self,
        cache: &mut CacheDirectory<H>,
        base: usize,
        run: RunOutcome,
    ) -> (r: Result<DriveStep, VmError>)
        requires
            base <= run.position < old(self).stack@.len(),
            old(cache).wf(),
        ensures
            final(cache).wf(),
            drive_post(
                old(self).stack@,
                old(self).stack.max_depth(),
                old(self).kernel_assist.assist(),
                final(self).stack@,
                base,
                run,
                old(cache),
                final(cache),
                r,
            ),
            same_around_stack(*old(self), *final(self)),
    {
        let position: usize = run.position;
        if !self.stack.entries()[position].is_instance() {
            return Err(VmError::Invariant("pushed_pos points at non-Instance"));
        }
        let taller: bool = self.stack.len() > position + 1;
        let instance_on_top: bool = match self.stack.running() {
            Some(e) => e.is_instance(),
            None => false,
        };
        if run.exit == ExitReason::HostCall(HOST_CALL) && taller && instance_on_top {
            return self.enter_callee(run);
        }
        let routed: Option<CapHashOrRef> = if run.exit == ExitReason::OutOfGas {
            self.reconcile_and_route_oog(position)
        } else {
            None
        };
        let yielded: bool = self.stack.len() > position + 1 && match self.stack.running() {
            Some(e) => !e.is_instance(),
            None => false,
        };
        if yielded {
            return self.pause(run, routed);
        }
        if run.exit == ExitReason::Halt && position > base {
            return self.return_to_caller(run);
        }
        self.finish(cache, run)
    }

    /// Resume after a yield: the reference on top leaves the stack, `scratchpad`
    /// goes into slot 0 of the instance that is now on top, and that instance is
    /// to run on from its saved state.
    pub fn call_resume(&mut self, scratchpad: Option<CapHashOrRef>) -> (r: Result<
        RunRequest,
        VmError,
    >)
        ensures
            resume_post(old(self).stack@, final(self).stack@, scratchpad, r),
            same_around_stack(*old(self), *final(self)),
    {
        match self.stack.running() {
            Some(Entry::Reference(_)) => {},
            _ => {
                return Err(VmError::Invariant("call_resume: top is not a ReferenceEntry"));
            },
        }
        let _ = self.stack.pop();
        let n: usize = self.stack.len();
        if n == 0 {
            return Err(VmError::CallStackEmpty);
        }
        let mut state: (Regs, Mem, GasCounter) = (Regs::new(), Mem::new(), GasCounter::new(0));
        match self.stack.running_instance_mut() {
            Some(inst) => {
                if let Some(target) = scratchpad {
                    match inst.root_cnode.set(SlotIdx(0), Some(target)) {
                        Ok(()) => {},
                        Err(e) => {
                            return Err(VmError::CapTable(e));
                        },
                    }
                }
                state = take_state(inst);
            },
            None => {
                return match scratchpad {
                    Some(_) => Err(VmError::Invariant("call_resume: no instance after pop")),
                    None => Err(VmError::Invariant("call_resume: no instance")),
                };
            },
        }
        let program = match &self.stack.entries()[n - 1] {
            Entry::Instance(e) => Arc::clone(&e.program),
            Entry::Reference(_) => {
                return Err(VmError::Invariant("pushed_pos points at non-Instance"));
            },
        };
        Ok(
            RunRequest {
                position: n - 1,
                program,
                regs: state.0,
                mem: state.1,
                gas: state.2,
                gas_initial: state.2.remaining(),
            },
        )
    }

    /// Dropping a paused invocation is not offered: always refused.
    pub fn drop_paused(&mut self, _target_slot: SlotPath) -> (r: Result<(), VmError>)
        ensures
            r == Err::<(), VmError>(
                VmError::Invariant("DROP_PAUSED requires \u{3c3}-resident Paused state (Stage 4)"),
            ),
            *final(self) == *old(self),
    {
        Err(VmError::Invariant("DROP_PAUSED requires \u{3c3}-resident Paused state (Stage 4)"))
    }
}

/// Resuming the yield on top of `s`.
pub open spec fn resume_post(
    s: Seq<Entry>,
    after: Seq<Entry>,
    scratchpad: Option<CapHashOrRef>,
    r: Result<RunRequest, VmError>,
) -> bool {
    let below = popped(s);
    if s.len() == 0 || !(s.last() is Reference) {
        &&& r == Err::<RunRequest, VmError>(
            VmError::Invariant("call_resume: top is not a ReferenceEntry"),
        )
        &&& after == s
    } else if below.len() == 0 {
        &&& r == Err::<RunRequest, VmError>(VmError::CallStackEmpty)
        &&& after == below
    } else {
        match running_position(below) {
            None => {
                &&& r == Err::<RunRequest, VmError>(
                    VmError::Invariant(
                        if scratchpad is Some {
                            "call_resume: no instance after pop"
                        } else {
                            "call_resume: no instance"
                        },
                    ),
                )
                &&& after == below
            },
            Some(p) => {
                let inst = *below[p]->Instance_0;
                let slots = inst.root_cnode.slots@;
                &&& after.len() == below.len()
                &&& forall|i: int| 0 <= i < below.len() && i != p ==> after[i] == below[i]
                &&& after[p] is Instance
                &&& {
                    let now = *after[p]->Instance_0;
                    if scratchpad is Some && slots.len() == 0 {
                        &&& now == (InstanceEntry { root_cnode: now.root_cnode, ..inst })
                        &&& now.root_cnode.slots@ == slots
                        &&& r == Err::<RunRequest, VmError>(
                            VmError::CapTable(CapError::SlotOutOfRange(0)),
                        )
                    } else {
                        &&& emptied(InstanceEntry { root_cnode: now.root_cnode, ..inst }, now)
                        &&& now.root_cnode.size_log == inst.root_cnode.size_log
                        &&& now.root_cnode.slots@ == (if scratchpad is Some {
                            slots_set(slots, SlotIdx(0), scratchpad)
                        } else {
                            slots
                        })
                        &&& if below.last() is Instance {
                            &&& r is Ok
                            &&& r->Ok_0.position == below.len() - 1
                            &&& r->Ok_0.program == inst.program
                            &&& r->Ok_0.regs == inst.regs
                            &&& r->Ok_0.mem == inst.mem
                            &&& r->Ok_0.gas == inst.gas
                            &&& r->Ok_0.gas_initial == inst.gas.left
                        } else {
                            r == Err::<RunRequest, VmError>(
                                VmError::Invariant("pushed_pos points at non-Instance"),
                            )
                        }
                    }
                }
            },
        }
    }
}

/// Whatever a run ended with, what follows keeps the stack invariant.
pub proof fn law_drive_keeps_invariant<H: Fn(&Cap) -> CapHash>(
    s: Seq<Entry>,
    max_depth: usize,
    assist: AssistView,
    after: Seq<Entry>,
    base: usize,
    run: RunOutcome,
    cache: &CacheDirectory<H>,
    cache_after: &CacheDirectory<H>,
    r: Result<DriveStep, VmError>,
)
    requires
        stack_invariant(s),
        base <= run.position < s.len(),
        drive_post(s, max_depth, assist, after, base, run, cache, cache_after, r),
    ensures
        stack_invariant(after),
{
    let p = run.position as int;
    let (routed_stack, routed) = if run.exit == ExitReason::OutOfGas {
        oog_route(s, max_depth, assist, p)
    } else {
        (s, None)
    };
    if s[p] is Instance {
        if run.exit == ExitReason::OutOfGas {
            lemma_route_keeps_invariant(s, max_depth, assist, p);
        }
        if run.exit == ExitReason::HostCall(HOST_CALL) && s.len() > p + 1 && s.last() is Instance {
            let top = s.len() - 1;
            let caller = *s[p]->Instance_0;
            let mid = with_instance(s, p, saved(caller, run.regs, run.mem, caller.gas));
            law_instance_update_keeps_invariant(
                s,
                p,
                saved(caller, run.regs, run.mem, caller.gas),
            );
            law_instance_update_keeps_invariant(mid, top, *after[top]->Instance_0);
            assert(after =~= with_instance(mid, top, *after[top]->Instance_0));
        } else if routed_stack.len() > p + 1 && routed_stack.last() is Reference {
            let e = *routed_stack[p]->Instance_0;
            law_instance_update_keeps_invariant(
                routed_stack,
                p,
                saved(e, run.regs, run.mem, run.gas),
            );
        } else if run.exit == ExitReason::Halt && p > base {
            lemma_pop_keeps_invariant(s);
            let below = popped(s);
            let top = below.len() - 1;
            if s.last() is Instance && below[top] is Instance {
                law_instance_update_keeps_invariant(below, top, *after[top]->Instance_0);
                assert(after =~= with_instance(below, top, *after[top]->Instance_0));
            }
        } else {
            lemma_pop_keeps_invariant(s);
        }
    }
}

proof fn lemma_route_keeps_invariant(
    s: Seq<Entry>,
    max_depth: usize,
    assist: AssistView,
    yielder: int,
)
    requires
        stack_invariant(s),
        0 <= yielder < s.len(),
    ensures
        stack_invariant(oog_route(s, max_depth, assist, yielder).0),
        forall|i: int|
            0 <= i < s.len() - 1 ==> oog_route(s, max_depth, assist, yielder).0[i] == s[i],
        s[yielder] is Instance ==> oog_route(s, max_depth, assist, yielder).0[yielder] is Instance,
{
    match topmost_catcher(s, assist, oog_marker(), yielder) {
        None => {},
        Some(p) => {
            if push_reference_check(s, max_depth, p) is Ok {
                lemma_push_keeps_invariant(s, pushed_reference(s, p).last());
            }
        },
    }
}

/// A yield saves the run's registers, memory and gas, and resuming it gives
/// exactly these back: the yielder runs on where it stopped.
pub proof fn law_resume_restores_yielder(
    s: Seq<Entry>,
    paused: Seq<Entry>,
    resumed: Seq<Entry>,
    run: RunOutcome,
    routed: Option<CapHashOrRef>,
    r: Result<DriveStep, VmError>,
    q: Result<RunRequest, VmError>,
)
    requires
        s.len() == run.position + 2,
        s[run.position as int] is Instance,
        s.last() is Reference,
        paused_post(s, paused, run, routed, r),
        resume_post(paused, resumed, None, q),
    ensures
        q is Ok,
        q->Ok_0.position == run.position,
        q->Ok_0.regs == run.regs,
        q->Ok_0.mem == run.mem,
        q->Ok_0.gas == run.gas,
        q->Ok_0.program == s[run.position as int]->Instance_0.program,
        resumed.len() == s.len() - 1,
{
    let p = run.position as int;
    assert(paused.drop_last().len() == p + 1);
    let below = popped(paused);
    assert(below.last() is Instance);
    assert(running_position(below) == Some(p));
}

/// A call saves the caller's registers and memory, and the callee's reply gives
/// exactly these back, with the gas that the callee left.
pub proof fn law_reply_resumes_caller(
    s: Seq<Entry>,
    during: Seq<Entry>,
    after: Seq<Entry>,
    call: RunOutcome,
    reply: RunOutcome,
    r: Result<DriveStep, VmError>,
    q: Result<DriveStep, VmError>,
)
    requires
        s.len() == call.position + 2,
        s[call.position as int] is Instance,
        s.last() is Instance,
        s[call.position as int]->Instance_0.root_cnode.slots@.len() > 0,
        enter_post(s, during, call, r),
        return_post(during, after, reply, q),
    ensures
        q matches Ok(DriveStep::Run(next)) && {
            &&& next.position == call.position
            &&& next.regs == call.regs
            &&& next.mem == call.mem
            &&& next.gas == reply.gas
        },
        after.len() == s.len() - 1,
{
    let below = popped(during);
    assert(during.drop_last().len() == call.position + 1);
    assert(below[call.position as int] is Instance);
}

/// Whether the program of `img` is cached under `hash` in `a`: the one that `b`
/// had, or a new one.
pub open spec fn program_cached(
    b: Map<CapHash, Arc<Program>>,
    a: Map<CapHash, Arc<Program>>,
    hash: CapHash,
    img: ImageCap,
) -> bool {
    if b.contains_key(hash) {
        a == b
    } else {
        &&& a.contains_key(hash)
        &&& a == b.insert(hash, a[hash])
        &&& a[hash].code@ == img.code@
        &&& a[hash].code_base == img.code_base
    }
}

proof fn lemma_overlays_check_fails(overlays: Seq<Overlay>, i: int, e: MapError)
    requires
        0 <= i < overlays.len(),
        overlays_check(overlays.take(i)) is Ok,
        overlay_check(overlays[i].start, overlays[i].bytes@) == Err::<(), MapError>(e),
    ensures
        overlays_check(overlays) == Err::<(), MapError>(e),
    decreases overlays.len(),
{
    if i == overlays.len() - 1 {
        assert(overlays.drop_last() =~= overlays.take(i));
    } else {
        assert(overlays.drop_last().take(i) =~= overlays.take(i));
        lemma_overlays_check_fails(overlays.drop_last(), i, e);
    }
}

} // verus!
