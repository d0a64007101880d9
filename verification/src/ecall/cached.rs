//! The environment calls that read and write the directory of published caps.
use vstd::prelude::*;

use crate::cache::{cap_at, CacheDirectory};
use crate::callstack::{pushed_instance, Entry, InstanceEntry};
use crate::cap::{
    copy_bytes, is_pinned_slot, slot_at, slot_check, slot_of_reg, slots_set, CNodeCap, Cap,
    CapHashOrRef, DataCap, DataContent, ImageCap, InstanceCap, MemoryMapping, Overlay, PageSlot,
    SlotCap, SlotIdx, TypeCap, NUM_REGS, PAGE_SIZE,
};
use crate::ecall::{
    answer_post, continue_or_trap, effect_post, exit_or_trap, extended_chain, host_op,
    host_yield_post, mgmt_cached_post, mgmt_op, op_of, place_post, running_pinned, running_slots,
    same_type_result, set_image_cached_post, slot_hash, slot_target, slots_now, table_result,
    with_r7, TableEffect,
};
use crate::error::{CacheError, CapError, OpError, VmError};
use crate::exec::{EcallKind, EcallResult, ExitReason, Regs};
use crate::hash::CapHash;
use crate::kernel_assist::{AssistView, KernelAssist};
use crate::mem::{page_round_up, page_round_up_u64, Access, Cell, Mem};
use crate::vm::{
    built_from, entry_check, mapping_end, mem_bytes, overlay_values, program_cached,
    resolved_instance, same_around_stack, same_vm, BuiltEntry, Vm,
};

verus! {

/// Putting the declared caps into slots, in order; with `only_empty`, only where
/// nothing is. The first slot that does not exist ends it.
pub open spec fn fill_slots(
    slots: Seq<Option<CapHashOrRef>>,
    entries: Seq<SlotCap>,
    only_empty: bool,
) -> TableEffect
    decreases entries.len(),
{
    if entries.len() == 0 {
        (slots, Ok(()))
    } else {
        let (filled, r) = fill_slots(slots, entries.drop_last(), only_empty);
        let e = entries.last();
        if r is Err {
            (filled, r)
        } else if only_empty && slot_at(filled, e.slot) is Some {
            (filled, Ok(()))
        } else {
            (
                slots_set(filled, e.slot, Some(CapHashOrRef::Hash(e.cap_hash))),
                table_result(slot_check(filled, e.slot)),
            )
        }
    }
}

proof fn lemma_fill_stops(
    slots: Seq<Option<CapHashOrRef>>,
    entries: Seq<SlotCap>,
    only_empty: bool,
    i: int,
)
    requires
        0 <= i <= entries.len(),
        fill_slots(slots, entries.take(i), only_empty).1 is Err,
    ensures
        fill_slots(slots, entries, only_empty) == fill_slots(slots, entries.take(i), only_empty),
    decreases entries.len(),
{
    if i == entries.len() {
        assert(entries.take(i) =~= entries);
    } else {
        assert(entries.drop_last().take(i) =~= entries.take(i));
        lemma_fill_stops(slots, entries.drop_last(), only_empty, i);
    }
}

fn fill(cnode: &mut CNodeCap, entries: &[SlotCap], only_empty: bool) -> (r: Result<(), VmError>)
    ensures
        (final(cnode).slots@, r) == fill_slots(old(cnode).slots@, entries@, only_empty),
        final(cnode).size_log == old(cnode).size_log,
{
    let ghost before = cnode.slots@;
    let mut i: usize = 0;
    while i < entries.len()
        invariant
            i <= entries@.len(),
            before == old(cnode).slots@,
            cnode.size_log == old(cnode).size_log,
            (cnode.slots@, Ok::<(), VmError>(())) == fill_slots(
                before,
                entries@.take(i as int),
                only_empty,
            ),
        decreases entries@.len() - i,
    {
        let e = entries[i];
        assert(entries@.take(i + 1).drop_last() =~= entries@.take(i as int));
        assert(entries@.take(i + 1).last() == e);
        let skip: bool = only_empty && cnode.get(e.slot).is_some();
        if !skip {
            match cnode.set(e.slot, Some(CapHashOrRef::Hash(e.cap_hash))) {
                Ok(()) => {},
                Err(err) => {
                    proof {
                        lemma_fill_stops(before, entries@, only_empty, i + 1);
                    }
                    return Err(VmError::CapTable(err));
                },
            }
        }
        i = i + 1;
    }
    assert(entries@.take(i as int) =~= entries@);
    Ok(())
}

/// The start of every mapping with its source slot, if it has one.
pub open spec fn mapping_sources(mappings: Seq<MemoryMapping>) -> Seq<(u32, Option<SlotIdx>)> {
    mappings.map_values(
        |m: MemoryMapping|
            (
                m.start as u32,
                if m.source_path@.len() == 0 {
                    None
                } else {
                    Some(m.source_path@[0])
                },
            ),
    )
}

/// What a spawned instance starts from: for every mapping with a source slot
/// that holds inline data, the data at the start of the mapping.
pub open spec fn spawn_overlays(
    blobs: Map<CapHash, Cap>,
    live: Map<u64, Cap>,
    slots: Seq<Option<CapHashOrRef>>,
    sources: Seq<(u32, Option<SlotIdx>)>,
) -> Seq<(u32, Seq<u8>)>
    decreases sources.len(),
{
    if sources.len() == 0 {
        Seq::empty()
    } else {
        let rest = spawn_overlays(blobs, live, slots, sources.drop_last());
        match source_bytes(blobs, live, slots, sources.last().1) {
            Some(bytes) => rest.push((sources.last().0, bytes)),
            None => rest,
        }
    }
}

/// The inline data in a source slot, if there is any.
pub open spec fn source_bytes(
    blobs: Map<CapHash, Cap>,
    live: Map<u64, Cap>,
    slots: Seq<Option<CapHashOrRef>>,
    source: Option<SlotIdx>,
) -> Option<Seq<u8>> {
    match source {
        None => None,
        Some(slot) => match slot_at(slots, slot) {
            None => None,
            Some(target) => match cap_at(blobs, live, target) {
                Some(Cap::Data(d)) => match d.content {
                    DataContent::Inline(v) => if v@.len() > 0 {
                        Some(v@)
                    } else {
                        None
                    },
                    DataContent::Paged { .. } => None,
                },
                _ => None,
            },
        },
    }
}

/// The highest end of a mapping.
pub open spec fn spawn_mem_size(mappings: Seq<MemoryMapping>) -> u32
    decreases mappings.len(),
{
    if mappings.len() == 0 {
        0
    } else {
        let rest = spawn_mem_size(mappings.drop_last());
        let end = mapping_end(mappings.last());
        if end > rest {
            end
        } else {
            rest
        }
    }
}

/// What a spawn is made of: the image hash, the image, and the size and slots of
/// the child's cnode.
pub type SpawnPlan = (CapHash, ImageCap, u8, Seq<Option<CapHashOrRef>>);

/// The plan of a spawn from the image slot in register 7 and the prepared cnode
/// slot in register 8: the prepared slots, the image's pinned caps over them,
/// and its initial caps where nothing is.
pub open spec fn spawn_plan<H: Fn(&Cap) -> CapHash>(
    s: Seq<Entry>,
    cache: &CacheDirectory<H>,
    regs: Regs,
) -> Result<SpawnPlan, VmError> {
    match slot_hash(s, slot_of_reg(regs.gpr@[7])) {
        Err(e) => Err(e),
        Ok(image) => match slot_hash(s, slot_of_reg(regs.gpr@[8])) {
            Err(e) => Err(e),
            Ok(prepared) => match cache.at(CapHashOrRef::Hash(image)) {
                Some(Cap::Image(img)) => match cache.at(CapHashOrRef::Hash(prepared)) {
                    None => Err(VmError::Invariant("derive_spawn: prepared cnode missing")),
                    Some(Cap::CNode(c)) => {
                        let (pinned, r) = fill_slots(c.slots@, img.pinned@, false);
                        match r {
                            Err(e) => Err(e),
                            Ok(()) => {
                                let (slots, r) = fill_slots(pinned, img.initial@, true);
                                match r {
                                    Err(e) => Err(e),
                                    Ok(()) => Ok((image, img, c.size_log, slots)),
                                }
                            },
                        }
                    },
                    Some(_) => Err(
                        VmError::Invariant("derive_spawn: cnode_slot does not hold Cap::CNode"),
                    ),
                },
                _ => Err(VmError::ImageNotFound),
            },
        },
    }
}

/// Whether `cn`, under `cn_hash`, and `inst`, under `inst_hash`, are the cnode
/// and the instance of a spawn, published in this order.
pub open spec fn spawned<H: Fn(&Cap) -> CapHash>(
    plan: SpawnPlan,
    chain: CapHash,
    cache: &CacheDirectory<H>,
    cache_after: &CacheDirectory<H>,
    cn: CNodeCap,
    cn_hash: CapHash,
    inst: InstanceCap,
    inst_hash: CapHash,
) -> bool {
    let (image, img, size_log, slots) = plan;
    let blobs = cache.blobs().insert(cn_hash, Cap::CNode(cn));
    &&& cn.size_log == size_log
    &&& cn.slots@ == slots
    &&& cache.addresses(Cap::CNode(cn), cn_hash)
    &&& inst.image_hash_chain == chain
    &&& inst.image_hash == image
    &&& inst.root_cnode == CapHashOrRef::Hash(cn_hash)
    &&& overlay_values(inst.rw_overlays@) == spawn_overlays(
        blobs,
        cache.live(),
        slots,
        mapping_sources(img.mappings@),
    )
    &&& inst.mem_size == spawn_mem_size(img.mappings@)
    &&& inst.regs@ == Seq::new(NUM_REGS as nat, |i: int| 0u64)
    &&& inst.pc == 0
    &&& inst.gas_remaining == 0
    &&& cache.addresses(Cap::Instance(inst), inst_hash)
    &&& cache_after.blobs() == blobs.insert(inst_hash, Cap::Instance(inst))
    &&& cache_after.live() == cache.live()
    &&& cache_after.hasher() == cache.hasher()
}

/// The prepared cnode is consumed and the new instance put into slot `dst`.
pub open spec fn spawn_effect(
    slots: Seq<Option<CapHashOrRef>>,
    pinned: Seq<SlotIdx>,
    cnode_slot: SlotIdx,
    dst: SlotIdx,
    target: CapHashOrRef,
) -> TableEffect {
    if pinned.contains(dst) {
        (slots, Err(VmError::Op(OpError::SlotPinned(dst.0))))
    } else {
        (
            slots_set(slots_set(slots, cnode_slot, None), dst, Some(target)),
            table_result(slot_check(slots, dst)),
        )
    }
}

/// Spawning with a directory: image slot in register 7, prepared cnode slot in
/// register 8, destination in register 9.
pub open spec fn derive_spawn_cached_post<K, H: Fn(&Cap) -> CapHash>(
    b: Vm<K>,
    a: Vm<K>,
    regs: Regs,
    cache: &CacheDirectory<H>,
    cache_after: &CacheDirectory<H>,
    r: Result<(), VmError>,
) -> bool {
    let s = b.stack@;
    &&& same_around_stack(b, a)
    &&& match spawn_plan(s, cache, regs) {
        Err(e) => r == Err::<(), VmError>(e) && a.stack@ == s && cache_after.same(cache),
        Ok(plan) => if exists|i: int|
            0 <= i < plan.3.len() && (#[trigger] plan.3[i] matches Some(CapHashOrRef::Ref(_))) {
            &&& r == Err::<(), VmError>(VmError::CacheDirectory(CacheError::HasRef))
            &&& a.stack@ == s
            &&& cache_after.same(cache)
        } else {
            exists|cn: CNodeCap, cn_hash: CapHash, inst: InstanceCap, inst_hash: CapHash|
                {
                    &&& #[trigger] spawned(
                        plan,
                        extended_chain(s, plan.0),
                        cache,
                        cache_after,
                        cn,
                        cn_hash,
                        inst,
                        inst_hash,
                    )
                    &&& effect_post(
                        s,
                        a.stack@,
                        spawn_effect(
                            running_slots(s),
                            running_pinned(s),
                            slot_of_reg(regs.gpr@[8]),
                            slot_of_reg(regs.gpr@[9]),
                            CapHashOrRef::Hash(inst_hash),
                        ),
                        r,
                    )
                }
        },
    }
}

/// Publishing the type of the instance in the slot that register 7 names, into
/// the slot that register 8 names.
pub open spec fn type_of_post<K, H: Fn(&Cap) -> CapHash>(
    b: Vm<K>,
    a: Vm<K>,
    regs: Regs,
    cache: &CacheDirectory<H>,
    cache_after: &CacheDirectory<H>,
    r: Result<(), VmError>,
) -> bool {
    let s = b.stack@;
    &&& same_around_stack(b, a)
    &&& match slot_target(s, slot_of_reg(regs.gpr@[7])) {
        Err(e) => r == Err::<(), VmError>(e) && a.stack@ == s && cache_after.same(cache),
        Ok(target) => match cache.at(target) {
            Some(Cap::Instance(i)) => {
                let cap = Cap::Type(TypeCap { image_hash_chain: i.image_hash_chain });
                exists|h: CapHash|
                    {
                        &&& #[trigger] cache.addresses(cap, h)
                        &&& cache_after.published(cache, cap, h)
                        &&& place_post(
                            s,
                            a.stack@,
                            slot_of_reg(regs.gpr@[8]),
                            CapHashOrRef::Hash(h),
                            r,
                        )
                    }
            },
            _ => {
                &&& r == Err::<(), VmError>(VmError::InstanceNotFound)
                &&& a.stack@ == s
                &&& cache_after.same(cache)
            },
        },
    }
}

/// The first bytes of a data cap: `len` of them, or all there are.
pub open spec fn prefix_of(bytes: Seq<u8>, len: u64) -> Seq<u8> {
    if len < bytes.len() {
        bytes.take(len as int)
    } else {
        bytes
    }
}

/// Whether `after` is `mem` with `bytes` written at `addr`.
pub open spec fn written(mem: Mem, after: Mem, addr: u32, bytes: Seq<u8>) -> bool {
    forall|x: int| #[trigger]
        after.cell(x) == if addr <= x < addr + bytes.len() {
            Some(Cell { access: Access::ReadWrite, byte: bytes[x - addr] })
        } else {
            mem.cell(x)
        }
}

/// Whether `after` maps what `mem` maps.
pub open spec fn same_mem(mem: Mem, after: Mem) -> bool {
    forall|x: int| #[trigger] after.cell(x) == mem.cell(x)
}

/// Reading data into memory: the data cap in the slot that register 7 names, to
/// the address in register 8, at most as many bytes as register 9 says; the
/// number of bytes goes into register 7.
pub open spec fn read_data_post<H: Fn(&Cap) -> CapHash>(
    s: Seq<Entry>,
    regs: Regs,
    regs_after: Regs,
    mem: Mem,
    mem_after: Mem,
    cache: &CacheDirectory<H>,
    r: Result<(), VmError>,
) -> bool {
    let refused = |e: VmError|
        r == Err::<(), VmError>(e) && regs_after == regs && same_mem(mem, mem_after);
    match slot_target(s, slot_of_reg(regs.gpr@[7])) {
        Err(e) => refused(e),
        Ok(target) => match cache.at(target) {
            None => refused(VmError::Invariant("data cap missing")),
            Some(Cap::Data(d)) => {
                let bytes = prefix_of(d.bytes(), regs.gpr@[9]);
                let addr = regs.gpr@[8] as u32;
                if mem.writable(addr as int, bytes.len()) {
                    &&& r == Ok::<(), VmError>(())
                    &&& with_r7(regs, regs_after, bytes.len() as u64)
                    &&& written(mem, mem_after, addr, bytes)
                } else {
                    refused(VmError::Invariant("host_read_data_cap memory write failed"))
                }
            },
            Some(_) => refused(VmError::Invariant("slot does not hold Cap::Data")),
        },
    }
}

/// `bytes` padded with zeros to whole pages.
pub open spec fn page_padded(bytes: Seq<u8>) -> Seq<u8> {
    Seq::new(
        page_round_up(bytes.len() as int) as nat,
        |i: int|
            if i < bytes.len() {
                bytes[i]
            } else {
                0
            },
    )
}

/// Making a data cap of memory: the bytes at the address in register 7, as many
/// as register 8 says, padded to whole pages, which are paid for from the quota
/// in register 9; the slot is in register 10.
pub open spec fn mint_data_post<K: KernelAssist, H: Fn(&Cap) -> CapHash>(
    b: Vm<K>,
    a: Vm<K>,
    regs: Regs,
    mem: Mem,
    cache: &CacheDirectory<H>,
    cache_after: &CacheDirectory<H>,
    r: Result<(), VmError>,
) -> bool {
    let s = b.stack@;
    let addr = regs.gpr@[7] as u32;
    let len = regs.gpr@[8];
    let quota_id = regs.gpr@[9];
    let quota = b.kernel_assist.assist().quota(quota_id);
    let content = page_padded(mem_bytes(mem, addr as int, len as nat));
    &&& a.stack.max_depth() == b.stack.max_depth()
    &&& a.image_cache@ == b.image_cache@
    &&& if !mem.readable(addr as int, len as nat) {
        &&& r == Err::<(), VmError>(VmError::Invariant("host_mint_data_cap memory read failed"))
        &&& same_vm(b, a)
        &&& cache_after.same(cache)
    } else if quota < content.len() {
        &&& r == Err::<(), VmError>(VmError::Invariant("storage quota exhausted"))
        &&& same_vm(b, a)
        &&& cache_after.same(cache)
    } else {
        &&& a.kernel_assist.assist() == b.kernel_assist.assist().with_quota(
            quota_id,
            (quota - content.len()) as u64,
        )
        &&& forall|id: u64| #[trigger] a.kernel_assist.file(id) == b.kernel_assist.file(id)
        &&& exists|d: DataCap, h: CapHash|
            {
                &&& d.content is Inline
                &&& d.bytes() == content
                &&& #[trigger] cache.addresses(Cap::Data(d), h)
                &&& cache_after.published(cache, Cap::Data(d), h)
                &&& place_post(s, a.stack@, slot_of_reg(regs.gpr@[10]), CapHashOrRef::Hash(h), r)
            }
    }
}

/// Putting the data behind a file, `data`, into the slot that register 8 names: the
/// stack, the directory and the answer.
pub open spec fn opened_post<H: Fn(&Cap) -> CapHash>(
    s: Seq<Entry>,
    after: Seq<Entry>,
    regs: Regs,
    data: Option<CapHashOrRef>,
    cache: &CacheDirectory<H>,
    cache_after: &CacheDirectory<H>,
    r: Result<(), VmError>,
) -> bool {
    let refused = |e: VmError|
        r == Err::<(), VmError>(e) && after == s && cache_after.same(cache);
    match data {
        None => refused(VmError::Invariant("unknown file id")),
        Some(target) => match cache.at(target) {
            None => refused(VmError::Invariant("file data missing")),
            Some(Cap::Data(d)) => match target {
                CapHashOrRef::Hash(h) => {
                    &&& cache_after.same(cache)
                    &&& place_post(s, after, slot_of_reg(regs.gpr@[8]), target, r)
                },
                CapHashOrRef::Ref(live) => exists|h: CapHash|
                    {
                        &&& #[trigger] cache.addresses(Cap::Data(d), h)
                        &&& cache_after.blobs() == cache.blobs().insert(h, Cap::Data(d))
                        &&& cache_after.live() == cache.live().remove(live.0)
                        &&& cache_after.hasher() == cache.hasher()
                        &&& place_post(
                            s,
                            after,
                            slot_of_reg(regs.gpr@[8]),
                            CapHashOrRef::Hash(h),
                            r,
                        )
                    },
            },
            Some(_) => refused(VmError::Invariant("file target is not Cap::Data")),
        },
    }
}

/// Putting the data behind a file, `data`, into the slot that register 8 names.
pub open spec fn open_post<K, H: Fn(&Cap) -> CapHash>(
    b: Vm<K>,
    a: Vm<K>,
    regs: Regs,
    data: Option<CapHashOrRef>,
    cache: &CacheDirectory<H>,
    cache_after: &CacheDirectory<H>,
    r: Result<(), VmError>,
) -> bool {
    &&& same_around_stack(b, a)
    &&& opened_post(b.stack@, a.stack@, regs, data, cache, cache_after, r)
}

/// The data cap in the slot that register 7 names, and its length.
pub open spec fn save_source<H: Fn(&Cap) -> CapHash>(
    s: Seq<Entry>,
    cache: &CacheDirectory<H>,
    regs: Regs,
) -> Result<(CapHashOrRef, u64), VmError> {
    match slot_target(s, slot_of_reg(regs.gpr@[7])) {
        Err(e) => Err(e),
        Ok(target) => match cache.at(target) {
            None => Err(VmError::Invariant("host_save data missing")),
            Some(Cap::Data(d)) => Ok((target, d.bytes().len() as u64)),
            Some(_) => Err(VmError::Invariant("host_save source is not Cap::Data")),
        },
    }
}

/// A file was asked for, of `size` bytes paid for from `quota_id`, and `file_id`
/// came back.
pub open spec fn saved_file(
    before: AssistView,
    after: AssistView,
    quota_id: u64,
    size: u64,
    file_id: Option<u64>,
) -> bool {
    match file_id {
        None => after == before,
        Some(_) => {
            &&& before.quota(quota_id) >= size
            &&& after == before.with_quota(quota_id, (before.quota(quota_id) - size) as u64)
        },
    }
}

/// What a request for a file is answered with.
pub open spec fn save_answer(file_id: Option<u64>) -> Result<u64, VmError> {
    match file_id {
        Some(id) => Ok(id),
        None => Err(VmError::Invariant("host_save failed")),
    }
}

/// A file of `target`, of `size` bytes, was asked for, paid for from the quota in
/// register 8: the kernel's answer went into register 7, and the file is there beside
/// those that were.
pub open spec fn save_outcome<K: KernelAssist>(
    before: K,
    after: K,
    target: CapHashOrRef,
    size: u64,
    regs: Regs,
    regs_after: Regs,
    r: Result<(), VmError>,
) -> bool {
    let file_id = before.id_for(target, regs.gpr@[8], size);
    &&& saved_file(before.assist(), after.assist(), regs.gpr@[8], size, file_id)
    &&& answer_post(regs, regs_after, save_answer(file_id), r)
    &&& forall|id: u64| #[trigger]
        after.file(id) == if file_id == Some(id) {
            Some(target)
        } else {
            before.file(id)
        }
}

/// Making a file of the data in the slot that register 7 names, paid for from
/// the quota in register 8; the id of the file goes into register 7.
pub open spec fn save_post<K: KernelAssist, H: Fn(&Cap) -> CapHash>(
    b: Vm<K>,
    a: Vm<K>,
    regs: Regs,
    regs_after: Regs,
    cache: &CacheDirectory<H>,
    r: Result<(), VmError>,
) -> bool {
    &&& a.stack == b.stack
    &&& a.image_cache == b.image_cache
    &&& match save_source(b.stack@, cache, regs) {
        Err(e) => {
            &&& r == Err::<(), VmError>(e)
            &&& regs_after == regs
            &&& a.kernel_assist == b.kernel_assist
        },
        Ok((target, size)) => save_outcome(
            b.kernel_assist,
            a.kernel_assist,
            target,
            size,
            regs,
            regs_after,
            r,
        ),
    }
}

/// Whether `child` is the entry of a call: the built entry with its registers
/// and memory, and the caller's slot 0 in its slot 0 if the caller's held
/// anything.
pub open spec fn callee_entry(
    child: InstanceEntry,
    built: BuiltEntry,
    scratch: Option<CapHashOrRef>,
) -> bool {
    &&& child == (InstanceEntry {
        root_cnode: child.root_cnode,
        regs: built.regs,
        mem: built.mem,
        ..built.entry
    })
    &&& child.root_cnode.size_log == built.entry.root_cnode.size_log
    &&& child.root_cnode.slots@ == (if scratch is Some {
        slots_set(built.entry.root_cnode.slots@, SlotIdx(0), scratch)
    } else {
        built.entry.root_cnode.slots@
    })
}

/// Calling the instance in the slot that register 7 names at the endpoint in
/// register 8. From the moment the instance is found, the caller's slot 0 is
/// empty.
pub open spec fn call_post<K, H: Fn(&Cap) -> CapHash>(
    b: Vm<K>,
    a: Vm<K>,
    regs: Regs,
    cache: &CacheDirectory<H>,
    r: Result<(), VmError>,
) -> bool {
    let s = b.stack@;
    let endpoint = slot_of_reg(regs.gpr@[8]).0 as u8;
    let scratch = slot_at(running_slots(s), SlotIdx(0));
    let moved = slots_set(running_slots(s), SlotIdx(0), None);
    let zeros = Seq::new(4, |i: int| 0u64);
    &&& a.stack.max_depth() == b.stack.max_depth()
    &&& a.kernel_assist == b.kernel_assist
    &&& match slot_target(s, slot_of_reg(regs.gpr@[7])) {
        Err(e) => r == Err::<(), VmError>(e) && same_vm(b, a),
        Ok(target) => if !(cache.at(target) matches Some(Cap::Instance(_))) {
            r == Err::<(), VmError>(VmError::InstanceNotFound) && same_vm(b, a)
        } else {
            match resolved_instance(cache, target) {
                Err(e) => {
                    &&& r == Err::<(), VmError>(e)
                    &&& slots_now(s, a.stack@, moved)
                    &&& a.image_cache@ == b.image_cache@
                },
                Ok((inst, img, cn)) => {
                    &&& program_cached(b.image_cache@, a.image_cache@, inst.image_hash, img)
                    &&& match entry_check(inst, img, endpoint) {
                        Err(e) => r == Err::<(), VmError>(e) && slots_now(s, a.stack@, moved),
                        Ok(()) => if scratch is Some && cn.slots@.len() == 0 {
                            &&& r == Err::<(), VmError>(
                                VmError::CapTable(CapError::SlotOutOfRange(0)),
                            )
                            &&& slots_now(s, a.stack@, moved)
                        } else if s.len() >= b.stack.max_depth() {
                            &&& r == Err::<(), VmError>(VmError::CallStackFull)
                            &&& slots_now(s, a.stack@, moved)
                        } else {
                            &&& r == Ok::<(), VmError>(())
                            &&& exists|mid: Seq<Entry>, built: BuiltEntry, child: InstanceEntry|
                                {
                                    &&& #[trigger] slots_now(s, mid, moved)
                                    &&& built_from(
                                        built,
                                        target,
                                        inst,
                                        img,
                                        cn,
                                        endpoint,
                                        zeros,
                                        0,
                                    )
                                    &&& built.entry.program == a.image_cache@[inst.image_hash]
                                    &&& #[trigger] callee_entry(child, built, scratch)
                                    &&& a.stack@ == pushed_instance(mid, child)
                                }
                        },
                    }
                },
            }
        },
    }
}

/// The first `len` bytes of a data cap, or all there are.
pub fn data_cap_prefix(data: &DataCap, len: u64) -> (out: Vec<u8>)
    requires
        data.wf(),
    ensures
        out@ == prefix_of(data.bytes(), len),
{
    let total: u64 = data.content_len();
    let actual: u64 = if len < total {
        len
    } else {
        total
    };
    let mut out: Vec<u8> = Vec::new();
    let mut i: u64 = 0;
    while i < actual
        invariant
            i <= actual <= data.bytes().len(),
            data.wf(),
            out@ == data.bytes().take(i as int),
        decreases actual - i,
    {
        let byte: u8 = match &data.content {
            DataContent::Inline(bytes) => {
                let count: usize = bytes.len();
                assert(i < count);
                bytes[i as usize]
            },
            DataContent::Paged { page_size, pages } => {
                let size: u64 = *page_size as u64;
                let count: usize = pages.len();
                proof {
                    lemma_page_in_range(i as int, size as int, count as int);
                }
                match &pages[(i / size) as usize] {
                    PageSlot::Loaded(page) => page[(i % size) as usize],
                    PageSlot::Missing => 0,
                }
            },
        };
        assert(byte == data.bytes()[i as int]);
        out.push(byte);
        i = i + 1;
    }
    assert(out@ =~= prefix_of(data.bytes(), len));
    out
}

proof fn lemma_page_in_range(i: int, size: int, count: int)
    requires
        0 <= i < size * count,
        size > 0,
        count >= 0,
    ensures
        0 <= i / size < count,
        0 <= i % size < size,
{
    assert(0 <= i / size < count) by (nonlinear_arith)
        requires
            0 <= i < size * count,
            size > 0,
    ;
    assert(0 <= i % size < size) by (nonlinear_arith)
        requires
            size > 0,
    ;
}

/// `bytes` with zeros appended up to whole pages.
fn pad_to_pages(bytes: Vec<u8>) -> (padded: Vec<u8>)
    requires
        bytes@.len() <= crate::mem::ADDRESS_LIMIT,
    ensures
        padded@ == page_padded(bytes@),
{
    let ghost content = bytes@;
    let mut padded = bytes;
    let target: u64 = page_round_up_u64(padded.len() as u64);
    let mut n: u64 = padded.len() as u64;
    while n < target
        invariant
            padded@.len() == n,
            content.len() <= n <= target,
            target == page_round_up(content.len() as int),
            forall|i: int|
                0 <= i < n ==> padded@[i] == if i < content.len() {
                    content[i]
                } else {
                    0
                },
        decreases target - n,
    {
        padded.push(0);
        n = n + 1;
    }
    assert(padded@ =~= page_padded(content));
    padded
}

impl<K: KernelAssist> Vm<K> {
    /// The mappings of an image: starts with source slots, and the highest end.
    fn spawn_sources(img: &ImageCap) -> (layout: (Vec<(u32, Option<SlotIdx>)>, u32))
        ensures
            layout.0@ == mapping_sources(img.mappings@),
            layout.1 == spawn_mem_size(img.mappings@),
    {
        let mut sources: Vec<(u32, Option<SlotIdx>)> = Vec::new();
        let mut mem_size: u32 = 0;
        let mut i: usize = 0;
        let ghost maps = img.mappings@;
        while i < img.mappings.len()
            invariant
                i <= maps.len(),
                maps == img.mappings@,
                mem_size == spawn_mem_size(maps.take(i as int)),
                sources@ == mapping_sources(maps.take(i as int)),
            decreases maps.len() - i,
        {
            let m = &img.mappings[i];
            assert(maps.take(i + 1).drop_last() =~= maps.take(i as int));
            assert(maps.take(i + 1).last() == *m);
            let end: u32 = m.start.wrapping_add(m.size) as u32;
            if end > mem_size {
                mem_size = end;
            }
            let source: Option<SlotIdx> = if m.source_path.len() > 0 {
                Some(m.source_path[0])
            } else {
                None
            };
            sources.push((m.start as u32, source));
            assert(sources@ =~= mapping_sources(maps.take(i + 1)));
            i = i + 1;
        }
        assert(maps.take(i as int) =~= maps);
        (sources, mem_size)
    }

    /// The overlays of a spawned instance.
    fn spawn_fill<H: Fn(&Cap) -> CapHash>(
        cache: &CacheDirectory<H>,
        cnode: &CNodeCap,
        sources: &[(u32, Option<SlotIdx>)],
    ) -> (overlays: Vec<Overlay>)
        ensures
            overlay_values(overlays@) == spawn_overlays(
                cache.blobs(),
                cache.live(),
                cnode.slots@,
                sources@,
            ),
    {
        let mut overlays: Vec<Overlay> = Vec::new();
        let mut i: usize = 0;
        assert(overlay_values(overlays@) =~= Seq::empty());
        while i < sources.len()
            invariant
                i <= sources@.len(),
                overlay_values(overlays@) == spawn_overlays(
                    cache.blobs(),
                    cache.live(),
                    cnode.slots@,
                    sources@.take(i as int),
                ),
            decreases sources@.len() - i,
        {
            let (start, source): (u32, Option<SlotIdx>) = sources[i];
            assert(sources@.take(i + 1).drop_last() =~= sources@.take(i as int));
            assert(sources@.take(i + 1).last() == sources@[i as int]);
            match source {
                Some(slot) => match cnode.get(slot) {
                    Some(target) => match cache.get(target) {
                        Some(Cap::Data(d)) => match &d.content {
                            DataContent::Inline(v) => {
                                if v.len() > 0 {
                                    let bytes = copy_bytes(v.as_slice());
                                    let o = Overlay { start, bytes };
                                    assert(overlay_values(overlays@.push(o)) =~= overlay_values(
                                        overlays@,
                                    ).push((start, v@)));
                                    overlays.push(o);
                                }
                            },
                            DataContent::Paged { .. } => {},
                        },
                        _ => {},
                    },
                    None => {},
                },
                None => {},
            }
            i = i + 1;
        }
        assert(sources@.take(i as int) =~= sources@);
        overlays
    }

    /// The cnode of a spawned instance: the prepared one with the image's caps.
    fn spawn_cnode<H: Fn(&Cap) -> CapHash>(
        cache: &CacheDirectory<H>,
        img: &ImageCap,
        prepared: CapHash,
    ) -> (r: Result<CNodeCap, VmError>)
        ensures
            match cache.at(CapHashOrRef::Hash(prepared)) {
                None => r == Err::<CNodeCap, VmError>(
                    VmError::Invariant("derive_spawn: prepared cnode missing"),
                ),
                Some(Cap::CNode(c)) => {
                    let (pinned, first) = fill_slots(c.slots@, img.pinned@, false);
                    let (slots, second) = fill_slots(pinned, img.initial@, true);
                    if first is Err {
                        r == Err::<CNodeCap, VmError>(first->Err_0)
                    } else if second is Err {
                        r == Err::<CNodeCap, VmError>(second->Err_0)
                    } else {
                        r is Ok && r->Ok_0.size_log == c.size_log && r->Ok_0.slots@ == slots
                    }
                },
                Some(_) => r == Err::<CNodeCap, VmError>(
                    VmError::Invariant("derive_spawn: cnode_slot does not hold Cap::CNode"),
                ),
            },
    {
        let mut child = match cache.get(CapHashOrRef::Hash(prepared)) {
            None => {
                return Err(VmError::Invariant("derive_spawn: prepared cnode missing"));
            },
            Some(Cap::CNode(c)) => c.duplicate(),
            Some(_) => {
                return Err(VmError::Invariant("derive_spawn: cnode_slot does not hold Cap::CNode"));
            },
        };
        match fill(&mut child, img.pinned.as_slice(), false) {
            Ok(()) => {},
            Err(e) => {
                return Err(e);
            },
        }
        match fill(&mut child, img.initial.as_slice(), true) {
            Ok(()) => {},
            Err(e) => {
                return Err(e);
            },
        }
        Ok(child)
    }

    /// Consume the prepared cnode slot and put the instance into slot `dst`.
    fn place_spawned(
        &mut self,
        cnode_slot: SlotIdx,
        dst: SlotIdx,
        target: CapHashOrRef,
    ) -> (r: Result<(), VmError>)
        requires
            slot_hash(old(self).stack@, cnode_slot) is Ok,
        ensures
            effect_post(
                old(self).stack@,
                final(self).stack@,
                spawn_effect(
                    running_slots(old(self).stack@),
                    running_pinned(old(self).stack@),
                    cnode_slot,
                    dst,
                    target,
                ),
                r,
            ),
            same_around_stack(*old(self), *final(self)),
    {
        match self.stack.running_instance_mut() {
            None => Err(VmError::CallStackEmpty),
            Some(running) => {
                if is_pinned_slot(running.pinned_slots.as_slice(), dst) {
                    return Err(VmError::Op(OpError::SlotPinned(dst.get())));
                }
                match running.root_cnode.take(cnode_slot) {
                    Ok(_) => {},
                    Err(e) => {
                        return Err(VmError::CapTable(e));
                    },
                }
                match running.root_cnode.set(dst, Some(target)) {
                    Ok(()) => Ok(()),
                    Err(e) => Err(VmError::CapTable(e)),
                }
            },
        }
    }

    /// Spawn an instance of the image in the slot that register 7 names.
    pub fn dispatch_derive_spawn_cached<H: Fn(&Cap) -> CapHash>(
        &mut self,
        regs: &Regs,
        cache: &mut CacheDirectory<H>,
    ) -> (r: Result<(), VmError>)
        requires
            old(cache).wf(),
        ensures
            final(cache).wf(),
            derive_spawn_cached_post(*old(self), *final(self), *regs, old(cache), final(cache), r),
    {
        let image_slot = SlotIdx::from_reg(regs.gpr[7]);
        let cnode_slot = SlotIdx::from_reg(regs.gpr[8]);
        let dst_slot = SlotIdx::from_reg(regs.gpr[9]);
        let image_hash = match self.running_slot_hash(image_slot) {
            Ok(h) => h,
            Err(e) => {
                return Err(e);
            },
        };
        let prepared = match self.running_slot_hash(cnode_slot) {
            Ok(h) => h,
            Err(e) => {
                return Err(e);
            },
        };
        let chain = match self.extend_chain(&image_hash) {
            Ok(c) => c,
            Err(e) => {
                return Err(e);
            },
        };
        let (child, sources, mem_size): (CNodeCap, Vec<(u32, Option<SlotIdx>)>, u32) =
            match cache.get(CapHashOrRef::Hash(image_hash)) {
            Some(Cap::Image(img)) => match Self::spawn_cnode(cache, img, prepared) {
                Ok(c) => {
                    let (sources, mem_size) = Self::spawn_sources(img);
                    (c, sources, mem_size)
                },
                Err(e) => {
                    return Err(e);
                },
            },
            _ => {
                return Err(VmError::ImageNotFound);
            },
        };
        let ghost plan = spawn_plan(old(self).stack@, old(cache), *regs)->Ok_0;
        let ghost cn = child;
        let cnode_hash = match cache.put_cap(Cap::CNode(child)) {
            Ok(h) => h,
            Err(e) => {
                return Err(VmError::CacheDirectory(e));
            },
        };
        assert(cache.blobs() == old(cache).blobs().insert(cnode_hash, Cap::CNode(cn)));
        let overlays: Vec<Overlay> = match cache.get(CapHashOrRef::Hash(cnode_hash)) {
            Some(Cap::CNode(c)) => Self::spawn_fill(cache, c, sources.as_slice()),
            _ => Vec::new(),
        };
        let inst = InstanceCap {
            image_hash_chain: chain,
            image_hash,
            root_cnode: CapHashOrRef::Hash(cnode_hash),
            rw_overlays: overlays,
            mem_size,
            regs: [0;NUM_REGS],
            pc: 0,
            gas_remaining: 0,
        };
        let ghost i = inst;
        assert(i.regs@ =~= Seq::new(NUM_REGS as nat, |j: int| 0u64));
        let inst_hash = match cache.put_cap(Cap::Instance(inst)) {
            Ok(h) => h,
            Err(e) => {
                assert(false);
                return Err(VmError::CacheDirectory(e));
            },
        };
        assert(spawned(
            plan,
            extended_chain(old(self).stack@, plan.0),
            old(cache),
            cache,
            cn,
            cnode_hash,
            i,
            inst_hash,
        ));
        self.place_spawned(cnode_slot, dst_slot, CapHashOrRef::Hash(inst_hash))
    }

    /// Publish the type of the instance in the slot that register 7 names.
    pub fn dispatch_host_type_of<H: Fn(&Cap) -> CapHash>(
        &mut self,
        regs: &Regs,
        cache: &mut CacheDirectory<H>,
    ) -> (r: Result<(), VmError>)
        requires
            old(cache).wf(),
        ensures
            final(cache).wf(),
            type_of_post(*old(self), *final(self), *regs, old(cache), final(cache), r),
    {
        let src = SlotIdx::from_reg(regs.gpr[7]);
        let dst = SlotIdx::from_reg(regs.gpr[8]);
        let target = match self.running_slot_target(src) {
            Ok(t) => t,
            Err(e) => {
                return Err(e);
            },
        };
        let image_hash_chain: CapHash = match cache.get(target) {
            Some(Cap::Instance(i)) => i.image_hash_chain,
            _ => {
                return Err(VmError::InstanceNotFound);
            },
        };
        let h = match cache.put_cap(Cap::Type(TypeCap { image_hash_chain })) {
            Ok(h) => h,
            Err(e) => {
                return Err(VmError::CacheDirectory(e));
            },
        };
        self.place(dst, CapHashOrRef::Hash(h))
    }

    /// Read the data in the slot that register 7 names into memory.
    pub fn dispatch_host_read_data_cap<H: Fn(&Cap) -> CapHash>(
        &self,
        regs: &mut Regs,
        mem: &mut Mem,
        cache: &CacheDirectory<H>,
    ) -> (r: Result<(), VmError>)
        requires
            cache.wf(),
        ensures
            read_data_post(
                self.stack@,
                *old(regs),
                *final(regs),
                *old(mem),
                *final(mem),
                cache,
                r,
            ),
    {
        let src = SlotIdx::from_reg(regs.gpr[7]);
        let dst_offset: u32 = regs.gpr[8] as u32;
        let len: u64 = regs.gpr[9];
        let target = match self.running_slot_target(src) {
            Ok(t) => t,
            Err(e) => {
                return Err(e);
            },
        };
        let bytes: Vec<u8> = match cache.get(target) {
            None => {
                return Err(VmError::Invariant("data cap missing"));
            },
            Some(Cap::Data(d)) => data_cap_prefix(d, len),
            Some(_) => {
                return Err(VmError::Invariant("slot does not hold Cap::Data"));
            },
        };
        match mem.write(dst_offset, bytes.as_slice()) {
            Ok(()) => {},
            Err(_) => {
                return Err(VmError::Invariant("host_read_data_cap memory write failed"));
            },
        }
        regs.gpr[7] = bytes.len() as u64;
        Ok(())
    }

    /// Make a data cap of memory.
    pub fn dispatch_host_mint_data_cap<H: Fn(&Cap) -> CapHash>(
        &mut self,
        regs: &Regs,
        mem: &Mem,
        cache: &mut CacheDirectory<H>,
    ) -> (r: Result<(), VmError>)
        requires
            old(cache).wf(),
        ensures
            final(cache).wf(),
            mint_data_post(*old(self), *final(self), *regs, *mem, old(cache), final(cache), r),
    {
        let src_offset: u32 = regs.gpr[7] as u32;
        let len: u64 = regs.gpr[8];
        let quota_id: u64 = regs.gpr[9];
        let dst = SlotIdx::from_reg(regs.gpr[10]);
        let bytes = match mem.read(src_offset, len) {
            Ok(b) => b,
            Err(_) => {
                return Err(VmError::Invariant("host_mint_data_cap memory read failed"));
            },
        };
        assert(bytes@ =~= mem_bytes(*mem, src_offset as int, len as nat));
        let inline = pad_to_pages(bytes);
        let debit: u64 = inline.len() as u64;
        let quota: u64 = self.kernel_assist.storage_quota_get(quota_id);
        if quota < debit {
            return Err(VmError::Invariant("storage quota exhausted"));
        }
        let _ = self.kernel_assist.storage_quota_set(quota_id, quota - debit);
        let data = DataCap { content: DataContent::Inline(inline) };
        let ghost d = data;
        let h = match cache.put_cap(Cap::Data(data)) {
            Ok(h) => h,
            Err(e) => {
                return Err(VmError::CacheDirectory(e));
            },
        };
        assert(old(cache).addresses(Cap::Data(d), h));
        self.place(dst, CapHashOrRef::Hash(h))
    }

    /// Put the data behind a file into the slot that register 8 names. `data` is
    /// what the file holds.
    pub fn place_opened<H: Fn(&Cap) -> CapHash>(
        &mut self,
        regs: &Regs,
        data: Option<CapHashOrRef>,
        cache: &mut CacheDirectory<H>,
    ) -> (r: Result<(), VmError>)
        requires
            old(cache).wf(),
        ensures
            final(cache).wf(),
            open_post(*old(self), *final(self), *regs, data, old(cache), final(cache), r),
    {
        let dst = SlotIdx::from_reg(regs.gpr[8]);
        let target = match data {
            Some(t) => t,
            None => {
                return Err(VmError::Invariant("unknown file id"));
            },
        };
        match cache.get(target) {
            None => {
                return Err(VmError::Invariant("file data missing"));
            },
            Some(Cap::Data(_)) => {},
            Some(_) => {
                return Err(VmError::Invariant("file target is not Cap::Data"));
            },
        }
        let h = match cache.settle(target) {
            Ok(h) => h,
            Err(e) => {
                return Err(VmError::CacheDirectory(e));
            },
        };
        self.place(dst, CapHashOrRef::Hash(h))
    }

    /// Put the data of the file in register 7 into the slot that register 8
    /// names.
    pub fn dispatch_host_open<H: Fn(&Cap) -> CapHash>(
        &mut self,
        regs: &Regs,
        cache: &mut CacheDirectory<H>,
    ) -> (r: Result<(), VmError>)
        requires
            old(cache).wf(),
        ensures
            final(cache).wf(),
            file_open_post(*old(self), *final(self), *regs, old(cache), final(cache), r),
    {
        let data = self.kernel_assist.host_open(regs.gpr[7]);
        self.place_opened(regs, data, cache)
    }

    /// Make a file of the data in the slot that register 7 names.
    pub fn dispatch_host_save<H: Fn(&Cap) -> CapHash>(
        &mut self,
        regs: &mut Regs,
        cache: &CacheDirectory<H>,
    ) -> (r: Result<(), VmError>)
        requires
            cache.wf(),
        ensures
            save_post(*old(self), *final(self), *old(regs), *final(regs), cache, r),
    {
        let src = SlotIdx::from_reg(regs.gpr[7]);
        let quota_id: u64 = regs.gpr[8];
        let target = match self.running_slot_target(src) {
            Ok(t) => t,
            Err(e) => {
                return Err(e);
            },
        };
        let size: u64 = match cache.get(target) {
            None => {
                return Err(VmError::Invariant("host_save data missing"));
            },
            Some(Cap::Data(d)) => d.content_len(),
            Some(_) => {
                return Err(VmError::Invariant("host_save source is not Cap::Data"));
            },
        };
        assert(save_source(self.stack@, cache, *regs) == Ok::<(CapHashOrRef, u64), VmError>(
            (target, size),
        ));
        let file_id: Option<u64> = self.kernel_assist.host_save(target, quota_id, size);
        assert(saved_file(
            old(self).kernel_assist.assist(),
            self.kernel_assist.assist(),
            quota_id,
            size,
            file_id,
        ));
        match file_id {
            Some(id) => {
                regs.gpr[7] = id;
                let r: Result<(), VmError> = Ok(());
                assert(answer_post(*old(regs), *regs, save_answer(file_id), r));
                r
            },
            None => {
                let r: Result<(), VmError> = Err(VmError::Invariant("host_save failed"));
                assert(answer_post(*old(regs), *regs, save_answer(file_id), r));
                r
            },
        }
    }

    /// Call the instance in the slot that register 7 names.
    pub fn dispatch_host_call_cached<H: Fn(&Cap) -> CapHash>(
        &mut self,
        regs: &Regs,
        cache: &CacheDirectory<H>,
    ) -> (r: Result<(), VmError>)
        ensures
            call_post(*old(self), *final(self), *regs, cache, r),
    {
        let inst_slot = SlotIdx::from_reg(regs.gpr[7]);
        let endpoint_idx: u8 = SlotIdx::from_reg(regs.gpr[8]).0 as u8;
        let target = match self.running_slot_target(inst_slot) {
            Ok(t) => t,
            Err(e) => {
                return Err(e);
            },
        };
        match cache.get(target) {
            Some(Cap::Instance(_)) => {},
            _ => {
                return Err(VmError::InstanceNotFound);
            },
        }
        let mut scratch: Option<CapHashOrRef> = None;
        match self.stack.running_instance_mut() {
            None => {
                return Err(VmError::CallStackEmpty);
            },
            Some(running) => {
                match running.root_cnode.take(SlotIdx(0)) {
                    Ok(t) => {
                        scratch = t;
                    },
                    Err(e) => {
                        assert(false);
                        return Err(VmError::CapTable(e));
                    },
                }
            },
        }
        let ghost mid = self.stack@;
        let ghost moved = slots_set(running_slots(old(self).stack@), SlotIdx(0), None);
        assert(slots_now(old(self).stack@, mid, moved));
        let args: [u64; 4] = [0, 0, 0, 0];
        assert(args@ =~= Seq::new(4, |i: int| 0u64));
        let built = match self.build_entry(cache, target, endpoint_idx, args, 0) {
            Ok(b) => b,
            Err(e) => {
                return Err(e);
            },
        };
        let ghost whole = built;
        let BuiltEntry { entry, mem, regs: child_regs, gas: _, gas_initial: _ } = built;
        let mut child = entry;
        if scratch.is_some() {
            match child.root_cnode.set(SlotIdx(0), scratch) {
                Ok(()) => {},
                Err(e) => {
                    return Err(VmError::CapTable(e));
                },
            }
        }
        child.regs = child_regs;
        child.mem = mem;
        assert(callee_entry(child, whole, scratch));
        match self.stack.push_instance(child) {
            Ok(()) => Ok(()),
            Err(e) => Err(e),
        }
    }

    fn exit_after(op: u32, r: Result<(), VmError>) -> (result: EcallResult)
        ensures
            result == exit_or_trap(op, r),
    {
        match r {
            Ok(()) => EcallResult::Exit(ExitReason::HostCall(op)),
            Err(_) => EcallResult::Exit(ExitReason::Trap),
        }
    }

    /// A host call with a directory.
    #[verifier::rlimit(40)]
    pub fn dispatch_host_call_with_cache<H: Fn(&Cap) -> CapHash>(
        &mut self,
        op: u32,
        regs: &mut Regs,
        mem: &mut Mem,
        cache: &mut CacheDirectory<H>,
    ) -> (result: EcallResult)
        requires
            old(cache).wf(),
        ensures
            final(cache).wf(),
            host_call_cached_post(
                *old(self),
                *final(self),
                op,
                *old(regs),
                *final(regs),
                *old(mem),
                *final(mem),
                old(cache),
                final(cache),
                result,
            ),
    {
        if op == host_op::HOST_YIELD {
            let r = self.dispatch_host_yield(regs);
            assert(host_yield_post(*old(self), *self, *regs, r));
            match r {
                Ok(x) => x,
                Err(_) => EcallResult::Exit(ExitReason::Trap),
            }
        } else if op == host_op::SET_IMAGE {
            let r = self.dispatch_set_image_cached(regs, cache);
            assert(set_image_cached_post(*old(self), *self, *regs, old(cache), r));
            Self::exit_after(op, r)
        } else if op == host_op::DERIVE_SPAWN {
            let r = self.dispatch_derive_spawn_cached(regs, cache);
            assert(derive_spawn_cached_post(*old(self), *self, *regs, old(cache), cache, r));
            Self::continue_after(r)
        } else if op == host_op::MAKE_IMAGE {
            EcallResult::Exit(ExitReason::Trap)
        } else if op == host_op::HOST_SAME_TYPE {
            let r = self.dispatch_host_same_type(regs);
            assert(answer_post(*old(regs), *regs, same_type_result(self.stack@, *old(regs)), r));
            Self::continue_after(r)
        } else if op == host_op::HOST_TYPE_OF {
            let r = self.dispatch_host_type_of(regs, cache);
            assert(type_of_post(*old(self), *self, *regs, old(cache), cache, r));
            Self::continue_after(r)
        } else if op == host_op::HOST_READ_DATA_CAP {
            let r = self.dispatch_host_read_data_cap(regs, mem, cache);
            assert(read_data_post(self.stack@, *old(regs), *regs, *old(mem), *mem, old(cache), r));
            Self::continue_after(r)
        } else if op == host_op::HOST_MINT_DATA_CAP {
            let r = self.dispatch_host_mint_data_cap(regs, mem, cache);
            assert(mint_data_post(*old(self), *self, *regs, *mem, old(cache), cache, r));
            Self::continue_after(r)
        } else if op == host_op::HOST_OPEN {
            let r = self.dispatch_host_open(regs, cache);
            assert(file_open_post(*old(self), *self, *regs, old(cache), cache, r));
            Self::continue_after(r)
        } else if op == host_op::HOST_SAVE {
            let r = self.dispatch_host_save(regs, cache);
            assert(save_post(*old(self), *self, *old(regs), *regs, old(cache), r));
            Self::continue_after(r)
        } else if op == host_op::HOST_CALL {
            let r = self.dispatch_host_call_cached(regs, cache);
            assert(call_post(*old(self), *self, *regs, old(cache), r));
            Self::exit_after(op, r)
        } else {
            EcallResult::Continue
        }
    }

    /// An environment call with operation code `op`, with a directory.
    pub fn dispatch_ecalli_cached<H: Fn(&Cap) -> CapHash>(
        &mut self,
        op: u32,
        regs: &mut Regs,
        mem: &mut Mem,
        cache: &mut CacheDirectory<H>,
    ) -> (result: EcallResult)
        requires
            old(cache).wf(),
        ensures
            final(cache).wf(),
            ecalli_cached_post(
                *old(self),
                *final(self),
                op,
                *old(regs),
                *final(regs),
                *old(mem),
                *final(mem),
                old(cache),
                final(cache),
                result,
            ),
    {
        if op == 0 {
            EcallResult::Exit(ExitReason::Halt)
        } else if op <= mgmt_op::MAX {
            let r = self.dispatch_mgmt_cached(op, regs, cache);
            assert(mgmt_cached_post(*old(self), *self, op, *regs, old(cache), cache, r));
            Self::continue_after(r)
        } else if op <= host_op::MAX {
            self.dispatch_host_call_with_cache(op, regs, mem, cache)
        } else {
            EcallResult::Continue
        }
    }

    /// Handle an environment call with a directory.
    pub fn handle_cached<H: Fn(&Cap) -> CapHash>(
        &mut self,
        kind: EcallKind,
        regs: &mut Regs,
        mem: &mut Mem,
        cache: &mut CacheDirectory<H>,
    ) -> (result: EcallResult)
        requires
            old(cache).wf(),
        ensures
            final(cache).wf(),
            ecalli_cached_post(
                *old(self),
                *final(self),
                op_of(kind, *old(regs)),
                *old(regs),
                *final(regs),
                *old(mem),
                *final(mem),
                old(cache),
                final(cache),
                result,
            ),
    {
        let op: u32 = match kind {
            EcallKind::Ecalli(op) => op,
            EcallKind::Ecall => regs.gpr[11] as u32,
        };
        self.dispatch_ecalli_cached(op, regs, mem, cache)
    }
}

/// Opening a file: what the kernel has for the id in register 7 goes where `opened_post`
/// says, and meters, quotas, catchers and files stay.
pub open spec fn file_open_post<K: KernelAssist, H: Fn(&Cap) -> CapHash>(
    b: Vm<K>,
    a: Vm<K>,
    regs: Regs,
    cache: &CacheDirectory<H>,
    cache_after: &CacheDirectory<H>,
    r: Result<(), VmError>,
) -> bool {
    &&& a.image_cache@ == b.image_cache@
    &&& a.stack.max_depth() == b.stack.max_depth()
    &&& a.kernel_assist.assist() == b.kernel_assist.assist()
    &&& forall|id: u64| #[trigger] a.kernel_assist.file(id) == b.kernel_assist.file(id)
    &&& opened_post(
        b.stack@,
        a.stack@,
        regs,
        b.kernel_assist.file(regs.gpr@[7]),
        cache,
        cache_after,
        r,
    )
}

/// A host call with a directory.
pub open spec fn host_call_cached_post<K: KernelAssist, H: Fn(&Cap) -> CapHash>(
    b: Vm<K>,
    a: Vm<K>,
    op: u32,
    regs: Regs,
    regs_after: Regs,
    mem: Mem,
    mem_after: Mem,
    cache: &CacheDirectory<H>,
    cache_after: &CacheDirectory<H>,
    result: EcallResult,
) -> bool {
    &&& op != host_op::HOST_READ_DATA_CAP ==> mem_after == mem
    &&& (op != host_op::HOST_SAME_TYPE && op != host_op::HOST_READ_DATA_CAP && op
        != host_op::HOST_SAVE) ==> regs_after == regs
    &&& (op != host_op::DERIVE_SPAWN && op != host_op::HOST_TYPE_OF && op
        != host_op::HOST_MINT_DATA_CAP && op != host_op::HOST_OPEN) ==> cache_after.same(cache)
    &&& if op == host_op::HOST_YIELD {
        exists|r: Result<EcallResult, VmError>|
            {
                &&& #[trigger] host_yield_post(b, a, regs, r)
                &&& result == (match r {
                    Ok(x) => x,
                    Err(_) => EcallResult::Exit(ExitReason::Trap),
                })
            }
    } else if op == host_op::SET_IMAGE {
        exists|r: Result<(), VmError>| #[trigger]
            set_image_cached_post(b, a, regs, cache, r) && result == exit_or_trap(op, r)
    } else if op == host_op::DERIVE_SPAWN {
        exists|r: Result<(), VmError>| #[trigger]
            derive_spawn_cached_post(b, a, regs, cache, cache_after, r) && result
                == continue_or_trap(r)
    } else if op == host_op::MAKE_IMAGE {
        same_vm(b, a) && result == EcallResult::Exit(ExitReason::Trap)
    } else if op == host_op::HOST_SAME_TYPE {
        &&& same_vm(b, a)
        &&& exists|r: Result<(), VmError>| #[trigger]
            answer_post(regs, regs_after, same_type_result(b.stack@, regs), r) && result
                == continue_or_trap(r)
    } else if op == host_op::HOST_TYPE_OF {
        exists|r: Result<(), VmError>| #[trigger]
            type_of_post(b, a, regs, cache, cache_after, r) && result == continue_or_trap(r)
    } else if op == host_op::HOST_READ_DATA_CAP {
        &&& same_vm(b, a)
        &&& exists|r: Result<(), VmError>| #[trigger]
            read_data_post(b.stack@, regs, regs_after, mem, mem_after, cache, r) && result
                == continue_or_trap(r)
    } else if op == host_op::HOST_MINT_DATA_CAP {
        exists|r: Result<(), VmError>| #[trigger]
            mint_data_post(b, a, regs, mem, cache, cache_after, r) && result == continue_or_trap(r)
    } else if op == host_op::HOST_OPEN {
        exists|r: Result<(), VmError>| #[trigger]
            file_open_post(b, a, regs, cache, cache_after, r) && result == continue_or_trap(r)
    } else if op == host_op::HOST_SAVE {
        exists|r: Result<(), VmError>| #[trigger]
            save_post(b, a, regs, regs_after, cache, r) && result == continue_or_trap(r)
    } else if op == host_op::HOST_CALL {
        exists|r: Result<(), VmError>| #[trigger]
            call_post(b, a, regs, cache, r) && result == exit_or_trap(op, r)
    } else {
        same_vm(b, a) && result == EcallResult::Continue
    }
}

/// An environment call with a directory.
pub open spec fn ecalli_cached_post<K: KernelAssist, H: Fn(&Cap) -> CapHash>(
    b: Vm<K>,
    a: Vm<K>,
    op: u32,
    regs: Regs,
    regs_after: Regs,
    mem: Mem,
    mem_after: Mem,
    cache: &CacheDirectory<H>,
    cache_after: &CacheDirectory<H>,
    result: EcallResult,
) -> bool {
    if op == 0 {
        &&& same_vm(b, a)
        &&& regs_after == regs
        &&& mem_after == mem
        &&& cache_after.same(cache)
        &&& result == EcallResult::Exit(ExitReason::Halt)
    } else if op <= mgmt_op::MAX {
        &&& regs_after == regs
        &&& mem_after == mem
        &&& exists|r: Result<(), VmError>| #[trigger]
            mgmt_cached_post(b, a, op, regs, cache, cache_after, r) && result
                == continue_or_trap(r)
    } else if op <= host_op::MAX {
        host_call_cached_post(
            b,
            a,
            op,
            regs,
            regs_after,
            mem,
            mem_after,
            cache,
            cache_after,
            result,
        )
    } else {
        &&& same_vm(b, a)
        &&& regs_after == regs
        &&& mem_after == mem
        &&& cache_after.same(cache)
        &&& result == EcallResult::Continue
    }
}

/// A file that was saved opens as what was saved: under the id that the save answered,
/// opening puts the data that was in the saved slot into the slot that it names.
pub proof fn law_saved_file_opens<K: KernelAssist, H: Fn(&Cap) -> CapHash>(
    before: Vm<K>,
    saved: Vm<K>,
    opened: Vm<K>,
    regs: Regs,
    regs_saved: Regs,
    open_regs: Regs,
    cache: &CacheDirectory<H>,
    cache_after: &CacheDirectory<H>,
    r: Result<(), VmError>,
)
    requires
        save_post(before, saved, regs, regs_saved, cache, Ok(())),
        open_regs.gpr@[7] == regs_saved.gpr@[7],
        file_open_post(saved, opened, open_regs, cache, cache_after, r),
    ensures
        save_source(before.stack@, cache, regs) is Ok,
        ({
            let target = save_source(before.stack@, cache, regs)->Ok_0.0;
            &&& slot_target(before.stack@, slot_of_reg(regs.gpr@[7])) == Ok::<
                CapHashOrRef,
                VmError,
            >(target)
            &&& opened_post(
                saved.stack@,
                opened.stack@,
                open_regs,
                Some(target),
                cache,
                cache_after,
                r,
            )
            &&& target is Hash ==> cache_after.same(cache) && place_post(
                saved.stack@,
                opened.stack@,
                slot_of_reg(open_regs.gpr@[8]),
                target,
                r,
            )
        }),
{
}

/// Reading as many bytes of a minted data cap as went into it gives these bytes.
pub proof fn law_minted_data_reads_back(bytes: Seq<u8>)
    requires
        bytes.len() <= u64::MAX,
    ensures
        prefix_of(page_padded(bytes), bytes.len() as u64) == bytes,
        page_padded(bytes).len() % PAGE_SIZE as nat == 0,
{
    assert(prefix_of(page_padded(bytes), bytes.len() as u64) =~= bytes);
}

} // verus!
