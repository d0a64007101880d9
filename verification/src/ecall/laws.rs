//! What a program can count on from its environment calls.
use vstd::prelude::*;

use crate::cache::CacheDirectory;
use crate::callstack::{Entry, EntryStatus, InstanceEntry};
use crate::cap::{
    CNodeCap, Cap, CapHashOrRef, DataCap, ImageCap, InstanceCap, MemoryMapping, Overlay, SlotCap,
    SlotIdx, NUM_REGS,
};
use crate::ecall::cached::{
    call_post, derive_spawn_cached_post, fill_slots, mapping_sources, mint_data_post,
    read_data_post, source_bytes, spawn_mem_size, spawn_overlays, spawned, type_of_post,
};
use crate::ecall::{
    answer_post, effect_post, mgmt_op, mgmt_post, place_post, same_type_result,
    set_image_cached_post, set_image_post,
};
use crate::error::VmError;
use crate::exec::{EcallResult, ExitReason, Regs};
use crate::hash::{blake2b256, hash_of_bytes, CapHash};
use crate::kernel_assist::KernelAssist;
use crate::mem::{page_round_up, Access, Cell, Mem};
use crate::vm::{entry_cell, overlay_cells, overlay_values, BuiltEntry, Vm};

verus! {

/// Whether the entry at `p` is the one that runs: the top, or the one that the
/// reference on top stands for.
pub open spec fn runs(s: Seq<Entry>, p: int) -> bool {
    &&& 0 <= p < s.len()
    &&& s[p] is Instance
    &&& match s.last() {
        Entry::Instance(_) => p == s.len() - 1,
        Entry::Reference(r) => r.target_position == p,
    }
}

/// The cap table of the entry at `p`.
pub open spec fn table(s: Seq<Entry>, p: int) -> Seq<Option<CapHashOrRef>> {
    s[p]->Instance_0.root_cnode.slots@
}

/// The slots that the image of the entry at `p` pins.
pub open spec fn pins(s: Seq<Entry>, p: int) -> Seq<SlotIdx> {
    s[p]->Instance_0.pinned_slots@
}

/// The slot that a register names.
pub open spec fn named(reg: u64) -> int {
    (reg % 256) as int
}

/// Whether the slot that a register names is pinned.
pub open spec fn is_pinned(s: Seq<Entry>, p: int, slot: int) -> bool {
    exists|i: int| 0 <= i < pins(s, p).len() && (#[trigger] pins(s, p)[i]).0 == slot
}

/// Whether `after` is `s` but for the slots of the entry at `p`.
pub open spec fn only_table(s: Seq<Entry>, after: Seq<Entry>, p: int) -> bool {
    &&& after.len() == s.len()
    &&& forall|q: int| 0 <= q < s.len() && q != p ==> #[trigger] after[q] == s[q]
    &&& after[p] is Instance
    &&& table(after, p).len() == table(s, p).len()
    &&& *after[p]->Instance_0 == (InstanceEntry {
        root_cnode: after[p]->Instance_0.root_cnode,
        ..*s[p]->Instance_0
    })
}

/// Whether the tables agree but in the slots `x` and `y`.
pub open spec fn same_but(s: Seq<Entry>, after: Seq<Entry>, p: int, x: int, y: int) -> bool {
    forall|k: int|
        0 <= k < table(s, p).len() && k != x && k != y ==> #[trigger] table(after, p)[k] == table(
            s,
            p,
        )[k]
}

proof fn lemma_named(reg: u64)
    ensures
        crate::cap::slot_of_reg(reg).0 == named(reg),
        0 <= named(reg) < 256,
{
    assert((reg & 0xFF) == reg % 256) by (bit_vector);
    assert((reg & 0xFF) <= 0xFF) by (bit_vector);
    assert((reg & 0xFF) as u32 == reg % 256);
}

proof fn lemma_runs(s: Seq<Entry>, p: int)
    requires
        runs(s, p),
    ensures
        crate::callstack::running_position(s) == Some(p),
        crate::callstack::running_entry(s) == Some(*s[p]->Instance_0),
        crate::ecall::running_slots(s) == table(s, p),
        crate::ecall::running_pinned(s) == pins(s, p),
{
}

proof fn lemma_pinned(s: Seq<Entry>, p: int, slot: SlotIdx)
    ensures
        pins(s, p).contains(slot) <==> is_pinned(s, p, slot.0 as int),
{
    if pins(s, p).contains(slot) {
        let i = choose|i: int| 0 <= i < pins(s, p).len() && pins(s, p)[i] == slot;
        assert(pins(s, p)[i].0 == slot.0);
    }
    if is_pinned(s, p, slot.0 as int) {
        let i = choose|i: int|
            0 <= i < pins(s, p).len() && (#[trigger] pins(s, p)[i]).0 == slot.0;
        assert(pins(s, p)[i] == slot);
    }
}

/// A copy that succeeds puts what the first slot holds into the second and changes
/// no other slot; it is refused where the second slot is pinned or does not exist,
/// or where the first is empty, and then changes nothing.
pub proof fn law_copy<K, H: Fn(&Cap) -> CapHash>(
    b: Vm<K>,
    a: Vm<K>,
    regs: Regs,
    content_hash: H,
    r: Result<(), VmError>,
    p: int,
)
    requires
        mgmt_post(b, a, mgmt_op::COPY, regs, content_hash, r),
        runs(b.stack@, p),
    ensures
        ({
            let x = named(regs.gpr@[7]);
            let y = named(regs.gpr@[8]);
            let t = table(b.stack@, p);
            &&& only_table(b.stack@, a.stack@, p)
            &&& r is Ok <==> !is_pinned(b.stack@, p, y) && x < t.len() && t[x] is Some && y
                < t.len()
            &&& r is Ok ==> table(a.stack@, p)[y] == t[x] && same_but(b.stack@, a.stack@, p, y, y)
            &&& r is Err ==> table(a.stack@, p) == t
        }),
{
    lemma_named(regs.gpr@[7]);
    lemma_named(regs.gpr@[8]);
    lemma_runs(b.stack@, p);
    lemma_pinned(b.stack@, p, crate::cap::slot_of_reg(regs.gpr@[8]));
}

/// A move that succeeds empties the first slot and puts what it held into the
/// second; no other slot changes.
pub proof fn law_move<K, H: Fn(&Cap) -> CapHash>(
    b: Vm<K>,
    a: Vm<K>,
    regs: Regs,
    content_hash: H,
    r: Result<(), VmError>,
    p: int,
)
    requires
        mgmt_post(b, a, mgmt_op::MOVE, regs, content_hash, r),
        runs(b.stack@, p),
    ensures
        ({
            let x = named(regs.gpr@[7]);
            let y = named(regs.gpr@[8]);
            let t = table(b.stack@, p);
            &&& only_table(b.stack@, a.stack@, p)
            &&& r is Ok <==> !is_pinned(b.stack@, p, x) && !is_pinned(b.stack@, p, y) && x
                < t.len() && t[x] is Some && y < t.len()
            &&& r is Ok ==> table(a.stack@, p)[y] == t[x] && (x != y ==> table(a.stack@, p)[x] is None)
                && same_but(b.stack@, a.stack@, p, x, y)
            &&& r is Err && y < t.len() ==> table(a.stack@, p) == t
        }),
{
    lemma_named(regs.gpr@[7]);
    lemma_named(regs.gpr@[8]);
    lemma_runs(b.stack@, p);
    lemma_pinned(b.stack@, p, crate::cap::slot_of_reg(regs.gpr@[7]));
    lemma_pinned(b.stack@, p, crate::cap::slot_of_reg(regs.gpr@[8]));
}

/// A drop that succeeds empties its slot and changes no other.
pub proof fn law_drop<K, H: Fn(&Cap) -> CapHash>(
    b: Vm<K>,
    a: Vm<K>,
    regs: Regs,
    content_hash: H,
    r: Result<(), VmError>,
    p: int,
)
    requires
        mgmt_post(b, a, mgmt_op::DROP, regs, content_hash, r),
        runs(b.stack@, p),
    ensures
        ({
            let x = named(regs.gpr@[7]);
            let t = table(b.stack@, p);
            &&& only_table(b.stack@, a.stack@, p)
            &&& r is Ok <==> !is_pinned(b.stack@, p, x) && x < t.len()
            &&& r is Ok ==> table(a.stack@, p)[x] is None && same_but(b.stack@, a.stack@, p, x, x)
            &&& r is Err ==> table(a.stack@, p) == t
        }),
{
    lemma_named(regs.gpr@[7]);
    lemma_runs(b.stack@, p);
    lemma_pinned(b.stack@, p, crate::cap::slot_of_reg(regs.gpr@[7]));
}

/// A swap that succeeds exchanges what its slots hold and changes no other.
pub proof fn law_swap<K, H: Fn(&Cap) -> CapHash>(
    b: Vm<K>,
    a: Vm<K>,
    regs: Regs,
    content_hash: H,
    r: Result<(), VmError>,
    p: int,
)
    requires
        mgmt_post(b, a, mgmt_op::CNODE_SWAP, regs, content_hash, r),
        runs(b.stack@, p),
    ensures
        ({
            let x = named(regs.gpr@[7]);
            let y = named(regs.gpr@[8]);
            let t = table(b.stack@, p);
            &&& only_table(b.stack@, a.stack@, p)
            &&& r is Ok <==> !is_pinned(b.stack@, p, x) && !is_pinned(b.stack@, p, y) && x
                < t.len() && y < t.len()
            &&& r is Ok ==> table(a.stack@, p)[y] == t[x] && table(a.stack@, p)[x] == t[y]
                && same_but(b.stack@, a.stack@, p, x, y)
            &&& r is Err && y < t.len() ==> table(a.stack@, p) == t
        }),
{
    lemma_named(regs.gpr@[7]);
    lemma_named(regs.gpr@[8]);
    lemma_runs(b.stack@, p);
    lemma_pinned(b.stack@, p, crate::cap::slot_of_reg(regs.gpr@[7]));
    lemma_pinned(b.stack@, p, crate::cap::slot_of_reg(regs.gpr@[8]));
}

/// Whether an operation put `target` into `slot` of the running entry, which it does
/// exactly where the slot exists and is not pinned.
pub open spec fn placed_at(
    s: Seq<Entry>,
    after: Seq<Entry>,
    p: int,
    slot: int,
    target: CapHashOrRef,
    r: Result<(), VmError>,
) -> bool {
    &&& only_table(s, after, p)
    &&& r is Ok <==> !is_pinned(s, p, slot) && slot < table(s, p).len()
    &&& r is Ok ==> table(after, p)[slot] == Some(target) && same_but(s, after, p, slot, slot)
    &&& r is Err ==> table(after, p) == table(s, p)
}

proof fn lemma_placed(
    s: Seq<Entry>,
    after: Seq<Entry>,
    p: int,
    reg: u64,
    target: CapHashOrRef,
    r: Result<(), VmError>,
)
    requires
        place_post(s, after, crate::cap::slot_of_reg(reg), target, r),
        runs(s, p),
    ensures
        placed_at(s, after, p, named(reg), target, r),
{
    lemma_named(reg);
    lemma_runs(s, p);
    lemma_pinned(s, p, crate::cap::slot_of_reg(reg));
}

/// The type of an instance is published as a cap that holds the instance's chain,
/// and the slot that register 8 names gets it.
pub proof fn law_type_of_gives_the_chain<K, H: Fn(&Cap) -> CapHash>(
    b: Vm<K>,
    a: Vm<K>,
    regs: Regs,
    cache: &CacheDirectory<H>,
    cache_after: &CacheDirectory<H>,
    r: Result<(), VmError>,
    p: int,
    t: CapHashOrRef,
    i: InstanceCap,
)
    requires
        type_of_post(b, a, regs, cache, cache_after, r),
        runs(b.stack@, p),
        named(regs.gpr@[7]) < table(b.stack@, p).len(),
        table(b.stack@, p)[named(regs.gpr@[7])] == Some(t),
        cache.at(t) == Some(Cap::Instance(i)),
        !is_pinned(b.stack@, p, named(regs.gpr@[8])),
        named(regs.gpr@[8]) < table(b.stack@, p).len(),
    ensures
        r is Ok,
        table(a.stack@, p)[named(regs.gpr@[8])] matches Some(CapHashOrRef::Hash(h)) && {
            &&& placed_at(
                b.stack@,
                a.stack@,
                p,
                named(regs.gpr@[8]),
                CapHashOrRef::Hash(h),
                r,
            )
            &&& cache_after.blobs().contains_key(h)
            &&& cache_after.blobs()[h] matches Cap::Type(c) && c.image_hash_chain
                == i.image_hash_chain
        },
{
    lemma_named(regs.gpr@[7]);
    lemma_runs(b.stack@, p);
    let cap = Cap::Type(crate::cap::TypeCap { image_hash_chain: i.image_hash_chain });
    let h = choose|h: CapHash|
        {
            &&& #[trigger] cache.addresses(cap, h)
            &&& cache_after.published(cache, cap, h)
            &&& place_post(
                b.stack@,
                a.stack@,
                crate::cap::slot_of_reg(regs.gpr@[8]),
                CapHashOrRef::Hash(h),
                r,
            )
        };
    lemma_placed(b.stack@, a.stack@, p, regs.gpr@[8], CapHashOrRef::Hash(h), r);
}

/// Two slots hold the same type exactly where they hold the same hash; the answer is
/// in register 7 and no other register changes.
pub proof fn law_same_type_compares_hashes(
    s: Seq<Entry>,
    regs: Regs,
    regs_after: Regs,
    r: Result<(), VmError>,
    p: int,
    x: CapHash,
    y: CapHash,
)
    requires
        answer_post(regs, regs_after, same_type_result(s, regs), r),
        runs(s, p),
        regs.gpr@.len() > 7,
        named(regs.gpr@[7]) < table(s, p).len(),
        named(regs.gpr@[8]) < table(s, p).len(),
        table(s, p)[named(regs.gpr@[7])] == Some(CapHashOrRef::Hash(x)),
        table(s, p)[named(regs.gpr@[8])] == Some(CapHashOrRef::Hash(y)),
    ensures
        r is Ok,
        regs_after.gpr@[7] == 1 <==> x == y,
        regs_after.gpr@[7] == 0 <==> x != y,
        regs_after.pc == regs.pc,
        regs_after.gpr@.len() == regs.gpr@.len(),
        forall|k: int|
            0 <= k < regs.gpr@.len() && k != 7 ==> #[trigger] regs_after.gpr@[k] == regs.gpr@[k],
{
    lemma_named(regs.gpr@[7]);
    lemma_named(regs.gpr@[8]);
    lemma_runs(s, p);
}

/// Reading a data cap writes its first bytes, as many as register 9 asks for or as
/// there are, to the address in register 8, and their number to register 7.
pub proof fn law_read_data_writes_the_bytes<H: Fn(&Cap) -> CapHash>(
    s: Seq<Entry>,
    regs: Regs,
    regs_after: Regs,
    mem: Mem,
    mem_after: Mem,
    cache: &CacheDirectory<H>,
    r: Result<(), VmError>,
    p: int,
    t: CapHashOrRef,
    d: DataCap,
    n: int,
)
    requires
        read_data_post(s, regs, regs_after, mem, mem_after, cache, r),
        runs(s, p),
        regs.gpr@.len() > 9,
        named(regs.gpr@[7]) < table(s, p).len(),
        table(s, p)[named(regs.gpr@[7])] == Some(t),
        cache.at(t) == Some(Cap::Data(d)),
        regs.gpr@[8] <= u32::MAX,
        d.bytes().len() <= u64::MAX,
        n == (if regs.gpr@[9] < d.bytes().len() {
            regs.gpr@[9] as int
        } else {
            d.bytes().len() as int
        }),
    ensures
        r is Ok <==> forall|x: int|
            regs.gpr@[8] <= x < regs.gpr@[8] + n ==> (#[trigger] mem.cell(x) matches Some(c)
                && c.access == Access::ReadWrite),
        r is Ok ==> {
            &&& regs_after.gpr@[7] == n
            &&& forall|i: int|
                0 <= i < n ==> (#[trigger] mem_after.cell(regs.gpr@[8] + i)) == Some(
                    Cell { access: Access::ReadWrite, byte: d.bytes()[i] },
                )
            &&& forall|x: int|
                !(regs.gpr@[8] <= x < regs.gpr@[8] + n) ==> #[trigger] mem_after.cell(x)
                    == mem.cell(x)
        },
        forall|k: int|
            0 <= k < regs.gpr@.len() && k != 7 ==> #[trigger] regs_after.gpr@[k] == regs.gpr@[k],
        r is Err ==> regs_after == regs && forall|x: int| #[trigger]
            mem_after.cell(x) == mem.cell(x),
{
    lemma_named(regs.gpr@[7]);
    lemma_runs(s, p);
    assert(regs.gpr@[8] as u32 == regs.gpr@[8]);
    let bytes = crate::ecall::cached::prefix_of(d.bytes(), regs.gpr@[9]);
    assert(bytes.len() == n);
    assert forall|i: int| 0 <= i < n implies bytes[i] == d.bytes()[i] by {
    }
}

/// Whether no two declarations name one slot.
pub open spec fn slots_differ(entries: Seq<SlotCap>) -> bool {
    forall|i: int, j: int|
        #![trigger entries[i], entries[j]]
        0 <= i < j < entries.len() ==> entries[i].slot.0 != entries[j].slot.0
}

/// Whether a declaration names the slot.
pub open spec fn declares(entries: Seq<SlotCap>, slot: int) -> bool {
    exists|i: int| 0 <= i < entries.len() && (#[trigger] entries[i]).slot.0 == slot
}

/// Filling puts each declared cap into its slot, with `only_empty` only where the
/// slot was empty, and leaves the other slots.
proof fn lemma_filled(
    slots: Seq<Option<CapHashOrRef>>,
    entries: Seq<SlotCap>,
    only_empty: bool,
)
    requires
        slots_differ(entries),
        fill_slots(slots, entries, only_empty).1 is Ok,
    ensures
        fill_slots(slots, entries, only_empty).0.len() == slots.len(),
        forall|i: int|
            0 <= i < entries.len() ==> {
                &&& (#[trigger] entries[i]).slot.0 < slots.len()
                &&& fill_slots(slots, entries, only_empty).0[entries[i].slot.0 as int] == (
                if only_empty && slots[entries[i].slot.0 as int] is Some {
                    slots[entries[i].slot.0 as int]
                } else {
                    Some(CapHashOrRef::Hash(entries[i].cap_hash))
                })
            },
        forall|k: int|
            0 <= k < slots.len() && !declares(entries, k) ==> #[trigger] fill_slots(
                slots,
                entries,
                only_empty,
            ).0[k] == slots[k],
    decreases entries.len(),
{
    if entries.len() > 0 {
        let rest = entries.drop_last();
        let e = entries.last();
        let filled = fill_slots(slots, rest, only_empty).0;
        assert forall|i: int, j: int|
            #![trigger rest[i], rest[j]]
            0 <= i < j < rest.len() implies rest[i].slot.0 != rest[j].slot.0 by {
            assert(entries[i] == rest[i]);
            assert(entries[j] == rest[j]);
        }
        lemma_filled(slots, rest, only_empty);
        assert(!declares(rest, e.slot.0 as int)) by {
            if declares(rest, e.slot.0 as int) {
                let i = choose|i: int|
                    0 <= i < rest.len() && (#[trigger] rest[i]).slot.0 == e.slot.0 as int;
                assert(entries[i] == rest[i]);
                assert(entries[entries.len() - 1] == e);
            }
        }
        if e.slot.0 < slots.len() {
            assert(filled[e.slot.0 as int] == slots[e.slot.0 as int]);
        }
        let all = fill_slots(slots, entries, only_empty).0;
        assert forall|i: int| 0 <= i < entries.len() implies {
            &&& (#[trigger] entries[i]).slot.0 < slots.len()
            &&& all[entries[i].slot.0 as int] == (if only_empty
                && slots[entries[i].slot.0 as int] is Some {
                slots[entries[i].slot.0 as int]
            } else {
                Some(CapHashOrRef::Hash(entries[i].cap_hash))
            })
        } by {
            if i < entries.len() - 1 {
                assert(rest[i] == entries[i]);
                assert(entries[entries.len() - 1] == e);
            }
        }
        assert forall|k: int| 0 <= k < slots.len() && !declares(entries, k) implies #[trigger] all[k]
            == slots[k] by {
            assert(!declares(rest, k)) by {
                if declares(rest, k) {
                    let i = choose|i: int|
                        0 <= i < rest.len() && (#[trigger] rest[i]).slot.0 == k;
                    assert(entries[i] == rest[i]);
                }
            }
            assert(entries[entries.len() - 1] == e);
        }
    }
}

/// Whether `child` is the table of a spawned instance: the pinned caps, the initial
/// caps where neither a pinned cap nor a prepared one is, and else what was prepared.
pub open spec fn child_table(
    prepared: Seq<Option<CapHashOrRef>>,
    img: ImageCap,
    child: Seq<Option<CapHashOrRef>>,
) -> bool {
    &&& child.len() == prepared.len()
    &&& forall|i: int|
        0 <= i < img.pinned@.len() ==> {
            &&& (#[trigger] img.pinned@[i]).slot.0 < prepared.len()
            &&& child[img.pinned@[i].slot.0 as int] == Some(
                CapHashOrRef::Hash(img.pinned@[i].cap_hash),
            )
        }
    &&& forall|i: int|
        0 <= i < img.initial@.len() ==> {
            let slot = (#[trigger] img.initial@[i]).slot.0 as int;
            &&& slot < prepared.len()
            &&& !declares(img.pinned@, slot) && prepared[slot] is None ==> child[slot] == Some(
                CapHashOrRef::Hash(img.initial@[i].cap_hash),
            )
            &&& !declares(img.pinned@, slot) && prepared[slot] is Some ==> child[slot]
                == prepared[slot]
        }
    &&& forall|k: int|
        0 <= k < prepared.len() && !declares(img.pinned@, k) && !declares(img.initial@, k)
            ==> #[trigger] child[k] == prepared[k]
}

/// A spawn of the image in the slot that register 7 names, with the cnode prepared in
/// the slot that register 8 names: the slot that register 9 names gets a fresh
/// instance of the image, of the spawner's type extended by the image. Its table is
/// the prepared one with the image's own caps: a pinned cap in its slot whatever was
/// prepared there, an initial cap only where nothing is. The prepared cnode is used
/// up.
pub proof fn law_spawned_child_has_its_caps<K, H: Fn(&Cap) -> CapHash>(
    b: Vm<K>,
    a: Vm<K>,
    regs: Regs,
    cache: &CacheDirectory<H>,
    cache_after: &CacheDirectory<H>,
    r: Result<(), VmError>,
    p: int,
    image: CapHash,
    img: ImageCap,
    prepared: CapHash,
    prep: CNodeCap,
)
    requires
        derive_spawn_cached_post(b, a, regs, cache, cache_after, r),
        r is Ok,
        runs(b.stack@, p),
        named(regs.gpr@[7]) < table(b.stack@, p).len(),
        named(regs.gpr@[8]) < table(b.stack@, p).len(),
        table(b.stack@, p)[named(regs.gpr@[7])] == Some(CapHashOrRef::Hash(image)),
        table(b.stack@, p)[named(regs.gpr@[8])] == Some(CapHashOrRef::Hash(prepared)),
        cache.at(CapHashOrRef::Hash(image)) == Some(Cap::Image(img)),
        cache.at(CapHashOrRef::Hash(prepared)) == Some(Cap::CNode(prep)),
        slots_differ(img.pinned@),
        slots_differ(img.initial@),
    ensures
        only_table(b.stack@, a.stack@, p),
        same_but(b.stack@, a.stack@, p, named(regs.gpr@[8]), named(regs.gpr@[9])),
        !is_pinned(b.stack@, p, named(regs.gpr@[9])),
        named(regs.gpr@[9]) < table(b.stack@, p).len(),
        named(regs.gpr@[8]) != named(regs.gpr@[9]) ==> table(
            a.stack@,
            p,
        )[named(regs.gpr@[8])] is None,
        table(a.stack@, p)[named(regs.gpr@[9])] matches Some(CapHashOrRef::Hash(h))
            && cache_after.blobs()[h] matches Cap::Instance(i) && {
            &&& i.image_hash == image
            &&& i.image_hash_chain == hash_of_bytes(
                blake2b256(b.stack@[p]->Instance_0.image_hash_chain@ + image@),
            )
            &&& forall|k: int| 0 <= k < NUM_REGS ==> #[trigger] i.regs@[k] == 0
            &&& i.pc == 0
            &&& i.gas_remaining == 0
            &&& i.root_cnode is Hash
            &&& i.root_cnode->Hash_0 != h ==> (cache_after.at(i.root_cnode) matches Some(
                Cap::CNode(c),
            ) && child_table(prep.slots@, img, c.slots@))
        },
{
    let s = b.stack@;
    lemma_named(regs.gpr@[7]);
    lemma_named(regs.gpr@[8]);
    lemma_named(regs.gpr@[9]);
    lemma_runs(s, p);
    lemma_pinned(s, p, crate::cap::slot_of_reg(regs.gpr@[9]));
    let plan = crate::ecall::cached::spawn_plan(s, cache, regs)->Ok_0;
    let pinned = fill_slots(prep.slots@, img.pinned@, false).0;
    lemma_filled(prep.slots@, img.pinned@, false);
    lemma_filled(pinned, img.initial@, true);
    assert(plan.3 == fill_slots(pinned, img.initial@, true).0);
    assert forall|i: int| 0 <= i < img.pinned@.len() implies plan.3[(
    #[trigger] img.pinned@[i]).slot.0 as int] == Some(
        CapHashOrRef::Hash(img.pinned@[i].cap_hash),
    ) by {
        let slot = img.pinned@[i].slot.0 as int;
        assert(pinned[slot] is Some);
        if declares(img.initial@, slot) {
            let j = choose|j: int|
                0 <= j < img.initial@.len() && (#[trigger] img.initial@[j]).slot.0 == slot;
            assert(img.initial@[j].slot.0 == slot);
        }
    }
    assert(child_table(prep.slots@, img, plan.3));
    let (cn, cn_hash, inst, inst_hash) = choose|
        cn: CNodeCap,
        cn_hash: CapHash,
        inst: InstanceCap,
        inst_hash: CapHash,
    |
        {
            &&& #[trigger] spawned(
                plan,
                crate::ecall::extended_chain(s, plan.0),
                cache,
                cache_after,
                cn,
                cn_hash,
                inst,
                inst_hash,
            )
            &&& effect_post(
                s,
                a.stack@,
                crate::ecall::cached::spawn_effect(
                    table(s, p),
                    pins(s, p),
                    crate::cap::slot_of_reg(regs.gpr@[8]),
                    crate::cap::slot_of_reg(regs.gpr@[9]),
                    CapHashOrRef::Hash(inst_hash),
                ),
                r,
            )
        };
    assert(cn.slots@ == plan.3);
}

/// The data of a mapping's source is read back at the start of the mapping.
proof fn lemma_source_is_read<H: Fn(&Cap) -> CapHash>(
    cache: &CacheDirectory<H>,
    blobs: Map<CapHash, Cap>,
    slots: Seq<Option<CapHashOrRef>>,
    mappings: Seq<MemoryMapping>,
    overlays: Seq<Overlay>,
    base: Option<Cell>,
    j: int,
    data: Seq<u8>,
    a: int,
)
    requires
        overlay_values(overlays) == spawn_overlays(
            blobs,
            cache.live(),
            slots,
            mapping_sources(mappings),
        ),
        0 <= j < mappings.len(),
        forall|k: int| 0 <= k < mappings.len() ==> (#[trigger] mappings[k]).start <= u32::MAX,
        source_bytes(
            blobs,
            cache.live(),
            slots,
            mapping_sources(mappings)[j].1,
        ) == Some(data),
        mappings[j].start <= a < mappings[j].start + data.len(),
        forall|k: int|
            j < k < mappings.len() ==> !((#[trigger] mappings[k]).start <= a) || mappings[
            k].source_path@.len() == 0,
    ensures
        overlay_cells(overlays, base, a) == Some(
            Cell { access: Access::ReadWrite, byte: data[a - mappings[j].start] },
        ),
    decreases mappings.len(),
{
    let sources = mapping_sources(mappings);
    let rest = mappings.drop_last();
    let m = mappings.last();
    assert(m == mappings[mappings.len() - 1]);
    assert(sources.drop_last() =~= mapping_sources(rest));
    assert(m.start as u32 == m.start);
    let planned = spawn_overlays(blobs, cache.live(), slots, sources);
    assert(overlays.len() == overlay_values(overlays).len());
    match source_bytes(blobs, cache.live(), slots, sources.last().1) {
        Some(bytes) => {
            assert(overlay_values(overlays).last() == planned.last());
            assert(planned.drop_last() =~= spawn_overlays(
                blobs,
                cache.live(),
                slots,
                sources.drop_last(),
            ));
            assert(overlay_values(overlays.drop_last()) =~= planned.drop_last());
            assert(overlays.last().start == m.start);
            assert(overlays.last().bytes@ == bytes);
            if j < mappings.len() - 1 {
                assert(rest[j] == mappings[j]);
                assert(mapping_sources(rest)[j] == sources[j]);
                lemma_source_is_read(
                    cache,
                    blobs,
                    slots,
                    rest,
                    overlays.drop_last(),
                    base,
                    j,
                    data,
                    a,
                );
            }
        },
        None => {
            assert(j < mappings.len() - 1);
            assert(rest[j] == mappings[j]);
            assert(mapping_sources(rest)[j] == sources[j]);
            lemma_source_is_read(cache, blobs, slots, rest, overlays, base, j, data, a);
        },
    }
}

/// A spawned instance starts with the data of its mappings: where the slot that a
/// mapping takes as its source holds inline data, entering the instance finds these
/// bytes at the start of the mapping, unless a later mapping with a source starts at
/// or below them.
pub proof fn law_spawned_memory_holds_the_sources<K, H: Fn(&Cap) -> CapHash>(
    b: Vm<K>,
    a: Vm<K>,
    regs: Regs,
    cache: &CacheDirectory<H>,
    cache_after: &CacheDirectory<H>,
    r: Result<(), VmError>,
    p: int,
    image: CapHash,
    img: ImageCap,
    h: CapHash,
    i: InstanceCap,
    c: CNodeCap,
    j: int,
    t: CapHashOrRef,
    d: DataCap,
    x: int,
)
    requires
        derive_spawn_cached_post(b, a, regs, cache, cache_after, r),
        r is Ok,
        runs(b.stack@, p),
        named(regs.gpr@[7]) < table(b.stack@, p).len(),
        table(b.stack@, p)[named(regs.gpr@[7])] == Some(CapHashOrRef::Hash(image)),
        cache.at(CapHashOrRef::Hash(image)) == Some(Cap::Image(img)),
        table(a.stack@, p)[named(regs.gpr@[9])] == Some(CapHashOrRef::Hash(h)),
        cache_after.blobs()[h] == Cap::Instance(i),
        i.root_cnode != CapHashOrRef::Hash(h),
        cache_after.at(i.root_cnode) == Some(Cap::CNode(c)),
        forall|k: int|
            0 <= k < img.mappings@.len() ==> (#[trigger] img.mappings@[k]).start <= u32::MAX,
        0 <= j < img.mappings@.len(),
        img.mappings@[j].source_path@.len() > 0,
        img.mappings@[j].source_path@[0].0 < c.slots@.len(),
        c.slots@[img.mappings@[j].source_path@[0].0 as int] == Some(t),
        cache_after.at(t) == Some(Cap::Data(d)),
        d.content is Inline,
        img.mappings@[j].start <= x < img.mappings@[j].start + d.bytes().len(),
        forall|k: int|
            j < k < img.mappings@.len() ==> !((#[trigger] img.mappings@[k]).start <= x)
                || img.mappings@[k].source_path@.len() == 0,
    ensures
        entry_cell(i, x) == Some(
            Cell { access: Access::ReadWrite, byte: d.bytes()[x - img.mappings@[j].start] },
        ),
{
    let s = b.stack@;
    lemma_named(regs.gpr@[7]);
    lemma_named(regs.gpr@[9]);
    lemma_runs(s, p);
    let plan = crate::ecall::cached::spawn_plan(s, cache, regs)->Ok_0;
    let (cn, cn_hash, inst, inst_hash) = choose|
        cn: CNodeCap,
        cn_hash: CapHash,
        inst: InstanceCap,
        inst_hash: CapHash,
    |
        {
            &&& #[trigger] spawned(
                plan,
                crate::ecall::extended_chain(s, plan.0),
                cache,
                cache_after,
                cn,
                cn_hash,
                inst,
                inst_hash,
            )
            &&& effect_post(
                s,
                a.stack@,
                crate::ecall::cached::spawn_effect(
                    table(s, p),
                    pins(s, p),
                    crate::cap::slot_of_reg(regs.gpr@[8]),
                    crate::cap::slot_of_reg(regs.gpr@[9]),
                    CapHashOrRef::Hash(inst_hash),
                ),
                r,
            )
        };
    assert(inst_hash == h);
    assert(inst == i);
    assert(cn == c);
    let blobs = cache.blobs().insert(cn_hash, Cap::CNode(cn));
    let base = if 0 <= x < page_round_up(i.mem_size as int) {
        Some(Cell { access: Access::ReadWrite, byte: 0 })
    } else {
        None
    };
    assert(mapping_sources(img.mappings@)[j].1 == Some(img.mappings@[j].source_path@[0]));
    assert(crate::cache::cap_at(blobs, cache.live(), t) == Some(Cap::Data(d)));
    lemma_source_is_read(
        cache,
        blobs,
        plan.3,
        img.mappings@,
        i.rw_overlays@,
        base,
        j,
        d.bytes(),
        x,
    );
}

proof fn lemma_size_covers(mappings: Seq<MemoryMapping>, k: int)
    requires
        0 <= k < mappings.len(),
        forall|q: int|
            0 <= q < mappings.len() ==> (#[trigger] mappings[q]).start + mappings[q].size
                <= u32::MAX,
    ensures
        spawn_mem_size(mappings) >= mappings[k].start + mappings[k].size,
        exists|q: int|
            0 <= q < mappings.len() && spawn_mem_size(mappings) == (#[trigger] mappings[q]).start
                + mappings[q].size,
    decreases mappings.len(),
{
    let rest = mappings.drop_last();
    let m = mappings.last();
    assert(m == mappings[mappings.len() - 1]);
    assert(crate::vm::mapping_end(m) == m.start + m.size);
    if rest.len() > 0 {
        let at = if k < rest.len() {
            k
        } else {
            0
        };
        assert forall|q: int| 0 <= q < rest.len() implies (#[trigger] rest[q]).start + rest[q].size
            <= u32::MAX by {
            assert(rest[q] == mappings[q]);
        }
        lemma_size_covers(rest, at);
        assert(rest[at] == mappings[at]);
        let q = choose|q: int|
            0 <= q < rest.len() && spawn_mem_size(rest) == (#[trigger] rest[q]).start
                + rest[q].size;
        assert(mappings[q] == rest[q]);
    }
}

/// The memory of a spawned instance reaches to the end of its highest mapping, and
/// no further.
pub proof fn law_spawned_memory_covers_the_mappings<H: Fn(&Cap) -> CapHash>(
    image: CapHash,
    img: ImageCap,
    size_log: u8,
    slots: Seq<Option<CapHashOrRef>>,
    chain: CapHash,
    cache: &CacheDirectory<H>,
    cache_after: &CacheDirectory<H>,
    cn: CNodeCap,
    cn_hash: CapHash,
    inst: InstanceCap,
    inst_hash: CapHash,
    k: int,
)
    requires
        spawned(
            (image, img, size_log, slots),
            chain,
            cache,
            cache_after,
            cn,
            cn_hash,
            inst,
            inst_hash,
        ),
        0 <= k < img.mappings@.len(),
        forall|q: int|
            0 <= q < img.mappings@.len() ==> (#[trigger] img.mappings@[q]).start
                + img.mappings@[q].size <= u32::MAX,
    ensures
        inst.mem_size >= img.mappings@[k].start + img.mappings@[k].size,
        exists|q: int|
            0 <= q < img.mappings@.len() && inst.mem_size == (#[trigger] img.mappings@[q]).start
                + img.mappings@[q].size,
{
    lemma_size_covers(img.mappings@, k);
}

/// A call enters the instance in the slot that register 7 names at the endpoint that
/// register 8 names, with zero arguments. What the caller had in slot 0 moves to
/// slot 0 of the callee; every other slot of either stays.
pub proof fn law_called_instance_is_entered<K, H: Fn(&Cap) -> CapHash>(
    b: Vm<K>,
    a: Vm<K>,
    regs: Regs,
    cache: &CacheDirectory<H>,
    r: Result<(), VmError>,
    t: CapHashOrRef,
    inst: InstanceCap,
    img: ImageCap,
    cn: CNodeCap,
)
    requires
        call_post(b, a, regs, cache, r),
        b.stack@.len() > 0,
        b.stack@.last() is Instance,
        table(b.stack@, b.stack@.len() - 1).len() > 0,
        named(regs.gpr@[7]) < table(b.stack@, b.stack@.len() - 1).len(),
        table(b.stack@, b.stack@.len() - 1)[named(regs.gpr@[7])] == Some(t),
        cache.at(t) == Some(Cap::Instance(inst)),
        cache.at(CapHashOrRef::Hash(inst.image_hash)) == Some(Cap::Image(img)),
        cache.at(inst.root_cnode) == Some(Cap::CNode(cn)),
        cn.slots@.len() > 0,
        r is Ok,
    ensures
        a.stack@.len() == b.stack@.len() + 1,
        forall|q: int| 0 <= q < b.stack@.len() - 1 ==> #[trigger] a.stack@[q] == b.stack@[q],
        ({
            let top = b.stack@.len() - 1;
            let before = table(b.stack@, top);
            let caller = table(a.stack@, top);
            &&& a.stack@[top] is Instance
            &&& a.stack@[top]->Instance_0.status == EntryStatus::Waiting
            &&& caller.len() == before.len()
            &&& caller[0] is None
            &&& forall|k: int| 1 <= k < before.len() ==> #[trigger] caller[k] == before[k]
        }),
        a.stack@.last() matches Entry::Instance(e) && {
            let endpoint = img.endpoints@[named(regs.gpr@[8])];
            let before = table(b.stack@, b.stack@.len() - 1);
            &&& named(regs.gpr@[8]) < img.endpoints@.len()
            &&& e.status == EntryStatus::Running
            &&& e.instance_ref == t
            &&& e.image_hash == inst.image_hash
            &&& e.image_hash_chain == inst.image_hash_chain
            &&& e.regs.pc == endpoint.entry_pc
            &&& forall|k: int| 7 <= k <= 10 ==> #[trigger] e.regs.gpr@[k] == 0
            &&& forall|k: int|
                0 <= k < NUM_REGS && !(7 <= k <= 10) && inst.regs@[k] != 0 ==> (
                #[trigger] e.regs.gpr@[k]) == inst.regs@[k]
            &&& forall|x: int| #[trigger] e.mem.cell(x) == entry_cell(inst, x)
            &&& e.root_cnode.slots@.len() == cn.slots@.len()
            &&& e.root_cnode.slots@[0] == (if before[0] is Some {
                before[0]
            } else {
                cn.slots@[0]
            })
            &&& forall|k: int|
                1 <= k < cn.slots@.len() ==> #[trigger] e.root_cnode.slots@[k] == cn.slots@[k]
        },
{
    let s = b.stack@;
    lemma_named(regs.gpr@[7]);
    lemma_named(regs.gpr@[8]);
    lemma_runs(s, s.len() - 1);
    let endpoint = crate::cap::slot_of_reg(regs.gpr@[8]).0 as u8;
    assert(endpoint == named(regs.gpr@[8]));
    let scratch = crate::cap::slot_at(table(s, s.len() - 1), SlotIdx(0));
    let moved = crate::cap::slots_set(table(s, s.len() - 1), SlotIdx(0), None);
    let zeros = Seq::new(4, |i: int| 0u64);
    let (mid, built, child) = choose|mid: Seq<Entry>, built: BuiltEntry, child: InstanceEntry|
        {
            &&& #[trigger] crate::ecall::slots_now(s, mid, moved)
            &&& crate::vm::built_from(built, t, inst, img, cn, endpoint, zeros, 0)
            &&& built.entry.program == a.image_cache@[inst.image_hash]
            &&& #[trigger] crate::ecall::cached::callee_entry(child, built, scratch)
            &&& a.stack@ == crate::callstack::pushed_instance(mid, child)
        };
    assert forall|k: int| 7 <= k <= 10 implies #[trigger] built.regs.gpr@[k] == 0 by {
        assert(zeros[k - 7] == 0);
    }
}

/// Binding an image extends the type of the running entry by the image and makes the
/// image, its program, its pinned slots and its catcher slot the entry's own; the cap
/// table, registers and memory stay.
pub proof fn law_bound_image_takes_over<K, H: Fn(&Cap) -> CapHash>(
    b: Vm<K>,
    a: Vm<K>,
    regs: Regs,
    cache: &CacheDirectory<H>,
    r: Result<(), VmError>,
    p: int,
    image: CapHash,
    img: ImageCap,
)
    requires
        set_image_cached_post(b, a, regs, cache, r),
        runs(b.stack@, p),
        named(regs.gpr@[7]) < table(b.stack@, p).len(),
        table(b.stack@, p)[named(regs.gpr@[7])] == Some(CapHashOrRef::Hash(image)),
        cache.at(CapHashOrRef::Hash(image)) == Some(Cap::Image(img)),
    ensures
        r is Ok,
        a.stack@.len() == b.stack@.len(),
        forall|q: int|
            0 <= q < b.stack@.len() && q != p ==> #[trigger] a.stack@[q] == b.stack@[q],
        a.stack@[p] matches Entry::Instance(e) && {
            let was = *b.stack@[p]->Instance_0;
            &&& e.image_hash == image
            &&& e.image_hash_chain == hash_of_bytes(blake2b256(was.image_hash_chain@ + image@))
            &&& e.yield_marker_slot == img.yield_marker_slot
            &&& e.pinned_slots@.len() == img.pinned@.len()
            &&& forall|k: int|
                0 <= k < img.pinned@.len() ==> #[trigger] e.pinned_slots@[k] == img.pinned@[k].slot
            &&& e.program == a.image_cache@[image]
            &&& !b.image_cache@.contains_key(image) ==> e.program.code@ == img.code@
                && e.program.code_base == img.code_base
            &&& b.image_cache@.contains_key(image) ==> e.program == b.image_cache@[image]
            &&& e.root_cnode == was.root_cnode
            &&& e.regs == was.regs
            &&& e.mem == was.mem
            &&& e.gas == was.gas
            &&& e.instance_ref == was.instance_ref
            &&& e.status == was.status
        },
{
    lemma_named(regs.gpr@[7]);
    lemma_runs(b.stack@, p);
}

/// A cnode that is made is empty, of the size that register 8 asks for, published
/// under its hash and put into the slot that register 7 names.
pub proof fn law_made_cnode_is_empty<K, H: Fn(&Cap) -> CapHash>(
    b: Vm<K>,
    a: Vm<K>,
    regs: Regs,
    cache: &CacheDirectory<H>,
    cache_after: &CacheDirectory<H>,
    r: Result<(), VmError>,
    p: int,
)
    requires
        crate::ecall::mgmt_cached_post(b, a, mgmt_op::CNODE_MINT, regs, cache, cache_after, r),
        runs(b.stack@, p),
        named(regs.gpr@[8]) <= crate::cap::MAX_CNODE_SIZE_LOG,
        !is_pinned(b.stack@, p, named(regs.gpr@[7])),
        named(regs.gpr@[7]) < table(b.stack@, p).len(),
    ensures
        r is Ok,
        table(a.stack@, p)[named(regs.gpr@[7])] matches Some(CapHashOrRef::Hash(h)) && {
            &&& placed_at(
                b.stack@,
                a.stack@,
                p,
                named(regs.gpr@[7]),
                CapHashOrRef::Hash(h),
                r,
            )
            &&& cache_after.blobs().contains_key(h)
            &&& cache_after.blobs()[h] matches Cap::CNode(c) && {
                &&& c.size_log == named(regs.gpr@[8])
                &&& c.slots@.len() == vstd::arithmetic::power2::pow2(named(regs.gpr@[8]) as nat)
                &&& forall|k: int| 0 <= k < c.slots@.len() ==> (#[trigger] c.slots@[k]) is None
            }
        },
{
    lemma_named(regs.gpr@[7]);
    lemma_named(regs.gpr@[8]);
    let (c, h) = choose|c: CNodeCap, h: CapHash|
        {
            &&& #[trigger] crate::ecall::mint_post(
                b.stack@,
                a.stack@,
                regs,
                cache.hasher(),
                c,
                h,
                r,
            )
            &&& cache_after.published(cache, Cap::CNode(c), h)
        };
    lemma_placed(b.stack@, a.stack@, p, regs.gpr@[7], CapHashOrRef::Hash(h), r);
}

/// Data that is made holds the bytes of memory at the address in register 7, as many
/// as register 8 says, and zeros up to whole pages; the quota in register 9 pays for
/// these pages, and the slot in register 10 gets the data.
pub proof fn law_made_data_is_the_memory<K: KernelAssist, H: Fn(&Cap) -> CapHash>(
    b: Vm<K>,
    a: Vm<K>,
    regs: Regs,
    mem: Mem,
    cache: &CacheDirectory<H>,
    cache_after: &CacheDirectory<H>,
    r: Result<(), VmError>,
    p: int,
)
    requires
        mint_data_post(b, a, regs, mem, cache, cache_after, r),
        runs(b.stack@, p),
        regs.gpr@[7] <= u32::MAX,
        r is Ok,
    ensures
        ({
            let size = page_round_up(regs.gpr@[8] as int);
            let quota = regs.gpr@[9];
            &&& b.kernel_assist.assist().quota(quota) >= size
            &&& a.kernel_assist.assist().quota(quota) + size == b.kernel_assist.assist().quota(
                quota,
            )
            &&& forall|id: u64|
                id != quota ==> #[trigger] a.kernel_assist.assist().quota(id)
                    == b.kernel_assist.assist().quota(id)
        }),
        table(a.stack@, p)[named(regs.gpr@[10])] matches Some(CapHashOrRef::Hash(h)) && {
            &&& placed_at(
                b.stack@,
                a.stack@,
                p,
                named(regs.gpr@[10]),
                CapHashOrRef::Hash(h),
                r,
            )
            &&& cache_after.blobs()[h] matches Cap::Data(d) && {
                &&& d.bytes().len() == page_round_up(regs.gpr@[8] as int)
                &&& forall|i: int|
                    0 <= i < regs.gpr@[8] ==> mem.cell(regs.gpr@[7] + i) is Some && (
                    #[trigger] d.bytes()[i]) == mem.cell(regs.gpr@[7] + i)->0.byte
                &&& forall|i: int|
                    regs.gpr@[8] <= i < d.bytes().len() ==> #[trigger] d.bytes()[i] == 0
            }
        },
{
    lemma_named(regs.gpr@[10]);
    assert(regs.gpr@[7] as u32 == regs.gpr@[7]);
    let addr = regs.gpr@[7] as u32;
    let len = regs.gpr@[8];
    let content = crate::ecall::cached::page_padded(
        crate::vm::mem_bytes(mem, addr as int, len as nat),
    );
    let (d, h) = choose|d: DataCap, h: CapHash|
        {
            &&& d.content is Inline
            &&& d.bytes() == content
            &&& #[trigger] cache.addresses(Cap::Data(d), h)
            &&& cache_after.published(cache, Cap::Data(d), h)
            &&& place_post(
                b.stack@,
                a.stack@,
                crate::cap::slot_of_reg(regs.gpr@[10]),
                CapHashOrRef::Hash(h),
                r,
            )
        };
    lemma_placed(b.stack@, a.stack@, p, regs.gpr@[10], CapHashOrRef::Hash(h), r);
    crate::vm_laws::law_round_up_is_the_next_page(len as int);
    assert forall|i: int| 0 <= i < len implies (#[trigger] mem.cell(addr + i)) is Some by {
        assert(mem.readable(addr as int, len as nat));
    }
}

/// What a machine does with the outcome of a call after which the program goes on.
pub open spec fn goes_on(r: Result<(), VmError>, result: EcallResult) -> bool {
    &&& r is Ok ==> result == EcallResult::Continue
    &&& r is Err ==> result == EcallResult::Exit(ExitReason::Trap)
}

/// What a machine does with the outcome of a call that leaves the run.
pub open spec fn leaves(op: u32, r: Result<(), VmError>, result: EcallResult) -> bool {
    &&& r is Ok ==> result == EcallResult::Exit(ExitReason::HostCall(op))
    &&& r is Err ==> result == EcallResult::Exit(ExitReason::Trap)
}

/// A call is told by its number, with a directory: what it does is what the operation
/// of that number does, and a call that is refused traps. Number zero ends the run with
/// a reply; a number that means nothing goes on and changes nothing.
pub proof fn law_call_is_told_by_its_number<K: KernelAssist, H: Fn(&Cap) -> CapHash>(
    b: Vm<K>,
    a: Vm<K>,
    op: u32,
    regs: Regs,
    regs_after: Regs,
    mem: Mem,
    mem_after: Mem,
    cache: &CacheDirectory<H>,
    cache_after: &CacheDirectory<H>,
    result: EcallResult,
)
    requires
        crate::ecall::cached::ecalli_cached_post(
            b,
            a,
            op,
            regs,
            regs_after,
            mem,
            mem_after,
            cache,
            cache_after,
            result,
        ),
    ensures
        op == 0 ==> {
            &&& result == EcallResult::Exit(ExitReason::Halt)
            &&& a.stack@ == b.stack@
            &&& regs_after == regs
            &&& mem_after == mem
            &&& cache_after.same(cache)
        },
        1 <= op <= 4 ==> regs_after == regs && mem_after == mem && cache_after.same(cache)
            && exists|r: Result<(), VmError>| #[trigger]
            mgmt_post(b, a, op, regs, cache.hasher(), r) && goes_on(r, result),
        op == 5 ==> regs_after == regs && mem_after == mem && exists|r: Result<(), VmError>|
            #[trigger] crate::ecall::mgmt_cached_post(b, a, op, regs, cache, cache_after, r)
                && goes_on(r, result),
        6 <= op <= 15 ==> a.stack@ == b.stack@ && result == EcallResult::Exit(ExitReason::Trap),
        op == 16 ==> regs_after == regs && mem_after == mem && cache_after.same(cache) && exists|
            r: Result<EcallResult, VmError>,
        | #[trigger]
            crate::ecall::host_yield_post(b, a, regs, r) && (r is Ok ==> result
                == EcallResult::Exit(ExitReason::HostCall(16))) && (r is Err ==> result
                == EcallResult::Exit(ExitReason::Trap)),
        op == 17 ==> regs_after == regs && mem_after == mem && cache_after.same(cache) && exists|
            r: Result<(), VmError>,
        | #[trigger] set_image_cached_post(b, a, regs, cache, r) && leaves(17, r, result),
        op == 18 ==> regs_after == regs && mem_after == mem && exists|r: Result<(), VmError>|
            #[trigger] derive_spawn_cached_post(b, a, regs, cache, cache_after, r) && goes_on(
                r,
                result,
            ),
        op == 19 ==> a.stack@ == b.stack@ && result == EcallResult::Exit(ExitReason::Trap),
        op == 20 ==> mem_after == mem && a.stack@ == b.stack@ && cache_after.same(cache) && exists|
            r: Result<(), VmError>,
        | #[trigger]
            answer_post(regs, regs_after, same_type_result(b.stack@, regs), r) && goes_on(r, result),
        op == 21 ==> regs_after == regs && mem_after == mem && exists|r: Result<(), VmError>|
            #[trigger] type_of_post(b, a, regs, cache, cache_after, r) && goes_on(r, result),
        op == 22 ==> a.stack@ == b.stack@ && cache_after.same(cache) && exists|
            r: Result<(), VmError>,
        | #[trigger]
            read_data_post(b.stack@, regs, regs_after, mem, mem_after, cache, r) && goes_on(
                r,
                result,
            ),
        op == 23 ==> regs_after == regs && mem_after == mem && exists|r: Result<(), VmError>|
            #[trigger] mint_data_post(b, a, regs, mem, cache, cache_after, r) && goes_on(
                r,
                result,
            ),
        op == 24 ==> regs_after == regs && mem_after == mem && exists|r: Result<(), VmError>|
            #[trigger] crate::ecall::cached::file_open_post(b, a, regs, cache, cache_after, r)
                && goes_on(r, result),
        op == 25 ==> mem_after == mem && cache_after.same(cache) && exists|r: Result<(), VmError>|
            #[trigger] crate::ecall::cached::save_post(b, a, regs, regs_after, cache, r)
                && goes_on(r, result),
        op == 26 ==> regs_after == regs && mem_after == mem && cache_after.same(cache) && exists|
            r: Result<(), VmError>,
        | #[trigger] call_post(b, a, regs, cache, r) && leaves(26, r, result),
        op >= 27 ==> {
            &&& result == EcallResult::Continue
            &&& a.stack@ == b.stack@
            &&& regs_after == regs
            &&& mem_after == mem
            &&& cache_after.same(cache)
        },
{
}

/// The same without a directory: the calls that need one trap and change nothing.
pub proof fn law_call_without_directory_is_told_by_its_number<
    K: KernelAssist,
    H: Fn(&Cap) -> CapHash,
>(
    b: Vm<K>,
    a: Vm<K>,
    op: u32,
    regs: Regs,
    regs_after: Regs,
    content_hash: H,
    result: EcallResult,
)
    requires
        crate::ecall::ecalli_post(b, a, op, regs, regs_after, content_hash, result),
    ensures
        op == 0 ==> result == EcallResult::Exit(ExitReason::Halt) && a.stack@ == b.stack@,
        1 <= op <= 5 ==> regs_after == regs && exists|r: Result<(), VmError>| #[trigger]
            mgmt_post(b, a, op, regs, content_hash, r) && goes_on(r, result),
        6 <= op <= 15 ==> a.stack@ == b.stack@ && result == EcallResult::Exit(ExitReason::Trap),
        op == 16 ==> regs_after == regs && exists|r: Result<EcallResult, VmError>| #[trigger]
            crate::ecall::host_yield_post(b, a, regs, r) && (r is Ok ==> result
                == EcallResult::Exit(ExitReason::HostCall(16))) && (r is Err ==> result
                == EcallResult::Exit(ExitReason::Trap)),
        op == 17 ==> regs_after == regs && exists|r: Result<(), VmError>| #[trigger]
            set_image_post(b, a, regs, r) && goes_on(r, result),
        op == 18 ==> regs_after == regs && exists|r: Result<(), VmError>| #[trigger]
            crate::ecall::derive_spawn_post(b, a, regs, r) && goes_on(r, result),
        op == 20 ==> a.stack@ == b.stack@ && exists|r: Result<(), VmError>| #[trigger]
            answer_post(regs, regs_after, same_type_result(b.stack@, regs), r) && goes_on(
                r,
                result,
            ),
        op == 19 || 21 <= op <= 26 ==> {
            &&& result == EcallResult::Exit(ExitReason::Trap)
            &&& a.stack@ == b.stack@
            &&& regs_after == regs
        },
        op >= 27 ==> {
            &&& result == EcallResult::Continue
            &&& a.stack@ == b.stack@
            &&& regs_after == regs
        },
{
}

/// Binding an image without a directory extends the type of the running entry by the
/// image and binds the image; nothing else of the entry changes.
pub proof fn law_bound_hash_extends_the_type<K>(
    b: Vm<K>,
    a: Vm<K>,
    regs: Regs,
    r: Result<(), VmError>,
    p: int,
    image: CapHash,
)
    requires
        set_image_post(b, a, regs, r),
        runs(b.stack@, p),
        named(regs.gpr@[7]) < table(b.stack@, p).len(),
        table(b.stack@, p)[named(regs.gpr@[7])] == Some(CapHashOrRef::Hash(image)),
    ensures
        r is Ok,
        a.stack@.len() == b.stack@.len(),
        forall|q: int|
            0 <= q < b.stack@.len() && q != p ==> #[trigger] a.stack@[q] == b.stack@[q],
        a.stack@[p] matches Entry::Instance(e) && {
            let was = *b.stack@[p]->Instance_0;
            &&& e.image_hash == image
            &&& e.image_hash_chain == hash_of_bytes(blake2b256(was.image_hash_chain@ + image@))
            &&& *e == (InstanceEntry {
                image_hash: e.image_hash,
                image_hash_chain: e.image_hash_chain,
                ..was
            })
        },
{
    lemma_named(regs.gpr@[7]);
    lemma_runs(b.stack@, p);
}

/// A spawn without a directory puts the extended type into the slot that register 8
/// names.
pub proof fn law_spawned_type_is_placed<K>(
    b: Vm<K>,
    a: Vm<K>,
    regs: Regs,
    r: Result<(), VmError>,
    p: int,
    image: CapHash,
)
    requires
        crate::ecall::derive_spawn_post(b, a, regs, r),
        runs(b.stack@, p),
        named(regs.gpr@[7]) < table(b.stack@, p).len(),
        table(b.stack@, p)[named(regs.gpr@[7])] == Some(CapHashOrRef::Hash(image)),
    ensures
        placed_at(
            b.stack@,
            a.stack@,
            p,
            named(regs.gpr@[8]),
            CapHashOrRef::Hash(
                hash_of_bytes(blake2b256(b.stack@[p]->Instance_0.image_hash_chain@ + image@)),
            ),
            r,
        ),
{
    lemma_named(regs.gpr@[7]);
    lemma_runs(b.stack@, p);
    lemma_placed(
        b.stack@,
        a.stack@,
        p,
        regs.gpr@[8],
        CapHashOrRef::Hash(crate::ecall::extended_chain(b.stack@, image)),
        r,
    );
}

/// A file that is saved is paid for from the quota in register 8, by its length; the
/// number of the file is in register 7, and under it the file is the cap that was saved.
pub proof fn law_saved_file_is_paid<K: KernelAssist, H: Fn(&Cap) -> CapHash>(
    b: Vm<K>,
    a: Vm<K>,
    regs: Regs,
    regs_after: Regs,
    cache: &CacheDirectory<H>,
    r: Result<(), VmError>,
    p: int,
    t: CapHashOrRef,
    d: DataCap,
    id: u64,
)
    requires
        crate::ecall::cached::save_post(b, a, regs, regs_after, cache, r),
        runs(b.stack@, p),
        regs.gpr@.len() > 7,
        named(regs.gpr@[7]) < table(b.stack@, p).len(),
        table(b.stack@, p)[named(regs.gpr@[7])] == Some(t),
        cache.at(t) == Some(Cap::Data(d)),
        d.bytes().len() <= u64::MAX,
        r is Ok,
    ensures
        a.stack == b.stack,
        a.kernel_assist.file(regs_after.gpr@[7]) == Some(t),
        id != regs_after.gpr@[7] ==> a.kernel_assist.file(id) == b.kernel_assist.file(id),
        b.kernel_assist.assist().quota(regs.gpr@[8]) >= d.bytes().len(),
        a.kernel_assist.assist().quota(regs.gpr@[8]) + d.bytes().len()
            == b.kernel_assist.assist().quota(regs.gpr@[8]),
        id != regs.gpr@[8] ==> a.kernel_assist.assist().quota(id)
            == b.kernel_assist.assist().quota(id),
        forall|k: int|
            0 <= k < regs.gpr@.len() && k != 7 ==> #[trigger] regs_after.gpr@[k] == regs.gpr@[k],
{
    lemma_named(regs.gpr@[7]);
    lemma_runs(b.stack@, p);
}

/// Opening a file puts its data into the slot that register 8 names: under the hash that
/// it has, or, where it was live, published under its own hash and live no longer.
pub proof fn law_opened_file_is_placed<K: KernelAssist, H: Fn(&Cap) -> CapHash>(
    b: Vm<K>,
    a: Vm<K>,
    regs: Regs,
    cache: &CacheDirectory<H>,
    cache_after: &CacheDirectory<H>,
    r: Result<(), VmError>,
    p: int,
    t: CapHashOrRef,
    d: DataCap,
)
    requires
        crate::ecall::cached::file_open_post(b, a, regs, cache, cache_after, r),
        runs(b.stack@, p),
        b.kernel_assist.file(regs.gpr@[7]) == Some(t),
        cache.at(t) == Some(Cap::Data(d)),
        !is_pinned(b.stack@, p, named(regs.gpr@[8])),
        named(regs.gpr@[8]) < table(b.stack@, p).len(),
    ensures
        r is Ok,
        table(a.stack@, p)[named(regs.gpr@[8])] matches Some(CapHashOrRef::Hash(h)) && {
            &&& placed_at(
                b.stack@,
                a.stack@,
                p,
                named(regs.gpr@[8]),
                CapHashOrRef::Hash(h),
                r,
            )
            &&& cache_after.blobs().contains_key(h)
            &&& cache_after.blobs()[h] == Cap::Data(d)
            &&& t matches CapHashOrRef::Hash(x) ==> h == x && cache_after.same(cache)
            &&& t matches CapHashOrRef::Ref(x) ==> cache.addresses(Cap::Data(d), h)
                && !cache_after.live().contains_key(x.0)
        },
{
    lemma_named(regs.gpr@[8]);
    match t {
        CapHashOrRef::Hash(x) => {
            lemma_placed(b.stack@, a.stack@, p, regs.gpr@[8], t, r);
        },
        CapHashOrRef::Ref(live) => {
            let h = choose|h: CapHash|
                {
                    &&& #[trigger] cache.addresses(Cap::Data(d), h)
                    &&& cache_after.blobs() == cache.blobs().insert(h, Cap::Data(d))
                    &&& cache_after.live() == cache.live().remove(live.0)
                    &&& cache_after.hasher() == cache.hasher()
                    &&& place_post(
                        b.stack@,
                        a.stack@,
                        crate::cap::slot_of_reg(regs.gpr@[8]),
                        CapHashOrRef::Hash(h),
                        r,
                    )
                };
            lemma_placed(b.stack@, a.stack@, p, regs.gpr@[8], CapHashOrRef::Hash(h), r);
        },
    }
}

/// Whether `tables` are the cap tables that a path goes through.
pub open spec fn path_through<H: Fn(&Cap) -> CapHash>(
    cache: &CacheDirectory<H>,
    tables: Seq<Seq<Option<CapHashOrRef>>>,
    steps: Seq<SlotIdx>,
) -> bool {
    &&& tables.len() == steps.len()
    &&& forall|i: int|
        0 <= i < steps.len() - 1 ==> {
            &&& (#[trigger] steps[i]).0 < tables[i].len()
            &&& tables[i][steps[i].0 as int] matches Some(t)
            &&& cache.at(t) matches Some(Cap::CNode(c))
            &&& c.slots@ == tables[i + 1]
        }
}

/// A path through cnodes leads to what its last slot holds in the last of them.
pub proof fn law_path_leads_to_its_last_slot<H: Fn(&Cap) -> CapHash>(
    cache: &CacheDirectory<H>,
    tables: Seq<Seq<Option<CapHashOrRef>>>,
    steps: Seq<SlotIdx>,
)
    requires
        steps.len() > 0,
        path_through(cache, tables, steps),
    ensures
        steps.last().0 < tables.last().len() ==> crate::frame::resolve_path(
            cache,
            tables[0],
            steps,
        ) == Ok::<Option<CapHashOrRef>, VmError>(tables.last()[steps.last().0 as int]),
        steps.last().0 >= tables.last().len() ==> crate::frame::resolve_path(
            cache,
            tables[0],
            steps,
        ) == Ok::<Option<CapHashOrRef>, VmError>(None),
    decreases steps.len(),
{
    if steps.len() > 1 {
        let rest = steps.drop_first();
        let below = tables.drop_first();
        assert(steps[0] == steps.first());
        assert forall|i: int| 0 <= i < rest.len() - 1 implies {
            &&& (#[trigger] rest[i]).0 < below[i].len()
            &&& below[i][rest[i].0 as int] matches Some(t)
            &&& cache.at(t) matches Some(Cap::CNode(c))
            &&& c.slots@ == below[i + 1]
        } by {
            assert(rest[i] == steps[i + 1]);
        }
        law_path_leads_to_its_last_slot(cache, below, rest);
        assert(rest.last() == steps.last());
        assert(below.last() == tables.last());
        assert(below[0] == tables[1]);
    }
}

/// A path stops at the first step that does not hold a cnode: with an empty slot, or
/// with a slot of another kind.
pub proof fn law_path_stops_at_a_dead_end<H: Fn(&Cap) -> CapHash>(
    cache: &CacheDirectory<H>,
    tables: Seq<Seq<Option<CapHashOrRef>>>,
    steps: Seq<SlotIdx>,
    n: int,
)
    requires
        0 < n < steps.len(),
        path_through(cache, tables, steps.take(n)),
        steps[n - 1].0 < tables[n - 1].len(),
        tables[n - 1][steps[n - 1].0 as int] matches Some(t) ==> !(cache.at(t) matches Some(
            Cap::CNode(_),
        )),
    ensures
        crate::frame::resolve_path(cache, tables[0], steps) == Err::<
            Option<CapHashOrRef>,
            VmError,
        >(
            if tables[n - 1][steps[n - 1].0 as int] is None {
                VmError::SlotEmpty(steps[n - 1].0)
            } else {
                VmError::SlotKindMismatch(steps[n - 1].0)
            },
        ),
    decreases n,
{
    assert(steps[0] == steps.first());
    if n > 1 {
        let rest = steps.drop_first();
        let below = tables.drop_first();
        let path = steps.take(n);
        assert(path[0] == steps[0]);
        assert forall|i: int| 0 <= i < rest.take(n - 1).len() - 1 implies {
            &&& (#[trigger] rest.take(n - 1)[i]).0 < below[i].len()
            &&& below[i][rest.take(n - 1)[i].0 as int] matches Some(t)
            &&& cache.at(t) matches Some(Cap::CNode(c))
            &&& c.slots@ == below[i + 1]
        } by {
            assert(rest.take(n - 1)[i] == path[i + 1]);
        }
        law_path_stops_at_a_dead_end(cache, below, rest, n - 1);
        assert(below[0] == tables[1]);
        assert(below[n - 2] == tables[n - 1]);
        assert(rest[n - 2] == steps[n - 1]);
    }
}

/// What a slot that must hold a published cap is refused with.
pub open spec fn hash_refusal(s: Seq<Entry>, p: int, slot: int) -> Option<VmError> {
    if slot >= table(s, p).len() || table(s, p)[slot] is None {
        Some(VmError::SlotEmpty(slot as u32))
    } else if table(s, p)[slot]->0 is Ref {
        Some(VmError::SlotKindMismatch(slot as u32))
    } else {
        None
    }
}

/// A yield is refused, and changes nothing, where its slot does not hold a published
/// cap, where no entry below catches it, and where the stack is full.
pub proof fn law_refused_yield_changes_nothing<K: KernelAssist>(
    b: Vm<K>,
    a: Vm<K>,
    regs: Regs,
    r: Result<EcallResult, VmError>,
    p: int,
    m: CapHash,
)
    requires
        crate::ecall::host_yield_post(b, a, regs, r),
        runs(b.stack@, p),
        b.stack@.len() <= usize::MAX,
    ensures
        r is Err ==> a.stack@ == b.stack@,
        hash_refusal(b.stack@, p, named(regs.gpr@[7])) matches Some(e) ==> r == Err::<
            EcallResult,
            VmError,
        >(e),
        hash_refusal(b.stack@, p, named(regs.gpr@[7])) is None && table(
            b.stack@,
            p,
        )[named(regs.gpr@[7])] == Some(CapHashOrRef::Hash(m)) ==> {
            let caught = exists|q: int|
                0 <= q < b.stack@.len() - 1 && crate::vm_laws::holds_marker(
                    #[trigger] b.stack@[q],
                    b.kernel_assist.assist(),
                    m,
                );
            &&& !caught ==> r == Err::<EcallResult, VmError>(VmError::UnhandledMarker)
            &&& caught && b.stack@.len() >= b.stack.max_depth() ==> r == Err::<
                EcallResult,
                VmError,
            >(VmError::CallStackFull)
            &&& caught && b.stack@.len() < b.stack.max_depth() ==> r is Ok
        },
{
    let s = b.stack@;
    lemma_named(regs.gpr@[7]);
    lemma_runs(s, p);
    crate::ecall::law_yield_goes_to_nearest_catcher(
        s,
        b.kernel_assist.assist(),
        m,
        s.len() - 1,
    );
    assert forall|q: int| 0 <= q < s.len() implies crate::vm_laws::holds_marker(
        #[trigger] s[q],
        b.kernel_assist.assist(),
        m,
    ) == crate::vm::catches(s[q], b.kernel_assist.assist(), m) by {
    }
}

/// A spawn is refused where one of its slots does not hold a published cap, where the
/// first is not of an image, or the second not of a cnode, and where the prepared slots
/// hold a live cap; it then changes nothing and publishes nothing.
pub proof fn law_refused_spawn_changes_nothing<K, H: Fn(&Cap) -> CapHash>(
    b: Vm<K>,
    a: Vm<K>,
    regs: Regs,
    cache: &CacheDirectory<H>,
    cache_after: &CacheDirectory<H>,
    r: Result<(), VmError>,
    p: int,
)
    requires
        derive_spawn_cached_post(b, a, regs, cache, cache_after, r),
        runs(b.stack@, p),
    ensures
        ({
            let x = named(regs.gpr@[7]);
            let y = named(regs.gpr@[8]);
            let first = hash_refusal(b.stack@, p, x);
            let second = hash_refusal(b.stack@, p, y);
            &&& first matches Some(e) ==> r == Err::<(), VmError>(e)
            &&& first is None && second is Some ==> r == Err::<(), VmError>(second->0)
            &&& first is None && second is None ==> {
                let image = table(b.stack@, p)[x]->0;
                let prepared = table(b.stack@, p)[y]->0;
                &&& !(cache.at(image) matches Some(Cap::Image(_))) ==> r == Err::<(), VmError>(
                    VmError::ImageNotFound,
                )
                &&& (cache.at(image) matches Some(Cap::Image(_))) && cache.at(prepared) is None
                    ==> r == Err::<(), VmError>(
                    VmError::Invariant("derive_spawn: prepared cnode missing"),
                )
            }
            &&& first is Some || second is Some || !(cache.at(table(b.stack@, p)[x]->0) matches Some(
                Cap::Image(_),
            )) || !(cache.at(table(b.stack@, p)[y]->0) matches Some(Cap::CNode(_))) ==> {
                &&& r is Err
                &&& a.stack@ == b.stack@
                &&& cache_after.same(cache)
            }
        }),
{
    lemma_named(regs.gpr@[7]);
    lemma_named(regs.gpr@[8]);
    lemma_runs(b.stack@, p);
}

/// A call is refused, and changes nothing, where its slot is empty or does not hold an
/// instance; it is refused where the callee has no such endpoint, and where the stack
/// is full.
pub proof fn law_refused_call_enters_nothing<K, H: Fn(&Cap) -> CapHash>(
    b: Vm<K>,
    a: Vm<K>,
    regs: Regs,
    cache: &CacheDirectory<H>,
    r: Result<(), VmError>,
    p: int,
)
    requires
        call_post(b, a, regs, cache, r),
        runs(b.stack@, p),
    ensures
        r is Err ==> a.stack@.len() == b.stack@.len(),
        ({
            let x = named(regs.gpr@[7]);
            let t = table(b.stack@, p);
            let empty = x >= t.len() || t[x] is None;
            &&& empty ==> r == Err::<(), VmError>(VmError::SlotEmpty(x as u32)) && a.stack@
                == b.stack@
            &&& !empty && !(cache.at(t[x]->0) matches Some(Cap::Instance(_))) ==> r == Err::<
                (),
                VmError,
            >(VmError::InstanceNotFound) && a.stack@ == b.stack@
            &&& !empty ==> (cache.at(t[x]->0) matches Some(Cap::Instance(i)) ==> {
                &&& !(cache.at(CapHashOrRef::Hash(i.image_hash)) matches Some(Cap::Image(_)))
                    ==> r == Err::<(), VmError>(VmError::ImageNotFound)
                &&& cache.at(CapHashOrRef::Hash(i.image_hash)) matches Some(Cap::Image(img)) ==> (
                named(regs.gpr@[8]) >= img.endpoints@.len() ==> r is Err)
                &&& b.stack@.len() >= b.stack.max_depth() ==> r is Err
            })
        }),
{
    lemma_named(regs.gpr@[7]);
    lemma_named(regs.gpr@[8]);
    lemma_runs(b.stack@, p);
}

/// Making data is refused, and changes nothing, where the memory is not mapped and where
/// the quota is smaller than the pages.
pub proof fn law_refused_data_costs_nothing<K: KernelAssist, H: Fn(&Cap) -> CapHash>(
    b: Vm<K>,
    a: Vm<K>,
    regs: Regs,
    mem: Mem,
    cache: &CacheDirectory<H>,
    cache_after: &CacheDirectory<H>,
    r: Result<(), VmError>,
)
    requires
        mint_data_post(b, a, regs, mem, cache, cache_after, r),
        regs.gpr@[7] <= u32::MAX,
    ensures
        !mem.readable(regs.gpr@[7] as int, regs.gpr@[8] as nat)
            || b.kernel_assist.assist().quota(regs.gpr@[9]) < page_round_up(regs.gpr@[8] as int)
            ==> {
            &&& r is Err
            &&& a.stack@ == b.stack@
            &&& a.kernel_assist == b.kernel_assist
            &&& cache_after.same(cache)
        },
{
    assert(regs.gpr@[7] as u32 == regs.gpr@[7]);
    crate::vm_laws::law_round_up_is_the_next_page(regs.gpr@[8] as int);
}

proof fn lemma_fill_succeeds(
    slots: Seq<Option<CapHashOrRef>>,
    entries: Seq<SlotCap>,
    only_empty: bool,
)
    requires
        forall|i: int|
            0 <= i < entries.len() ==> (#[trigger] entries[i]).slot.0 < slots.len(),
    ensures
        fill_slots(slots, entries, only_empty).1 is Ok,
        fill_slots(slots, entries, only_empty).0.len() == slots.len(),
        (forall|i: int|
            0 <= i < slots.len() ==> !(#[trigger] slots[i] matches Some(CapHashOrRef::Ref(_))))
            ==> forall|i: int|
            0 <= i < slots.len() ==> !(#[trigger] fill_slots(
                slots,
                entries,
                only_empty,
            ).0[i] matches Some(CapHashOrRef::Ref(_))),
    decreases entries.len(),
{
    if entries.len() > 0 {
        let rest = entries.drop_last();
        assert forall|i: int| 0 <= i < rest.len() implies (#[trigger] rest[i]).slot.0
            < slots.len() by {
            assert(rest[i] == entries[i]);
        }
        lemma_fill_succeeds(slots, rest, only_empty);
        assert(entries[entries.len() - 1].slot.0 < slots.len());
    }
}

/// A spawn succeeds where both of its slots hold what they should, the image names no
/// slot that the prepared cnode does not have, no prepared slot holds a live cap, and
/// the slot for the instance may be written.
pub proof fn law_spawn_succeeds<K, H: Fn(&Cap) -> CapHash>(
    b: Vm<K>,
    a: Vm<K>,
    regs: Regs,
    cache: &CacheDirectory<H>,
    cache_after: &CacheDirectory<H>,
    r: Result<(), VmError>,
    p: int,
    image: CapHash,
    img: ImageCap,
    prepared: CapHash,
    prep: CNodeCap,
)
    requires
        derive_spawn_cached_post(b, a, regs, cache, cache_after, r),
        runs(b.stack@, p),
        named(regs.gpr@[7]) < table(b.stack@, p).len(),
        named(regs.gpr@[8]) < table(b.stack@, p).len(),
        named(regs.gpr@[9]) < table(b.stack@, p).len(),
        !is_pinned(b.stack@, p, named(regs.gpr@[9])),
        table(b.stack@, p)[named(regs.gpr@[7])] == Some(CapHashOrRef::Hash(image)),
        table(b.stack@, p)[named(regs.gpr@[8])] == Some(CapHashOrRef::Hash(prepared)),
        cache.at(CapHashOrRef::Hash(image)) == Some(Cap::Image(img)),
        cache.at(CapHashOrRef::Hash(prepared)) == Some(Cap::CNode(prep)),
        forall|i: int|
            0 <= i < img.pinned@.len() ==> (#[trigger] img.pinned@[i]).slot.0 < prep.slots@.len(),
        forall|i: int|
            0 <= i < img.initial@.len() ==> (#[trigger] img.initial@[i]).slot.0
                < prep.slots@.len(),
        forall|i: int|
            0 <= i < prep.slots@.len() ==> !(#[trigger] prep.slots@[i] matches Some(
                CapHashOrRef::Ref(_),
            )),
    ensures
        r is Ok,
{
    let s = b.stack@;
    lemma_named(regs.gpr@[7]);
    lemma_named(regs.gpr@[8]);
    lemma_named(regs.gpr@[9]);
    lemma_runs(s, p);
    lemma_pinned(s, p, crate::cap::slot_of_reg(regs.gpr@[9]));
    lemma_fill_succeeds(prep.slots@, img.pinned@, false);
    let pinned = fill_slots(prep.slots@, img.pinned@, false).0;
    lemma_fill_succeeds(pinned, img.initial@, true);
    let plan = crate::ecall::cached::spawn_plan(s, cache, regs)->Ok_0;
    assert forall|i: int| 0 <= i < plan.3.len() implies !(#[trigger] plan.3[i] matches Some(
        CapHashOrRef::Ref(_),
    )) by {
        assert(plan.3[i] == fill_slots(pinned, img.initial@, true).0[i]);
    }
}

/// A call succeeds where its slot holds an instance that can be entered at the endpoint
/// and there is room on the stack.
pub proof fn law_call_succeeds<K, H: Fn(&Cap) -> CapHash>(
    b: Vm<K>,
    a: Vm<K>,
    regs: Regs,
    cache: &CacheDirectory<H>,
    r: Result<(), VmError>,
    p: int,
    t: CapHashOrRef,
    inst: InstanceCap,
    img: ImageCap,
    cn: CNodeCap,
)
    requires
        call_post(b, a, regs, cache, r),
        runs(b.stack@, p),
        b.stack@.len() < b.stack.max_depth(),
        named(regs.gpr@[7]) < table(b.stack@, p).len(),
        table(b.stack@, p)[named(regs.gpr@[7])] == Some(t),
        cache.at(t) == Some(Cap::Instance(inst)),
        cache.at(CapHashOrRef::Hash(inst.image_hash)) == Some(Cap::Image(img)),
        cache.at(inst.root_cnode) == Some(Cap::CNode(cn)),
        cn.slots@.len() > 0,
        named(regs.gpr@[8]) < img.endpoints@.len(),
        forall|i: int|
            0 <= i < inst.rw_overlays@.len() ==> (#[trigger] inst.rw_overlays@[i]).start % 4096 == 0
                && inst.rw_overlays@[i].start + page_round_up(
                inst.rw_overlays@[i].bytes@.len() as int,
            ) <= 0x1_0000_0000,
    ensures
        r is Ok,
        a.stack@.len() == b.stack@.len() + 1,
{
    lemma_named(regs.gpr@[7]);
    lemma_named(regs.gpr@[8]);
    lemma_runs(b.stack@, p);
    lemma_overlays_fit(inst.rw_overlays@);
}

proof fn lemma_overlays_fit(overlays: Seq<Overlay>)
    requires
        forall|i: int|
            0 <= i < overlays.len() ==> (#[trigger] overlays[i]).start % 4096 == 0
                && overlays[i].start + page_round_up(overlays[i].bytes@.len() as int)
                <= 0x1_0000_0000,
    ensures
        crate::vm::overlays_check(overlays) is Ok,
    decreases overlays.len(),
{
    if overlays.len() > 0 {
        let rest = overlays.drop_last();
        assert forall|i: int| 0 <= i < rest.len() implies (#[trigger] rest[i]).start % 4096 == 0
            && rest[i].start + page_round_up(rest[i].bytes@.len() as int) <= 0x1_0000_0000 by {
            assert(rest[i] == overlays[i]);
        }
        lemma_overlays_fit(rest);
        assert(overlays[overlays.len() - 1].start % 4096 == 0);
    }
}

/// Data is made where the memory is mapped, the quota is enough and the slot may be
/// written.
pub proof fn law_data_is_made<K: KernelAssist, H: Fn(&Cap) -> CapHash>(
    b: Vm<K>,
    a: Vm<K>,
    regs: Regs,
    mem: Mem,
    cache: &CacheDirectory<H>,
    cache_after: &CacheDirectory<H>,
    r: Result<(), VmError>,
    p: int,
)
    requires
        mint_data_post(b, a, regs, mem, cache, cache_after, r),
        runs(b.stack@, p),
        regs.gpr@[7] <= u32::MAX,
        mem.readable(regs.gpr@[7] as int, regs.gpr@[8] as nat),
        b.kernel_assist.assist().quota(regs.gpr@[9]) >= page_round_up(regs.gpr@[8] as int),
        !is_pinned(b.stack@, p, named(regs.gpr@[10])),
        named(regs.gpr@[10]) < table(b.stack@, p).len(),
    ensures
        r is Ok,
{
    lemma_named(regs.gpr@[10]);
    assert(regs.gpr@[7] as u32 == regs.gpr@[7]);
    crate::vm_laws::law_round_up_is_the_next_page(regs.gpr@[8] as int);
    let content = crate::ecall::cached::page_padded(
        crate::vm::mem_bytes(mem, regs.gpr@[7] as int, regs.gpr@[8] as nat),
    );
    let (d, h) = choose|d: DataCap, h: CapHash|
        {
            &&& d.content is Inline
            &&& d.bytes() == content
            &&& #[trigger] cache.addresses(Cap::Data(d), h)
            &&& cache_after.published(cache, Cap::Data(d), h)
            &&& place_post(
                b.stack@,
                a.stack@,
                crate::cap::slot_of_reg(regs.gpr@[10]),
                CapHashOrRef::Hash(h),
                r,
            )
        };
    lemma_placed(b.stack@, a.stack@, p, regs.gpr@[10], CapHashOrRef::Hash(h), r);
}

} // verus!
