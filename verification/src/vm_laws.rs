//! What a caller of the VM driver can count on across its steps.
use vstd::prelude::*;

use crate::cache::CacheDirectory;
use crate::callstack::{Entry, EntryStatus, InstanceEntry};
use crate::cap::{Cap, CapHashOrRef, ImageCap, MemoryMapping, Overlay, NUM_REGS};
use crate::ecall::host_op::{HOST_CALL, HOST_YIELD};
use crate::ecall::host_yield_post;
use crate::error::VmError;
use crate::exec::{EcallResult, ExitReason, Regs};
use crate::hash::CapHash;
use crate::kernel_assist::{AssistView, KernelAssist};
use crate::mem::{page_round_up, Cell, Mem};
use crate::vm::{
    drive_post, entry_cell, memory_snapshot, overlay_cells, overlay_values, resume_post,
    settle_post, CallResult, DriveStep, RunOutcome, RunRequest, Vm,
};

verus! {

/// Laying a snapshot down again gives back each byte that one mapping alone holds.
proof fn lemma_snapshot_reads_back(
    mem: Mem,
    mappings: Seq<MemoryMapping>,
    overlays: Seq<Overlay>,
    base: Option<Cell>,
    j: int,
    a: int,
)
    requires
        overlay_values(overlays) == memory_snapshot(mem, mappings),
        forall|k: int| 0 <= k < mappings.len() ==> (#[trigger] mappings[k]).start <= u32::MAX,
        0 <= j < mappings.len(),
        mappings[j].start <= a < mappings[j].start + mappings[j].size,
        mem.readable(mappings[j].start as int, mappings[j].size as nat),
        forall|k: int|
            0 <= k < mappings.len() && k != j ==> !((#[trigger] mappings[k]).start <= a
                < mappings[k].start + page_round_up(mappings[k].size as int)),
    ensures
        overlay_cells(overlays, base, a) is Some,
        overlay_cells(overlays, base, a)->0.byte == mem.cell(a)->0.byte,
    decreases mappings.len(),
{
    let rest = mappings.drop_last();
    let m = mappings.last();
    assert(m == mappings[mappings.len() - 1]);
    assert(m.start as u32 == m.start);
    if mem.readable(m.start as int, m.size as nat) {
        let snap = memory_snapshot(mem, mappings);
        assert(overlays.len() == snap.len());
        assert(overlay_values(overlays).last() == snap.last());
        assert(snap.drop_last() =~= memory_snapshot(mem, rest));
        assert(overlay_values(overlays.drop_last()) =~= snap.drop_last());
        let o = overlays.last();
        assert(o.start == m.start);
        assert(o.bytes@.len() == m.size);
        if j == mappings.len() - 1 {
            assert(o.bytes@[a - o.start] == mem.cell(a)->0.byte);
        } else {
            assert(rest[j] == mappings[j]);
            lemma_snapshot_reads_back(mem, rest, overlays.drop_last(), base, j, a);
        }
    } else {
        assert(rest[j] == mappings[j]);
        lemma_snapshot_reads_back(mem, rest, overlays, base, j, a);
    }
}

/// A snapshot leaves what lies outside of every mapping as it is.
proof fn lemma_snapshot_stays_inside(
    mem: Mem,
    mappings: Seq<MemoryMapping>,
    overlays: Seq<Overlay>,
    base: Option<Cell>,
    a: int,
)
    requires
        overlay_values(overlays) == memory_snapshot(mem, mappings),
        forall|k: int| 0 <= k < mappings.len() ==> (#[trigger] mappings[k]).start <= u32::MAX,
        forall|k: int|
            0 <= k < mappings.len() ==> !((#[trigger] mappings[k]).start <= a < mappings[k].start
                + page_round_up(mappings[k].size as int)),
    ensures
        overlay_cells(overlays, base, a) == base,
    decreases mappings.len(),
{
    if mappings.len() > 0 {
        let rest = mappings.drop_last();
        let m = mappings.last();
        assert(m == mappings[mappings.len() - 1]);
        assert(m.start as u32 == m.start);
        if mem.readable(m.start as int, m.size as nat) {
            let snap = memory_snapshot(mem, mappings);
            assert(overlays.len() == snap.len());
            assert(overlay_values(overlays).last() == snap.last());
            assert(snap.drop_last() =~= memory_snapshot(mem, rest));
            assert(overlay_values(overlays.drop_last()) =~= snap.drop_last());
            assert(overlays.last().bytes@.len() == m.size);
            lemma_snapshot_stays_inside(mem, rest, overlays.drop_last(), base, a);
        } else {
            lemma_snapshot_stays_inside(mem, rest, overlays, base, a);
        }
    } else {
        assert(overlay_values(overlays).len() == 0);
    }
}

/// A round-up to pages is the least multiple of the page size that is not smaller.
pub proof fn law_round_up_is_the_next_page(n: int)
    requires
        n >= 0,
    ensures
        page_round_up(n) % 4096 == 0,
        n <= page_round_up(n) < n + 4096,
{
}

/// An instance that is settled and entered again has the memory that it was left
/// with: a mapping that was mapped, and that no other mapping reaches into, reads
/// byte by byte as before.
pub proof fn law_settled_memory_comes_back<H: Fn(&Cap) -> CapHash>(
    entry: InstanceEntry,
    before: &CacheDirectory<H>,
    after: &CacheDirectory<H>,
    r: Result<CapHash, VmError>,
    img: ImageCap,
    j: int,
    a: int,
)
    requires
        settle_post(entry, before, after, r),
        r is Ok,
        before.at(CapHashOrRef::Hash(entry.image_hash)) == Some(Cap::Image(img)),
        forall|k: int|
            0 <= k < img.mappings@.len() ==> (#[trigger] img.mappings@[k]).start <= u32::MAX,
        0 <= j < img.mappings@.len(),
        img.mappings@[j].start <= a < img.mappings@[j].start + img.mappings@[j].size,
        entry.mem.readable(img.mappings@[j].start as int, img.mappings@[j].size as nat),
        forall|k: int|
            0 <= k < img.mappings@.len() && k != j ==> !((#[trigger] img.mappings@[k]).start <= a
                < img.mappings@[k].start + page_round_up(img.mappings@[k].size as int)),
    ensures
        after.blobs().contains_key(r->Ok_0),
        after.blobs()[r->Ok_0] matches Cap::Instance(i) && {
            &&& entry_cell(i, a) is Some
            &&& entry_cell(i, a)->0.byte == entry.mem.cell(a)->0.byte
        },
{
    if let Cap::Instance(i) = after.blobs()[r->Ok_0] {
        let base = if 0 <= a < page_round_up(i.mem_size as int) {
            Some(Cell { access: crate::mem::Access::ReadWrite, byte: 0 })
        } else {
            None
        };
        lemma_snapshot_reads_back(entry.mem, img.mappings@, i.rw_overlays@, base, j, a);
    }
}

/// Outside of every mapping a settled instance has zeros, up to the end of its
/// last mapping.
pub proof fn law_settled_memory_is_zero_outside<H: Fn(&Cap) -> CapHash>(
    entry: InstanceEntry,
    before: &CacheDirectory<H>,
    after: &CacheDirectory<H>,
    r: Result<CapHash, VmError>,
    img: ImageCap,
    a: int,
)
    requires
        settle_post(entry, before, after, r),
        r is Ok,
        before.at(CapHashOrRef::Hash(entry.image_hash)) == Some(Cap::Image(img)),
        forall|k: int|
            0 <= k < img.mappings@.len() ==> (#[trigger] img.mappings@[k]).start <= u32::MAX,
        img.mappings@.len() > 0,
        img.mappings@.last().start + img.mappings@.last().size <= u32::MAX,
        forall|k: int|
            0 <= k < img.mappings@.len() ==> !((#[trigger] img.mappings@[k]).start <= a
                < img.mappings@[k].start + page_round_up(img.mappings@[k].size as int)),
        0 <= a,
    ensures
        after.blobs()[r->Ok_0] matches Cap::Instance(i) && {
            &&& a < img.mappings@.last().start + img.mappings@.last().size ==> entry_cell(i, a)
                == Some(Cell { access: crate::mem::Access::ReadWrite, byte: 0 })
            &&& a >= img.mappings@.last().start + img.mappings@.last().size + 4096 ==> entry_cell(
                i,
                a,
            ) is None
        },
{
    if let Cap::Instance(i) = after.blobs()[r->Ok_0] {
        let base = if 0 <= a < page_round_up(i.mem_size as int) {
            Some(Cell { access: crate::mem::Access::ReadWrite, byte: 0 })
        } else {
            None
        };
        lemma_snapshot_stays_inside(entry.mem, img.mappings@, i.rw_overlays@, base, a);
        law_round_up_is_the_next_page(i.mem_size as int);
    }
}

/// Settling publishes the instance with the registers, program counter, gas, image
/// and type of the entry, and under its root the very slots of the entry.
pub proof fn law_settled_instance_is_the_entry<H: Fn(&Cap) -> CapHash>(
    entry: InstanceEntry,
    before: &CacheDirectory<H>,
    after: &CacheDirectory<H>,
    r: Result<CapHash, VmError>,
)
    requires
        settle_post(entry, before, after, r),
        r is Ok,
    ensures
        after.blobs()[r->Ok_0] matches Cap::Instance(i) && {
            &&& before.addresses(Cap::Instance(i), r->Ok_0)
            &&& forall|k: int|
                0 <= k < NUM_REGS ==> (#[trigger] i.regs@[k]) == entry.regs.gpr@[k]
            &&& i.pc == entry.regs.pc
            &&& i.gas_remaining == entry.gas.left
            &&& i.image_hash == entry.image_hash
            &&& i.image_hash_chain == entry.image_hash_chain
            &&& i.root_cnode is Hash
            &&& i.root_cnode->Hash_0 != r->Ok_0 ==> (after.at(i.root_cnode) matches Some(
                Cap::CNode(c),
            ) && c.slots@ == entry.root_cnode.slots@ && c.size_log == entry.root_cnode.size_log)
        },
{
}

/// A yield that was routed ends the drive: its caller gets the very marker that the
/// yield named and the gas used so far, the yielder keeps its state, and what runs
/// next is the nearest entry below that catches the marker.
pub proof fn law_yield_pauses_with_its_marker<K: KernelAssist, H: Fn(&Cap) -> CapHash>(
    b: Vm<K>,
    a: Vm<K>,
    regs: Regs,
    y: Result<EcallResult, VmError>,
    m: CapHash,
    after: Seq<Entry>,
    base: usize,
    run: RunOutcome,
    cache: &CacheDirectory<H>,
    cache_after: &CacheDirectory<H>,
    r: Result<DriveStep, VmError>,
)
    requires
        host_yield_post(b, a, regs, y),
        y is Ok,
        b.stack@.len() == run.position + 1,
        b.stack@.last() is Instance,
        regs.gpr@[7] % 256 < b.stack@.last()->Instance_0.root_cnode.slots@.len(),
        b.stack@.last()->Instance_0.root_cnode.slots@[(regs.gpr@[7] % 256) as int] == Some(
            CapHashOrRef::Hash(m),
        ),
        run.regs == regs,
        y == Ok::<EcallResult, VmError>(EcallResult::Exit(run.exit)),
        drive_post(
            a.stack@,
            a.stack.max_depth(),
            a.kernel_assist.assist(),
            after,
            base,
            run,
            cache,
            cache_after,
            r,
        ),
    ensures
        r matches Ok(DriveStep::Done(CallResult::Paused { marker_payload, gas_used })) && {
            &&& marker_payload == Some(CapHashOrRef::Hash(m))
            &&& run.gas_initial >= run.gas.left ==> gas_used + run.gas.left == run.gas_initial
            &&& run.gas_initial < run.gas.left ==> gas_used == 0
        },
        run.exit == ExitReason::HostCall(HOST_YIELD),
        cache_after.same(cache),
        after.len() == b.stack@.len() + 1,
        after[run.position as int] is Instance,
        ({
            let kept = *after[run.position as int]->Instance_0;
            &&& kept.regs == run.regs
            &&& kept.mem == run.mem
            &&& kept.gas == run.gas
            &&& kept.status == EntryStatus::Waiting
            &&& kept.root_cnode == b.stack@.last()->Instance_0.root_cnode
        }),
        after.last() matches Entry::Reference(c) && {
            &&& c.status == EntryStatus::Running
            &&& c.target_position < run.position
            &&& holds_marker(
                b.stack@[c.target_position as int],
                b.kernel_assist.assist(),
                m,
            )
            &&& forall|q: int|
                c.target_position < q < run.position ==> !holds_marker(
                    #[trigger] b.stack@[q],
                    b.kernel_assist.assist(),
                    m,
                )
        },
{
    let reg = regs.gpr@[7];
    assert((reg & 0xFF) == reg % 256) by (bit_vector);
    assert((reg & 0xFF) <= 0xFF) by (bit_vector);
    assert((reg & 0xFF) as u32 == reg % 256);
    crate::ecall::law_yield_goes_to_nearest_catcher(
        b.stack@,
        b.kernel_assist.assist(),
        m,
        b.stack@.len() - 1,
    );
    assert forall|q: int| 0 <= q < b.stack@.len() implies holds_marker(
        #[trigger] b.stack@[q],
        b.kernel_assist.assist(),
        m,
    ) == crate::vm::catches(b.stack@[q], b.kernel_assist.assist(), m) by {
    }
}

/// Whether the catcher that an entry keeps in its declared slot has the marker.
pub open spec fn holds_marker(e: Entry, assist: AssistView, m: CapHash) -> bool {
    &&& e matches Entry::Instance(i)
    &&& i.yield_marker_slot matches Some(slot)
    &&& slot.0 < i.root_cnode.slots@.len()
    &&& i.root_cnode.slots@[slot.0 as int] matches Some(CapHashOrRef::Hash(catcher))
    &&& assist.markers(catcher).contains(m)
}

/// The reply of the first entry ends the invocation: its caller gets register 7,
/// what slot 0 held and the gas used, and the instance is published as the run left
/// it, with slot 0 empty and every other slot as it was.
pub proof fn law_reply_publishes_what_was_left<H: Fn(&Cap) -> CapHash>(
    s: Seq<Entry>,
    max_depth: usize,
    assist: AssistView,
    after: Seq<Entry>,
    base: usize,
    run: RunOutcome,
    cache: &CacheDirectory<H>,
    cache_after: &CacheDirectory<H>,
    r: Result<DriveStep, VmError>,
)
    requires
        drive_post(s, max_depth, assist, after, base, run, cache, cache_after, r),
        run.exit == ExitReason::Halt,
        run.position == base,
        s.len() == run.position + 1,
        s.last() is Instance,
        r is Ok,
    ensures
        after.len() == s.len() - 1,
        forall|q: int| 0 <= q < s.len() - 2 ==> #[trigger] after[q] == s[q],
        r matches Ok(
            DriveStep::Done(
                CallResult::Halt { return_value, post_instance_hash, reflected_slot0, gas_used },
            ),
        ) && {
            let slots = s.last()->Instance_0.root_cnode.slots@;
            &&& return_value == run.regs.gpr@[7]
            &&& slots.len() > 0 ==> reflected_slot0 == slots[0]
            &&& run.gas_initial >= run.gas.left ==> gas_used + run.gas.left == run.gas_initial
            &&& run.gas_initial < run.gas.left ==> gas_used == 0
            &&& cache_after.blobs()[post_instance_hash] matches Cap::Instance(i) && {
                &&& cache.addresses(Cap::Instance(i), post_instance_hash)
                &&& forall|k: int|
                    0 <= k < NUM_REGS ==> (#[trigger] i.regs@[k]) == run.regs.gpr@[k]
                &&& i.pc == run.regs.pc
                &&& i.gas_remaining == run.gas.left
                &&& i.image_hash == s.last()->Instance_0.image_hash
                &&& i.image_hash_chain == s.last()->Instance_0.image_hash_chain
                &&& i.root_cnode is Hash
                &&& i.root_cnode->Hash_0 != post_instance_hash ==> (cache_after.at(
                    i.root_cnode,
                ) matches Some(Cap::CNode(c)) && {
                    &&& c.slots@.len() == slots.len()
                    &&& slots.len() > 0 ==> c.slots@[0] is None
                    &&& forall|k: int|
                        1 <= k < slots.len() ==> (#[trigger] c.slots@[k]) == slots[k]
                })
            }
        },
{
    let top = *s.last()->Instance_0;
    let (e, settled) = choose|e: InstanceEntry, settled: Result<CapHash, VmError>|
        {
            &&& crate::vm::is_left_by(e, top, run)
            &&& #[trigger] settle_post(e, cache, cache_after, settled)
            &&& match settled {
                Err(err) => r == Err::<DriveStep, VmError>(err),
                Ok(hash) => r == Ok::<DriveStep, VmError>(
                    DriveStep::Done(
                        CallResult::Halt {
                            return_value: run.regs.gpr@[7],
                            post_instance_hash: hash,
                            reflected_slot0: top.root_cnode.at(crate::cap::SlotIdx(0)),
                            gas_used: crate::vm::gas_used_of(run),
                        },
                    ),
                ),
            }
        };
    law_settled_instance_is_the_entry(e, cache, cache_after, settled);
}

/// The memory of an invocation that replied comes back with the instance that it
/// published.
pub proof fn law_reply_keeps_memory<H: Fn(&Cap) -> CapHash>(
    s: Seq<Entry>,
    max_depth: usize,
    assist: AssistView,
    after: Seq<Entry>,
    base: usize,
    run: RunOutcome,
    cache: &CacheDirectory<H>,
    cache_after: &CacheDirectory<H>,
    r: Result<DriveStep, VmError>,
    img: ImageCap,
    j: int,
    a: int,
)
    requires
        drive_post(s, max_depth, assist, after, base, run, cache, cache_after, r),
        run.exit == ExitReason::Halt,
        run.position == base,
        s.len() == run.position + 1,
        s.last() is Instance,
        r is Ok,
        cache.at(CapHashOrRef::Hash(s.last()->Instance_0.image_hash)) == Some(Cap::Image(img)),
        forall|k: int|
            0 <= k < img.mappings@.len() ==> (#[trigger] img.mappings@[k]).start <= u32::MAX,
        0 <= j < img.mappings@.len(),
        img.mappings@[j].start <= a < img.mappings@[j].start + img.mappings@[j].size,
        run.mem.readable(img.mappings@[j].start as int, img.mappings@[j].size as nat),
        forall|k: int|
            0 <= k < img.mappings@.len() && k != j ==> !((#[trigger] img.mappings@[k]).start <= a
                < img.mappings@[k].start + page_round_up(img.mappings@[k].size as int)),
    ensures
        r matches Ok(DriveStep::Done(CallResult::Halt { post_instance_hash, .. }))
            && cache_after.blobs()[post_instance_hash] matches Cap::Instance(i)
            && entry_cell(i, a) is Some && entry_cell(i, a)->0.byte == run.mem.cell(a)->0.byte,
{
    let top = *s.last()->Instance_0;
    let (e, settled) = choose|e: InstanceEntry, settled: Result<CapHash, VmError>|
        {
            &&& crate::vm::is_left_by(e, top, run)
            &&& #[trigger] settle_post(e, cache, cache_after, settled)
            &&& match settled {
                Err(err) => r == Err::<DriveStep, VmError>(err),
                Ok(hash) => r == Ok::<DriveStep, VmError>(
                    DriveStep::Done(
                        CallResult::Halt {
                            return_value: run.regs.gpr@[7],
                            post_instance_hash: hash,
                            reflected_slot0: top.root_cnode.at(crate::cap::SlotIdx(0)),
                            gas_used: crate::vm::gas_used_of(run),
                        },
                    ),
                ),
            }
        };
    law_settled_memory_comes_back(e, cache, cache_after, settled, img, j, a);
}

/// A run that failed reports its own reason, slot 0 and the gas used, publishes
/// nothing and leaves the stack; the entries below the next one are untouched.
pub proof fn law_failed_run_is_reported<H: Fn(&Cap) -> CapHash>(
    s: Seq<Entry>,
    max_depth: usize,
    assist: AssistView,
    after: Seq<Entry>,
    base: usize,
    run: RunOutcome,
    cache: &CacheDirectory<H>,
    cache_after: &CacheDirectory<H>,
    r: Result<DriveStep, VmError>,
)
    requires
        drive_post(s, max_depth, assist, after, base, run, cache, cache_after, r),
        !(run.exit is Halt),
        !(run.exit is HostCall),
        !(run.exit is Ecall),
        s.len() <= usize::MAX,
        s.len() == run.position + 1,
        s.last() is Instance,
        run.exit is OutOfGas ==> s.len() >= max_depth || forall|q: int|
            0 <= q < run.position ==> !holds_marker(
                #[trigger] s[q],
                assist,
                crate::vm::oog_marker(),
            ),
    ensures
        after.len() == s.len() - 1,
        forall|q: int| 0 <= q < s.len() - 2 ==> #[trigger] after[q] == s[q],
        cache_after.same(cache),
        r matches Ok(
            DriveStep::Done(CallResult::Faulted { reason, reflected_slot0, gas_used }),
        ) && {
            let slots = s.last()->Instance_0.root_cnode.slots@;
            &&& reason == run.exit
            &&& slots.len() > 0 ==> reflected_slot0 == slots[0]
            &&& run.gas_initial >= run.gas.left ==> gas_used + run.gas.left == run.gas_initial
            &&& run.gas_initial < run.gas.left ==> gas_used == 0
        },
{
    if run.exit is OutOfGas {
        let m = crate::vm::oog_marker();
        crate::ecall::law_yield_goes_to_nearest_catcher(s, assist, m, run.position as int);
        assert forall|q: int| 0 <= q < s.len() implies holds_marker(#[trigger] s[q], assist, m)
            == crate::vm::catches(s[q], assist, m) by {
        }
    }
}

/// Running out of gas is a yield of the kernel's own marker: with room on the stack
/// and an entry below that catches it, the nearest such entry handles it and the
/// run's state is kept.
pub proof fn law_out_of_gas_is_a_yield<H: Fn(&Cap) -> CapHash>(
    s: Seq<Entry>,
    max_depth: usize,
    assist: AssistView,
    after: Seq<Entry>,
    base: usize,
    run: RunOutcome,
    cache: &CacheDirectory<H>,
    cache_after: &CacheDirectory<H>,
    r: Result<DriveStep, VmError>,
    c: int,
)
    requires
        drive_post(s, max_depth, assist, after, base, run, cache, cache_after, r),
        run.exit == ExitReason::OutOfGas,
        s.len() == run.position + 1,
        s.len() < max_depth,
        s.last() is Instance,
        0 <= c < run.position,
        holds_marker(s[c], assist, crate::vm::oog_marker()),
        forall|q: int|
            c < q < run.position ==> !holds_marker(
                #[trigger] s[q],
                assist,
                crate::vm::oog_marker(),
            ),
    ensures
        r matches Ok(DriveStep::Done(CallResult::Paused { marker_payload, gas_used })) && {
            &&& marker_payload == Some(CapHashOrRef::Hash(crate::vm::oog_marker()))
            &&& run.gas_initial >= run.gas.left ==> gas_used + run.gas.left == run.gas_initial
            &&& run.gas_initial < run.gas.left ==> gas_used == 0
        },
        cache_after.same(cache),
        after.len() == s.len() + 1,
        after[run.position as int] is Instance,
        ({
            let kept = *after[run.position as int]->Instance_0;
            &&& kept.regs == run.regs
            &&& kept.mem == run.mem
            &&& kept.gas == run.gas
            &&& kept.root_cnode == s.last()->Instance_0.root_cnode
        }),
        after.last() matches Entry::Reference(e) && e.target_position == c && e.status
            == EntryStatus::Running,
{
    let m = crate::vm::oog_marker();
    crate::ecall::law_yield_goes_to_nearest_catcher(s, assist, m, run.position as int);
    assert forall|q: int| 0 <= q < s.len() implies holds_marker(#[trigger] s[q], assist, m)
        == crate::vm::catches(s[q], assist, m) by {
    }
}

/// A call lets the callee run from its own registers and memory on the gas of the
/// caller, whose registers and memory wait for it.
pub proof fn law_call_runs_the_callee<H: Fn(&Cap) -> CapHash>(
    s: Seq<Entry>,
    max_depth: usize,
    assist: AssistView,
    after: Seq<Entry>,
    base: usize,
    run: RunOutcome,
    cache: &CacheDirectory<H>,
    cache_after: &CacheDirectory<H>,
    r: Result<DriveStep, VmError>,
)
    requires
        drive_post(s, max_depth, assist, after, base, run, cache, cache_after, r),
        run.exit == ExitReason::HostCall(HOST_CALL),
        s.len() == run.position + 2,
        s[run.position as int] is Instance,
        s.last() is Instance,
    ensures
        r matches Ok(DriveStep::Run(next)) && {
            let callee = *s.last()->Instance_0;
            &&& next.position == run.position + 1
            &&& next.program == callee.program
            &&& next.regs == callee.regs
            &&& next.mem == callee.mem
            &&& next.gas == run.gas
            &&& next.gas_initial == run.gas_initial
        },
        cache_after.same(cache),
        after.len() == s.len(),
        forall|q: int| 0 <= q < run.position ==> #[trigger] after[q] == s[q],
        after[run.position as int] matches Entry::Instance(w) && {
            &&& w.regs == run.regs
            &&& w.mem == run.mem
            &&& w.root_cnode == s[run.position as int]->Instance_0.root_cnode
        },
        after.last() matches Entry::Instance(t) && t.root_cnode
            == s.last()->Instance_0.root_cnode,
{
}

/// A callee that replied hands its slot 0 to its caller, which runs on from its own
/// registers and memory on the gas that is left, its other slots untouched.
pub proof fn law_reply_goes_back_to_the_caller<H: Fn(&Cap) -> CapHash>(
    s: Seq<Entry>,
    max_depth: usize,
    assist: AssistView,
    after: Seq<Entry>,
    base: usize,
    run: RunOutcome,
    cache: &CacheDirectory<H>,
    cache_after: &CacheDirectory<H>,
    r: Result<DriveStep, VmError>,
)
    requires
        drive_post(s, max_depth, assist, after, base, run, cache, cache_after, r),
        run.exit == ExitReason::Halt,
        base < run.position,
        s.len() == run.position + 1,
        s.last() is Instance,
        s[s.len() - 2] is Instance,
        s.last()->Instance_0.root_cnode.slots@.len() > 0,
        s[s.len() - 2]->Instance_0.root_cnode.slots@.len() > 0,
    ensures
        r matches Ok(DriveStep::Run(next)) && {
            let caller = *s[s.len() - 2]->Instance_0;
            &&& next.position == run.position - 1
            &&& next.program == caller.program
            &&& next.regs == caller.regs
            &&& next.mem == caller.mem
            &&& next.gas == run.gas
            &&& next.gas_initial == run.gas_initial
        },
        cache_after.same(cache),
        after.len() == s.len() - 1,
        forall|q: int| 0 <= q < s.len() - 2 ==> #[trigger] after[q] == s[q],
        after.last() matches Entry::Instance(now) && {
            let slots = s[s.len() - 2]->Instance_0.root_cnode.slots@;
            &&& now.status == EntryStatus::Running
            &&& now.root_cnode.slots@.len() == slots.len()
            &&& now.root_cnode.slots@[0] == s.last()->Instance_0.root_cnode.slots@[0]
            &&& forall|k: int|
                1 <= k < slots.len() ==> (#[trigger] now.root_cnode.slots@[k]) == slots[k]
        },
{
    assert(crate::callstack::popped(s).last() is Instance);
}

/// Resuming a yield puts the answer into slot 0 of the yielder, and nothing else
/// about its slots changes; it runs on from the state that it yielded with.
pub proof fn law_resume_answers_the_yielder(
    s: Seq<Entry>,
    after: Seq<Entry>,
    scratchpad: Option<CapHashOrRef>,
    r: Result<RunRequest, VmError>,
)
    requires
        resume_post(s, after, scratchpad, r),
        s.len() >= 2,
        s.last() is Reference,
        s[s.len() - 2] is Instance,
        s[s.len() - 2]->Instance_0.root_cnode.slots@.len() > 0,
    ensures
        after.len() == s.len() - 1,
        forall|q: int| 0 <= q < s.len() - 2 ==> #[trigger] after[q] == s[q],
        r matches Ok(next) && {
            let waiting = *s[s.len() - 2]->Instance_0;
            &&& next.position == s.len() - 2
            &&& next.program == waiting.program
            &&& next.regs == waiting.regs
            &&& next.mem == waiting.mem
            &&& next.gas == waiting.gas
            &&& next.gas_initial == waiting.gas.left
        },
        after.last() matches Entry::Instance(now) && {
            let slots = s[s.len() - 2]->Instance_0.root_cnode.slots@;
            &&& now.status == EntryStatus::Running
            &&& now.root_cnode.slots@.len() == slots.len()
            &&& now.root_cnode.slots@[0] == (if scratchpad is Some {
                scratchpad
            } else {
                slots[0]
            })
            &&& forall|k: int|
                1 <= k < slots.len() ==> (#[trigger] now.root_cnode.slots@[k]) == slots[k]
        },
{
    let below = crate::callstack::popped(s);
    assert(below.last() is Instance);
    assert(crate::callstack::running_position(below) == Some(s.len() - 2));
}

/// An invocation is entered where its endpoint says: with the arguments in registers
/// 7 to 10, in the other registers what the instance kept or else what the endpoint
/// gives, the memory and slots of the instance, and the gas handed in.
pub proof fn law_entry_starts_at_its_endpoint(
    b: crate::vm::BuiltEntry,
    inst_ref: CapHashOrRef,
    inst: crate::cap::InstanceCap,
    img: ImageCap,
    cn: crate::cap::CNodeCap,
    endpoint_idx: u8,
    args: Seq<u64>,
    gas_budget: u64,
)
    requires
        crate::vm::built_from(b, inst_ref, inst, img, cn, endpoint_idx, args, gas_budget),
        args.len() == 4,
    ensures
        b.regs.pc == img.endpoints@[endpoint_idx as int].entry_pc,
        b.gas.left == gas_budget,
        b.gas_initial == gas_budget,
        forall|k: int| 0 <= k < 4 ==> b.regs.gpr@[7 + k] == #[trigger] args[k],
        forall|k: int|
            0 <= k < NUM_REGS && !(7 <= k <= 10) && inst.regs@[k] != 0 ==> (
            #[trigger] b.regs.gpr@[k]) == inst.regs@[k],
        forall|k: int|
            0 <= k < NUM_REGS && !(7 <= k <= 10) && inst.regs@[k] == 0 ==> (
            #[trigger] b.regs.gpr@[k]) == img.endpoints@[endpoint_idx as int].initial_regs@[k],
        b.entry.instance_ref == inst_ref,
        b.entry.image_hash == inst.image_hash,
        b.entry.image_hash_chain == inst.image_hash_chain,
        b.entry.root_cnode.slots@ == cn.slots@,
        b.entry.yield_marker_slot == img.yield_marker_slot,
        b.entry.pinned_slots@.len() == img.pinned@.len(),
        forall|k: int|
            0 <= k < img.pinned@.len() ==> (#[trigger] b.entry.pinned_slots@[k])
                == img.pinned@[k].slot,
        forall|k: int, a: int|
            #![trigger inst.rw_overlays@[k], b.mem.cell(a)]
            {
                &&& 0 <= k < inst.rw_overlays@.len()
                &&& inst.rw_overlays@[k].start <= a < inst.rw_overlays@[k].start
                    + inst.rw_overlays@[k].bytes@.len()
                &&& forall|q: int|
                    k < q < inst.rw_overlays@.len() ==> !((#[trigger] inst.rw_overlays@[q]).start
                        <= a < inst.rw_overlays@[q].start + page_round_up(
                        inst.rw_overlays@[q].bytes@.len() as int,
                    ))
            } ==> b.mem.cell(a) == Some(
                Cell {
                    access: crate::mem::Access::ReadWrite,
                    byte: inst.rw_overlays@[k].bytes@[a - inst.rw_overlays@[k].start],
                },
            ),
{
    assert forall|k: int, a: int|
        #![trigger inst.rw_overlays@[k], b.mem.cell(a)]
        {
            &&& 0 <= k < inst.rw_overlays@.len()
            &&& inst.rw_overlays@[k].start <= a < inst.rw_overlays@[k].start
                + inst.rw_overlays@[k].bytes@.len()
            &&& forall|q: int|
                k < q < inst.rw_overlays@.len() ==> !((#[trigger] inst.rw_overlays@[q]).start <= a
                    < inst.rw_overlays@[q].start + page_round_up(
                    inst.rw_overlays@[q].bytes@.len() as int,
                ))
        } implies b.mem.cell(a) == Some(
        Cell {
            access: crate::mem::Access::ReadWrite,
            byte: inst.rw_overlays@[k].bytes@[a - inst.rw_overlays@[k].start],
        },
    ) by {
        let base = if 0 <= a < page_round_up(inst.mem_size as int) {
            Some(Cell { access: crate::mem::Access::ReadWrite, byte: 0 })
        } else {
            None
        };
        lemma_last_overlay_wins(inst.rw_overlays@, base, k, a);
        assert(b.mem.cell(a) == entry_cell(inst, a));
    }
}

/// What the last overlay that reaches an address holds there is what is read.
proof fn lemma_last_overlay_wins(overlays: Seq<Overlay>, base: Option<Cell>, k: int, a: int)
    requires
        0 <= k < overlays.len(),
        overlays[k].start <= a < overlays[k].start + overlays[k].bytes@.len(),
        forall|q: int|
            k < q < overlays.len() ==> !((#[trigger] overlays[q]).start <= a < overlays[q].start
                + page_round_up(overlays[q].bytes@.len() as int)),
    ensures
        overlay_cells(overlays, base, a) == Some(
            Cell {
                access: crate::mem::Access::ReadWrite,
                byte: overlays[k].bytes@[a - overlays[k].start],
            },
        ),
    decreases overlays.len(),
{
    if k < overlays.len() - 1 {
        assert(overlays.last() == overlays[overlays.len() - 1]);
        assert(overlays.drop_last()[k] == overlays[k]);
        lemma_last_overlay_wins(overlays.drop_last(), base, k, a);
    }
}

/// A host call that leaves the run for its caller pauses the invocation with what slot 0
/// holds, publishes nothing and leaves the stack.
pub proof fn law_host_call_pauses_with_slot_zero<H: Fn(&Cap) -> CapHash>(
    s: Seq<Entry>,
    max_depth: usize,
    assist: AssistView,
    after: Seq<Entry>,
    base: usize,
    run: RunOutcome,
    cache: &CacheDirectory<H>,
    cache_after: &CacheDirectory<H>,
    r: Result<DriveStep, VmError>,
)
    requires
        drive_post(s, max_depth, assist, after, base, run, cache, cache_after, r),
        run.exit is HostCall || run.exit is Ecall,
        s.len() == run.position + 1,
        s.last() is Instance,
        s.last()->Instance_0.root_cnode.slots@.len() > 0,
    ensures
        after.len() == s.len() - 1,
        cache_after.same(cache),
        r matches Ok(DriveStep::Done(CallResult::Paused { marker_payload, gas_used })) && {
            &&& marker_payload == s.last()->Instance_0.root_cnode.slots@[0]
            &&& run.gas_initial >= run.gas.left ==> gas_used + run.gas.left == run.gas_initial
            &&& run.gas_initial < run.gas.left ==> gas_used == 0
        },
{
}

/// An entry with a live cap in a slot is refused, and nothing is published. One whose
/// slots are all published is settled where its image is published, unless its cnode
/// has taken the place of the image.
pub proof fn law_published_slots_are_settled<H: Fn(&Cap) -> CapHash>(
    entry: InstanceEntry,
    before: &CacheDirectory<H>,
    after: &CacheDirectory<H>,
    r: Result<CapHash, VmError>,
    live: int,
)
    requires
        settle_post(entry, before, after, r),
    ensures
        0 <= live < entry.root_cnode.slots@.len() && (entry.root_cnode.slots@[live] matches Some(
            CapHashOrRef::Ref(_),
        )) ==> r == Err::<CapHash, VmError>(
            VmError::CacheDirectory(crate::error::CacheError::HasRef),
        ) && after.same(before),
        (forall|k: int|
            0 <= k < entry.root_cnode.slots@.len() ==> !(
            #[trigger] entry.root_cnode.slots@[k] matches Some(CapHashOrRef::Ref(_)))) && (
        before.at(CapHashOrRef::Hash(entry.image_hash)) matches Some(Cap::Image(_))) && r is Err
            ==> exists|h: CapHash|
            #[trigger] after.blobs().contains_key(h) && h == entry.image_hash
                && after.blobs()[h] is CNode,
{
}

} // verus!
