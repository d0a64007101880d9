//! The address space that a frame runs in, and how it is entered and left.
use vstd::prelude::*;

use std::sync::Arc;

use crate::cap::NUM_REGS;
use crate::exec::NUM_GPRS;
use crate::kernel::caps::{Page, PAGE_BYTES};
use crate::kernel::flag::RW;
use crate::kernel::lane::{ExecutionLane, MAX_EXECUTION_LANES};
use crate::kernel::paging::{page_number, with_w, PageTable, ENTRIES};

verus! {

/// Start of the 512 GiB region with the context, the code and the stack.
pub const META_PML4_BASE: u64 = 0x80_0000_0000;

/// Address of the context page.
pub const CTX_VA: u64 = 0x80_0000_0000;

/// Address of the compiled code.
pub const META_BASE: u64 = 0x80_4000_0000;

/// Address of the stack page.
pub const STACK_VA: u64 = 0x80_8000_0000;

/// Reads only, and of a pinned cap.
pub const KIND_PINNED_RO: u8 = 1;

/// Copied on the first write.
pub const KIND_UNPINNED_COW: u8 = 2;

/// A region of guest addresses and what is there.
#[derive(Clone, Copy, Debug, PartialEq, Eq)]
pub struct MatRange {
    pub start: u32,
    pub end: u32,
    pub kind: u8,
}

/// The compiled code of an image: where its parts are in the arena, and what
/// locates a fault in it.
#[derive(Debug)]
pub struct CompiledArena {
    pub dispatch_offset: u64,
    pub jit_offset: u64,
    pub tramp_offset: u64,
    /// Zero if nothing was compiled.
    pub jit_size: u64,
    pub exit_label_offset: u32,
    /// Native offset, guest address and access width of the memory accesses.
    pub trap_table: Vec<(u32, u32, u32)>,
    pub global_arena_token: u64,
    pub arena_size: u64,
    /// The directory pointers that page tables borrow.
    pub template_pdpt_pa: u64,
}

/// The address space of a frame, and where its parts are.
#[derive(Debug)]
pub struct FrameRuntime {
    pub lane: ExecutionLane,
    pub pt: PageTable,
    pub jit_va: u64,
    pub jit_size: u64,
    pub dispatch_va: u64,
    pub exit_label_va: u64,
    pub trap_table: Vec<(u32, u32, u32)>,
    pub tramp_va: u64,
    pub new_cr3: u64,
    pub global_arena_token: u64,
    pub global_arena_pages: u64,
    pub mat_ranges: Vec<MatRange>,
    pub data_base: u32,
    pub mem_top: u32,
    pub code_base: u32,
    pub code_top: u32,
    pub code_pa: u64,
}

/// `n` rounded up to whole pages.
pub open spec fn page_rounded(n: int) -> int {
    ((n + PAGE_BYTES - 1) / PAGE_BYTES as int) * PAGE_BYTES
}

fn round_to_page(n: u64) -> (rounded: u64)
    requires
        n <= u64::MAX - PAGE_BYTES,
    ensures
        rounded == page_rounded(n as int),
        n <= rounded < n + PAGE_BYTES,
{
    ((n + (PAGE_BYTES - 1)) / PAGE_BYTES) * PAGE_BYTES
}

/// End of the data extent of a memory of `mem_size` bytes, in whole pages.
pub open spec fn extent_end(data_base: u32, mem_size: u32) -> int {
    data_base + page_rounded(if mem_size > data_base {
        mem_size - data_base
    } else {
        0
    })
}

/// The leaf without its write permission.
pub open spec fn rearmed(leaf: Option<u64>) -> Option<u64> {
    match leaf {
        Some(e) => Some(with_w(e, false)),
        None => None,
    }
}

/// The guest address of a data page.
pub open spec fn data_page_va(data_base: u32, index: u32) -> u64 {
    (data_base + index * PAGE_BYTES) as u64
}

/// Whether `v` is in a page that was written.
pub open spec fn overlaid_at(data_base: u32, overlay: Seq<(u32, Arc<Page>)>, v: u64) -> bool {
    exists|i: int|
        0 <= i < overlay.len() && page_number(v) == page_number(
            data_page_va(data_base, (#[trigger] overlay[i]).0),
        )
}

proof fn lemma_rearm_twice(e: u64)
    ensures
        with_w(with_w(e, false), false) == with_w(e, false),
{
    assert((e & !RW) & !RW == e & !RW) by (bit_vector);
}

impl FrameRuntime {
    /// Size of the data extent.
    pub fn data_extent(&self) -> (bytes: u64)
        ensures
            bytes == if self.mem_top >= self.data_base {
                self.mem_top - self.data_base
            } else {
                0
            },
    {
        if self.mem_top >= self.data_base {
            (self.mem_top - self.data_base) as u64
        } else {
            0
        }
    }

    /// Take the write permission from every page that was written, so that the next
    /// call faults on its first write to each.
    pub fn rearm_cow(&mut self, overlay: &Vec<(u32, Arc<Page>)>)
        ensures
            *final(self) == (FrameRuntime { pt: final(self).pt, ..*old(self) }),
            forall|v: u64| #[trigger]
                final(self).pt.leaf(v) == if overlaid_at(old(self).data_base, overlay@, v) {
                    rearmed(old(self).pt.leaf(v))
                } else {
                    old(self).pt.leaf(v)
                },
            forall|v: u64| #[trigger] final(self).pt.blocked(v) == old(self).pt.blocked(v),
            forall|v: u64| #[trigger] final(self).pt.missing(v) == old(self).pt.missing(v),
            final(self).pt.frame() == old(self).pt.frame(),
    {
        let ghost before = *self;
        let mut i: usize = 0;
        while i < overlay.len()
            invariant
                i <= overlay@.len(),
                *self == (FrameRuntime { pt: self.pt, ..before }),
                forall|v: u64| #[trigger]
                    self.pt.leaf(v) == if overlaid_at(
                        before.data_base,
                        overlay@.take(i as int),
                        v,
                    ) {
                        rearmed(before.pt.leaf(v))
                    } else {
                        before.pt.leaf(v)
                    },
                forall|v: u64| #[trigger] self.pt.blocked(v) == before.pt.blocked(v),
                forall|v: u64| #[trigger] self.pt.missing(v) == before.pt.missing(v),
                self.pt.frame() == before.pt.frame(),
            decreases overlay@.len() - i,
        {
            let ghost earlier = *self;
            let va: u64 = self.data_base as u64 + overlay[i].0 as u64 * PAGE_BYTES;
            self.pt.set_leaf_w(va, false);
            proof {
                let done = overlay@.take(i as int);
                let more = overlay@.take(i + 1);
                assert forall|v: u64| #[trigger] self.pt.leaf(v) == if overlaid_at(
                    before.data_base,
                    more,
                    v,
                ) {
                    rearmed(before.pt.leaf(v))
                } else {
                    before.pt.leaf(v)
                } by {
                    assert(earlier.pt.leaf(v) == if overlaid_at(before.data_base, done, v) {
                        rearmed(before.pt.leaf(v))
                    } else {
                        before.pt.leaf(v)
                    });
                    assert(more[i as int] == overlay@[i as int]);
                    if overlaid_at(before.data_base, done, v) {
                        let j = choose|j: int|
                            0 <= j < done.len() && page_number(v) == page_number(
                                data_page_va(before.data_base, (#[trigger] done[j]).0),
                            );
                        assert(more[j] == done[j]);
                        assert(overlaid_at(before.data_base, more, v));
                    }
                    if page_number(v) == page_number(va) {
                        assert(overlaid_at(before.data_base, more, v));
                        crate::kernel::paging::lemma_leaf_by_page(earlier.pt, v, va);
                        if let Some(e) = before.pt.leaf(v) {
                            lemma_rearm_twice(e);
                        }
                    } else if overlaid_at(before.data_base, more, v) {
                        let j = choose|j: int|
                            0 <= j < more.len() && page_number(v) == page_number(
                                data_page_va(before.data_base, (#[trigger] more[j]).0),
                            );
                        assert(j < i);
                        assert(done[j] == more[j]);
                    }
                }
            }
            i = i + 1;
        }
        assert(overlay@.take(i as int) =~= overlay@);
    }
}

/// Whether an address space is that of a frame whose image has the given code and
/// memory: nothing of the guest is mapped, and the compiled code is borrowed.
pub open spec fn runtime_for(
    rt: FrameRuntime,
    lane: ExecutionLane,
    arena: CompiledArena,
    kernel_entries: Seq<u64>,
    code_len: u64,
    code_base: u32,
    code_pa: u64,
    data_base: u32,
    mem_size: u32,
) -> bool {
    &&& rt.lane == lane
    &&& rt.jit_va == META_BASE + arena.jit_offset
    &&& rt.dispatch_va == META_BASE + arena.dispatch_offset
    &&& rt.tramp_va == META_BASE + arena.tramp_offset
    &&& rt.jit_size == arena.jit_size
    &&& rt.exit_label_va == rt.jit_va + arena.exit_label_offset
    &&& rt.trap_table@ == arena.trap_table@
    &&& rt.global_arena_token == arena.global_arena_token
    &&& rt.global_arena_pages == arena.arena_size / PAGE_BYTES
    &&& rt.data_base == data_base
    &&& rt.mem_top == extent_end(data_base, mem_size) as u32
    &&& rt.code_base == code_base
    &&& rt.code_top == if code_base + page_rounded(code_len as int) <= u32::MAX {
        (code_base + page_rounded(code_len as int)) as u32
    } else {
        u32::MAX
    }
    &&& rt.code_pa == code_pa
    &&& rt.new_cr3 == rt.pt.frame() & crate::kernel::flag::PA_MASK
    &&& forall|v: u64| #[trigger] rt.pt.leaf(v) is None
    &&& rt.pt.top_entries() == kernel_entries.update(
        1,
        crate::kernel::paging::inner_entry(arena.template_pdpt_pa),
    )
}

/// The address space for a frame whose image has the given code and memory: a
/// fresh page table with nothing of the guest mapped, and the compiled code
/// borrowed from the image. `None` if nothing was compiled or no page is left.
pub fn build_frame_runtime(
    lane: ExecutionLane,
    arena: &CompiledArena,
    kernel_entries: &[u64; ENTRIES],
    code_len: u64,
    code_base: u32,
    code_pa: u64,
    data_base: u32,
    mem_size: u32,
    mat_ranges: Vec<MatRange>,
    frames: &mut Vec<u64>,
) -> (runtime: Option<FrameRuntime>)
    requires
        code_len <= u32::MAX,
        arena.arena_size <= 0x4000_0000,
        arena.dispatch_offset <= arena.arena_size,
        arena.jit_offset <= arena.arena_size,
        arena.tramp_offset <= arena.arena_size,
    ensures
        runtime is Some <==> arena.jit_size != 0 && old(frames)@.len() > 0,
        runtime matches Some(rt) ==> {
            &&& final(frames)@ == old(frames)@.drop_last()
            &&& rt.mat_ranges == mat_ranges
            &&& runtime_for(
                rt,
                lane,
                *arena,
                kernel_entries@,
                code_len,
                code_base,
                code_pa,
                data_base,
                mem_size,
            )
        },
        runtime is None ==> final(frames)@ == old(frames)@,
{
    if arena.jit_size == 0 {
        return None;
    }
    let mut pt = match PageTable::new(kernel_entries, frames) {
        Some(pt) => pt,
        None => return None,
    };
    let extent: u64 = if mem_size > data_base {
        (mem_size - data_base) as u64
    } else {
        0
    };
    let mem_bytes: u64 = round_to_page(extent);
    let mem_top: u32 = (data_base as u64 + mem_bytes) as u32;
    let code_bytes: u64 = round_to_page(code_len);
    let code_end: u64 = code_base as u64 + code_bytes;
    let code_top: u32 = if code_end <= u32::MAX as u64 {
        code_end as u32
    } else {
        u32::MAX
    };
    let ghost fresh = pt;
    pt.install_borrowed_pdpt(META_PML4_BASE, arena.template_pdpt_pa);
    proof {
        assert((META_PML4_BASE >> 39) & 0x1FF == 1) by (bit_vector);
        assert forall|v: u64| #[trigger] pt.leaf(v) is None by {
            assert(fresh.leaf(v) is None);
        }
    }
    let new_cr3: u64 = pt.cr3();
    let jit_va: u64 = META_BASE + arena.jit_offset;
    Some(
        FrameRuntime {
            lane,
            pt,
            jit_va,
            jit_size: arena.jit_size,
            dispatch_va: META_BASE + arena.dispatch_offset,
            exit_label_va: jit_va + arena.exit_label_offset as u64,
            trap_table: copy_traps(&arena.trap_table),
            tramp_va: META_BASE + arena.tramp_offset,
            new_cr3,
            global_arena_token: arena.global_arena_token,
            global_arena_pages: arena.arena_size / PAGE_BYTES,
            mat_ranges,
            data_base,
            mem_top,
            code_base,
            code_top,
            code_pa,
        },
    )
}

fn copy_traps(traps: &Vec<(u32, u32, u32)>) -> (copy: Vec<(u32, u32, u32)>)
    ensures
        copy@ == traps@,
{
    let mut copy: Vec<(u32, u32, u32)> = Vec::new();
    let mut i: usize = 0;
    while i < traps.len()
        invariant
            i <= traps@.len(),
            copy@ == traps@.take(i as int),
        decreases traps@.len() - i,
    {
        copy.push(traps[i]);
        i = i + 1;
    }
    assert(copy@ =~= traps@);
    copy
}

/// What the compiled code shares with the kernel: registers, gas, and how it was
/// left.
#[derive(Clone, Copy, Debug)]
pub struct EntryContext {
    pub regs: [u64; NUM_GPRS],
    pub gas: i64,
    pub exit_reason: u32,
    pub exit_arg: u32,
    pub entry_pc: u32,
    pub pc: u32,
    pub dispatch_table: u64,
    pub code_base: u64,
}

/// How a run ended.
#[derive(Clone, Copy, Debug)]
pub struct ExitInfo {
    pub exit_reason: u32,
    pub exit_arg: u32,
    pub gas_remaining: i64,
    pub regs: [u64; NUM_REGS],
    pub pc: u32,
}

/// The context that a frame is entered with: the registers of the instance, the
/// two that do not outlive a run at zero, and the code of this frame.
pub fn entry_context(
    lane: ExecutionLane,
    rt: &FrameRuntime,
    initial_gas: i64,
    entry_pc: u32,
    initial_regs: &[u64; NUM_REGS],
) -> (ctx: EntryContext)
    requires
        rt.lane == lane,
    ensures
        ctx.gas == initial_gas,
        ctx.exit_reason == 0,
        ctx.exit_arg == 0,
        ctx.entry_pc == entry_pc,
        ctx.pc == entry_pc,
        ctx.dispatch_table == rt.dispatch_va,
        ctx.code_base == rt.jit_va,
        forall|i: int| 0 <= i < NUM_REGS ==> ctx.regs@[i] == initial_regs@[i],
        forall|i: int| NUM_REGS <= i < NUM_GPRS ==> ctx.regs@[i] == 0,
{
    let mut regs: [u64; NUM_GPRS] = [0u64; NUM_GPRS];
    let mut i: usize = 0;
    while i < NUM_REGS
        invariant
            i <= NUM_REGS,
            forall|j: int| 0 <= j < i ==> regs@[j] == initial_regs@[j],
            forall|j: int| NUM_REGS <= j < NUM_GPRS ==> regs@[j] == 0,
        decreases NUM_REGS - i,
    {
        regs[i] = initial_regs[i];
        i = i + 1;
    }
    EntryContext {
        regs,
        gas: initial_gas,
        exit_reason: 0,
        exit_arg: 0,
        entry_pc,
        pc: entry_pc,
        dispatch_table: rt.dispatch_va,
        code_base: rt.jit_va,
    }
}

/// How a run ended, from the context it left: of the registers, those that
/// persist.
pub fn exit_info(ctx: &EntryContext) -> (info: ExitInfo)
    ensures
        info.exit_reason == ctx.exit_reason,
        info.exit_arg == ctx.exit_arg,
        info.gas_remaining == ctx.gas,
        info.pc == ctx.pc,
        forall|i: int| 0 <= i < NUM_REGS ==> info.regs@[i] == ctx.regs@[i],
{
    let mut regs: [u64; NUM_REGS] = [0u64; NUM_REGS];
    let mut i: usize = 0;
    while i < NUM_REGS
        invariant
            i <= NUM_REGS,
            forall|j: int| 0 <= j < i ==> regs@[j] == ctx.regs@[j],
        decreases NUM_REGS - i,
    {
        regs[i] = ctx.regs[i];
        i = i + 1;
    }
    ExitInfo {
        exit_reason: ctx.exit_reason,
        exit_arg: ctx.exit_arg,
        gas_remaining: ctx.gas,
        regs,
        pc: ctx.pc,
    }
}

/// Which arena each lane ran last: its token (zero for none) and its pages.
#[derive(Debug)]
pub struct LaneArenas {
    pub last: Vec<(u64, u64)>,
}

/// The addresses of the first `pages` pages of the arena.
pub open spec fn arena_pages(pages: nat) -> Seq<u64> {
    Seq::new(pages, |i: int| (META_BASE + i * PAGE_BYTES) as u64)
}

impl LaneArenas {
    /// One record for each lane.
    pub open spec fn wf(&self) -> bool {
        &&& self.last@.len() == MAX_EXECUTION_LANES
        &&& forall|i: int|
            0 <= i < MAX_EXECUTION_LANES ==> (#[trigger] self.last@[i]).1 * PAGE_BYTES
                <= 0x4000_0000
    }

    /// No lane has run anything.
    pub fn new() -> (arenas: LaneArenas)
        ensures
            arenas.wf(),
            forall|i: int| 0 <= i < MAX_EXECUTION_LANES ==> arenas.last@[i] == (0u64, 0u64),
    {
        let mut last: Vec<(u64, u64)> = Vec::new();
        let mut i: usize = 0;
        while i < MAX_EXECUTION_LANES
            invariant
                i <= MAX_EXECUTION_LANES,
                last@.len() == i,
                forall|j: int| 0 <= j < i ==> last@[j] == (0u64, 0u64),
            decreases MAX_EXECUTION_LANES - i,
        {
            last.push((0, 0));
            i = i + 1;
        }
        LaneArenas { last }
    }

    /// Note that `lane` is about to run the arena with token `next_token`. The pages
    /// whose translations are stale: those of the arena that ran last on this lane,
    /// if it was another.
    pub fn flush_global_arena_on_image_switch(
        &mut self,
        lane: ExecutionLane,
        next_token: u64,
        next_pages: u64,
    ) -> (stale: Vec<u64>)
        requires
            old(self).wf(),
            lane.index < MAX_EXECUTION_LANES,
            next_pages * PAGE_BYTES <= 0x4000_0000,
        ensures
            final(self).wf(),
            final(self).last@ == old(self).last@.update(
                lane.index as int,
                (next_token, next_pages),
            ),
            stale@ == arena_pages(
                if old(self).last@[lane.index as int].0 != 0
                    && old(self).last@[lane.index as int].0 != next_token {
                    old(self).last@[lane.index as int].1 as nat
                } else {
                    0
                },
            ),
    {
        lane.assert_in_range();
        let (token, pages): (u64, u64) = self.last[lane.index];
        let count: u64 = if token != 0 && token != next_token {
            pages
        } else {
            0
        };
        let mut stale: Vec<u64> = Vec::new();
        let mut page: u64 = 0;
        while page < count
            invariant
                page <= count,
                count * PAGE_BYTES <= 0x4000_0000,
                stale@.len() == page,
                forall|j: int|
                    0 <= j < page ==> #[trigger] stale@[j] == (META_BASE + j * PAGE_BYTES) as u64,
            decreases count - page,
        {
            stale.push(META_BASE + page * PAGE_BYTES);
            page = page + 1;
        }
        assert(stale@ =~= arena_pages(count as nat));
        self.last.set(lane.index, (next_token, next_pages));
        stale
    }
}

} // verus!
