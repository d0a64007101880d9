//! Getting a frame ready to run: its address space, if it has none, and the context
//! it is entered with.
use vstd::prelude::*;

use crate::cap::NUM_REGS;
use crate::exec::NUM_GPRS;
use crate::hash::CapHash;
use crate::kernel::call_loop::EntryRun;
use crate::kernel::caps::{DataMem, KernelDirectory, PAGE_BYTES};
use crate::kernel::frame::{find_image, image_at, CapMap};
use crate::kernel::image_mem::{build_mat_ranges, mat_regions, saturated};
use crate::kernel::lane::ExecutionLane;
use crate::kernel::materialize::data_pages;
use crate::kernel::paging::ENTRIES;
use crate::kernel::runtime::{
    build_frame_runtime, entry_context, page_rounded, runtime_for, CompiledArena, EntryContext,
    FrameRuntime,
};

verus! {

/// Nothing was compiled, or no page was left.
pub const ERR_JIT_FAILED: u32 = 50;

/// The code is not in kernel memory.
pub const ERR_MAP_BAD_KIND: u32 = 60;

/// Where the parts of a compiled arena may be.
pub open spec fn arena_wf(arena: CompiledArena) -> bool {
    &&& arena.arena_size <= 0x4000_0000
    &&& arena.dispatch_offset <= arena.arena_size
    &&& arena.jit_offset <= arena.arena_size
    &&& arena.tramp_offset <= arena.arena_size
}

/// End of the data of a memory.
pub open spec fn data_end(mem: DataMem, data_base: u32) -> u32 {
    saturated(data_base + (mem.backing@.len() * PAGE_BYTES) as u32)
}

/// What building an address space comes to. It fails if the image is not there, if
/// its code is not in kernel memory, if nothing was compiled, or if no page is left.
pub open spec fn runtime_built(
    dir: CapMap,
    image_hash: CapHash,
    lane: ExecutionLane,
    mem: DataMem,
    arena: CompiledArena,
    kernel_entries: Seq<u64>,
    code_pa: Option<u64>,
    data_base: u32,
    frames: Seq<u64>,
    frames_after: Seq<u64>,
    built: Result<FrameRuntime, u32>,
) -> bool {
    match image_at(dir, image_hash) {
        Err(e) => built == Err::<FrameRuntime, u32>(e) && frames_after == frames,
        Ok(img) => match code_pa {
            None => built == Err::<FrameRuntime, u32>(ERR_MAP_BAD_KIND) && frames_after == frames,
            Some(pa) => if arena.jit_size == 0 || frames.len() == 0 {
                built == Err::<FrameRuntime, u32>(ERR_JIT_FAILED) && frames_after == frames
            } else {
                &&& built matches Ok(rt)
                &&& rt.mat_ranges@ == mat_regions(img.mappings@, data_base, mem.backing@.len())
                &&& runtime_for(
                    rt,
                    lane,
                    arena,
                    kernel_entries,
                    img.code_len,
                    img.code_base,
                    pa,
                    data_base,
                    data_end(mem, data_base),
                )
                &&& frames_after == frames.drop_last()
            },
        },
    }
}

/// Build the address space of a frame: its pinned mappings read-only, the rest of
/// its memory copied on the first write.
pub fn build_runtime(
    dir: &KernelDirectory,
    image_hash: &CapHash,
    lane: ExecutionLane,
    mem: &DataMem,
    arena: &CompiledArena,
    kernel_entries: &[u64; ENTRIES],
    code_pa: Option<u64>,
    data_base: u32,
    frames: &mut Vec<u64>,
) -> (built: Result<FrameRuntime, u32>)
    requires
        arena_wf(*arena),
        mem.backing@.len() * PAGE_BYTES <= u64::MAX,
        image_at(dir@, *image_hash) matches Ok(img) ==> img.code_len <= u32::MAX,
    ensures
        runtime_built(
            dir@,
            *image_hash,
            lane,
            *mem,
            *arena,
            kernel_entries@,
            code_pa,
            data_base,
            old(frames)@,
            final(frames)@,
            built,
        ),
{
    let img = match find_image(dir, image_hash) {
        Ok(img) => img,
        Err(e) => return Err(e),
    };
    let pa: u64 = match code_pa {
        Some(pa) => pa,
        None => return Err(ERR_MAP_BAD_KIND),
    };
    let ranges = build_mat_ranges(img, mem, data_base);
    let extent: u32 = mem.content_len() as u32;
    let mem_size: u32 = data_base.saturating_add(extent);
    assert(mem_size == data_end(*mem, data_base));
    match build_frame_runtime(
        lane,
        arena,
        kernel_entries,
        img.code_len,
        img.code_base,
        pa,
        data_base,
        mem_size,
        ranges,
        frames,
    ) {
        Some(rt) => Ok(rt),
        None => Err(ERR_JIT_FAILED),
    }
}

/// Whether `ctx` is the context that a run is entered with.
pub open spec fn enters(ctx: EntryContext, run: EntryRun) -> bool {
    &&& run.runtime is Some
    &&& ctx.gas == run.gas
    &&& ctx.exit_reason == 0
    &&& ctx.exit_arg == 0
    &&& ctx.entry_pc == run.pc
    &&& ctx.pc == run.pc
    &&& ctx.dispatch_table == run.runtime->0.dispatch_va
    &&& ctx.code_base == run.runtime->0.jit_va
    &&& forall|i: int| 0 <= i < NUM_REGS ==> ctx.regs@[i] == run.regs@[i]
    &&& forall|i: int| NUM_REGS <= i < NUM_GPRS ==> ctx.regs@[i] == 0
}

/// Get a run ready: its address space is built the first time and kept after that.
pub fn run_one_entry(
    run: &mut EntryRun,
    dir: &KernelDirectory,
    arena: &CompiledArena,
    kernel_entries: &[u64; ENTRIES],
    code_pa: Option<u64>,
    data_base: u32,
    frames: &mut Vec<u64>,
) -> (ctx: Result<EntryContext, u32>)
    requires
        arena_wf(*arena),
        old(run).mem.backing@.len() * PAGE_BYTES <= u64::MAX,
        old(run).runtime matches Some(rt) ==> rt.lane == old(run).lane,
        image_at(dir@, old(run).image_hash) matches Ok(img) ==> img.code_len <= u32::MAX,
    ensures
        *final(run) == (EntryRun { runtime: final(run).runtime, ..*old(run) }),
        match old(run).runtime {
            Some(rt) => ctx is Ok && final(run).runtime == Some(rt) && final(frames)@ == old(
                frames,
            )@,
            None => runtime_built(
                dir@,
                old(run).image_hash,
                old(run).lane,
                old(run).mem,
                *arena,
                kernel_entries@,
                code_pa,
                data_base,
                old(frames)@,
                final(frames)@,
                match ctx {
                    Ok(_) => Ok::<FrameRuntime, u32>(final(run).runtime->0),
                    Err(e) => Err::<FrameRuntime, u32>(e),
                },
            ),
        },
        ctx matches Ok(c) ==> enters(c, *final(run)),
        ctx is Err ==> final(run).runtime is None,
{
    if run.runtime.is_none() {
        match build_runtime(
            dir,
            &run.image_hash,
            run.lane,
            &run.mem,
            arena,
            kernel_entries,
            code_pa,
            data_base,
            frames,
        ) {
            Ok(rt) => {
                run.runtime = Some(rt);
            },
            Err(e) => return Err(e),
        }
    }
    match &run.runtime {
        Some(rt) => Ok(entry_context(run.lane, rt, run.gas, run.pc, &run.regs)),
        None => vstd::pervasive::unreached(),
    }
}

/// A page of the data has a state in a frame that keeps one for each page of its
/// memory, so every access of a run can be materialized.
pub proof fn law_states_cover_the_data(
    rt: FrameRuntime,
    lane: ExecutionLane,
    arena: CompiledArena,
    kernel_entries: Seq<u64>,
    code_len: u64,
    code_base: u32,
    code_pa: u64,
    data_base: u32,
    mem: DataMem,
)
    requires
        runtime_for(
            rt,
            lane,
            arena,
            kernel_entries,
            code_len,
            code_base,
            code_pa,
            data_base,
            data_end(mem, data_base),
        ),
        mem.backing@.len() * PAGE_BYTES <= u32::MAX,
    ensures
        data_pages(rt) <= mem.backing@.len(),
{
    let n = mem.backing@.len() as int;
    let extent = data_end(mem, data_base) - data_base;
    assert(0 <= extent <= n * PAGE_BYTES);
    let top = page_rounded(extent);
    assert(top <= n * PAGE_BYTES) by (nonlinear_arith)
        requires
            0 <= extent <= n * PAGE_BYTES,
            top == page_rounded(extent),
            PAGE_BYTES == 4096,
    ;
    if data_base + top <= u32::MAX {
        assert(rt.mem_top == data_base + top);
    } else {
        assert(rt.mem_top == (data_base + top) as u32);
        assert(data_base + top <= 0x1_0000_0000 + PAGE_BYTES);
    }
}

} // verus!
