//! What the arena of compiled code holds, and where it is seen.
use vstd::prelude::*;

use vstd::bytes::*;

use crate::hash::CapHash;
use crate::kernel::entry::enters;
use crate::kernel::jit_cache::{
    image_made, page_compiled, patched, written, CompiledImage, LazyInit,
    LazyPage,
};
use crate::kernel::paging::{leaf_entry, Perm};
use crate::kernel::runtime::EntryContext;

verus! {

/// Patching a dispatch table changes the slots of its blocks alone.
proof fn lemma_patched_elsewhere(
    arena: Seq<u8>,
    base: int,
    entries: Seq<(u32, u32)>,
    n: nat,
    i: int,
)
    requires
        n <= entries.len(),
        0 <= i < arena.len(),
        forall|j: int|
            0 <= j < n ==> !(base + (#[trigger] entries[j]).0 * 4 <= i < base + entries[j].0 * 4
                + 4),
    ensures
        patched(arena, base, entries, n).len() == arena.len(),
        patched(arena, base, entries, n)[i] == arena[i],
    decreases n,
{
    if n > 0 {
        lemma_auto_spec_u32_to_from_le_bytes();
        lemma_patched_elsewhere(arena, base, entries, (n - 1) as nat, i);
        let e = entries[n - 1];
        assert(!(base + e.0 * 4 <= i < base + e.0 * 4 + 4));
    }
}

/// A page that is compiled is in the arena: its native code where the compiler has put
/// it, each of its blocks in the dispatch table with the offset of its code, and its
/// traps behind those before. Nothing else of the arena changes, and no other image.
pub proof fn law_compiled_page_is_in_the_arena(
    before: Map<CapHash, CompiledImage>,
    after: Map<CapHash, CompiledImage>,
    hash: CapHash,
    page: int,
    lazy: LazyPage,
    traps: Result<u64, u32>,
    i: int,
)
    requires
        page_compiled(before, after, hash, page, lazy, traps),
        before.contains_key(hash),
        before[hash].wf(),
        0 <= page < before[hash].compiled@.len(),
        !before[hash].compiled@[page],
        lazy.start + lazy.native@.len() <= before[hash].jit_size,
        forall|j: int|
            0 <= j < lazy.dispatch_entries@.len() ==> (#[trigger] lazy.dispatch_entries@[j]).0
                < before[hash].code@.len(),
        forall|j: int, k: int|
            0 <= j < k < lazy.dispatch_entries@.len() ==> (
            #[trigger] lazy.dispatch_entries@[j]).0 != (#[trigger] lazy.dispatch_entries@[k]).0,
    ensures
        ({
            let was = before[hash];
            let now = after[hash];
            let native = was.layout.jit_offset + lazy.start;
            let table = was.layout.dispatch_offset as int;
            &&& after.contains_key(hash)
            &&& traps == Ok::<u64, u32>(
                (was.trap_table@.len() + lazy.trap_entries@.len()) as u64,
            )
            &&& now.trap_table@ == was.trap_table@ + lazy.trap_entries@
            &&& now.compiled@.len() == was.compiled@.len()
            &&& now.compiled@[page]
            &&& forall|q: int|
                0 <= q < was.compiled@.len() && q != page ==> #[trigger] now.compiled@[q]
                    == was.compiled@[q]
            &&& now.arena@.len() == was.arena@.len()
            &&& 0 <= i < lazy.native@.len() ==> now.arena@[native + i] == lazy.native@[i]
            &&& 0 <= i < lazy.dispatch_entries@.len() ==> spec_u32_from_le_bytes(
                now.arena@.subrange(
                    table + lazy.dispatch_entries@[i].0 * 4,
                    table + lazy.dispatch_entries@[i].0 * 4 + 4,
                ),
            ) == lazy.dispatch_entries@[i].1
            &&& 0 <= i < was.arena@.len() && !(native <= i < native + lazy.native@.len()) && (
            forall|j: int|
                0 <= j < lazy.dispatch_entries@.len() ==> !(table + (
                #[trigger] lazy.dispatch_entries@[j]).0 * 4 <= i < table
                    + lazy.dispatch_entries@[j].0 * 4 + 4)) ==> now.arena@[i] == was.arena@[i]
            &&& forall|h: CapHash|
                h != hash && before.contains_key(h) ==> #[trigger] after.contains_key(h)
                    && after[h] == before[h]
        }),
{
    let was = before[hash];
    let now = after[hash];
    let code_len = was.code@.len() as int;
    let table = was.layout.dispatch_offset as int;
    let at = was.layout.jit_offset + lazy.start;
    let mid = written(was.arena@, at, lazy.native@);
    let entries = lazy.dispatch_entries@;
    crate::kernel::jit_cache::law_arena_parts_are_apart(was.layout, code_len);
    lemma_auto_spec_u32_to_from_le_bytes();
    assert forall|j: int| 0 <= j < entries.len() implies table + (#[trigger] entries[j]).0 * 4 + 4
        <= was.layout.jit_offset by {
        assert(entries[j].0 + 1 <= code_len);
    }
    if entries.len() == 0 {
        assert(now.arena@ == mid);
    } else {
        crate::kernel::jit_cache::law_patched_block_reads_back(
            mid,
            table,
            entries,
            entries.len(),
            0,
        );
    }
    if 0 <= i < lazy.native@.len() {
        assert forall|j: int| 0 <= j < entries.len() implies !(table + (#[trigger] entries[j]).0 * 4
            <= at + i < table + entries[j].0 * 4 + 4) by {
        }
        lemma_patched_elsewhere(mid, table, entries, entries.len(), at + i);
        assert(mid[at + i] == lazy.native@[i]);
    }
    if 0 <= i < entries.len() {
        crate::kernel::jit_cache::law_patched_block_reads_back(
            mid,
            table,
            entries,
            entries.len(),
            i,
        );
        let lo = table + entries[i].0 * 4;
        assert(now.arena@.subrange(lo, lo + 4) == spec_u32_to_le_bytes(entries[i].1));
        assert(spec_u32_from_le_bytes(spec_u32_to_le_bytes(entries[i].1)) == entries[i].1);
    }
    if 0 <= i < was.arena@.len() && !(at <= i < at + lazy.native@.len()) && (forall|j: int|
        0 <= j < entries.len() ==> !(table + (#[trigger] entries[j]).0 * 4 <= i < table
            + entries[j].0 * 4 + 4)) {
        lemma_patched_elsewhere(mid, table, entries, entries.len(), i);
    }
}

/// A new arena marks the places of the program where a block begins and sends each of
/// these blocks to the compile stub; it has the native code to start with, the
/// trampoline behind the native code, and zeros else.
pub proof fn law_new_arena_compiles_on_demand(
    image: CompiledImage,
    code: Seq<u8>,
    arena_base_va: u64,
    ctx_va: u64,
    arena_pa: u64,
    init: LazyInit,
    i: int,
)
    requires
        image_made(image, code, arena_base_va, ctx_va, arena_pa, init),
        init.valid_pc@.len() == code.len(),
        init.native@.len() <= image.jit_size,
        arena_base_va + image.layout.total <= u64::MAX,
    ensures
        ({
            let table = image.layout.dispatch_offset as int;
            let jit = image.layout.jit_offset as int;
            let tramp = image.layout.tramp_offset as int;
            &&& 0 <= i < code.len() && init.valid_pc@[i] ==> {
                &&& image.arena@[i] == 1
                &&& spec_u32_from_le_bytes(
                    image.arena@.subrange(table + i * 4, table + i * 4 + 4),
                ) == init.compile_stub_offset
            }
            &&& 0 <= i < code.len() && !init.valid_pc@[i] ==> {
                &&& image.arena@[i] == 0
                &&& forall|x: int|
                    table + i * 4 <= x < table + i * 4 + 4 ==> #[trigger] image.arena@[x] == 0
            }
            &&& 0 <= i < init.native@.len() ==> image.arena@[jit + i] == init.native@[i]
            &&& init.native@.len() <= i < image.jit_size ==> image.arena@[jit + i] == 0
            &&& spec_u64_from_le_bytes(image.arena@.subrange(tramp + 2, tramp + 10)) == ctx_va
            &&& spec_u64_from_le_bytes(image.arena@.subrange(tramp + 12, tramp + 20))
                == arena_base_va + jit
            &&& forall|p: int|
                0 <= p < image.compiled@.len() ==> !(#[trigger] image.compiled@[p])
            &&& image.trap_table@.len() == 0
            &&& image.exit_label_offset == init.exit_label_offset
        }),
{
    lemma_auto_spec_u32_to_from_le_bytes();
    lemma_auto_spec_u64_to_from_le_bytes();
    let code_len = code.len() as int;
    crate::kernel::jit_cache::law_arena_parts_are_apart(image.layout, code_len);
    let table = image.layout.dispatch_offset as int;
    let jit = image.layout.jit_offset as int;
    let tramp = image.layout.tramp_offset as int;
    if 0 <= i < code_len {
        let slot = image.arena@.subrange(table + i * 4, table + i * 4 + 4);
        let stub = spec_u32_to_le_bytes(init.compile_stub_offset);
        assert forall|x: int| 0 <= x < 4 implies #[trigger] slot[x] == (if init.valid_pc@[i] {
            stub[x]
        } else {
            0u8
        }) by {
            assert((i * 4 + x) / 4 == i);
            assert((i * 4 + x) % 4 == x);
        }
        if init.valid_pc@[i] {
            assert(slot =~= stub);
        } else {
            assert forall|x: int| table + i * 4 <= x < table + i * 4 + 4 implies #[trigger] image.arena@[x]
                == 0 by {
                assert(slot[x - (table + i * 4)] == 0);
            }
        }
    }
    let bytes = crate::kernel::jit_cache::trampoline_bytes(ctx_va, (arena_base_va + jit) as u64);
    let a = spec_u64_to_le_bytes(ctx_va);
    let b = spec_u64_to_le_bytes((arena_base_va + jit) as u64);
    assert(a.len() == 8 && b.len() == 8);
    assert(bytes.subrange(2, 10) =~= a);
    assert(bytes.subrange(12, 20) =~= b);
    assert(image.arena@.subrange(tramp + 2, tramp + 10) =~= bytes.subrange(2, 10));
    assert(image.arena@.subrange(tramp + 12, tramp + 20) =~= bytes.subrange(12, 20));
}

/// No page of an arena can be written by the guest, and only the pages from the native
/// code on can be run; each is seen where it is.
pub proof fn law_arena_is_never_writable(image: CompiledImage, o: u64)
    requires
        image.wf(),
        o < image.layout.total,
        o % 4096 == 0,
        image.layout.total <= crate::kernel::paging::TEMPLATE_BYTES,
        image.arena_pa + image.layout.total <= u64::MAX,
    ensures
        image.template.leaf(o) == Some(
            leaf_entry(
                (image.arena_pa + o) as u64,
                (Perm { writable: false, user: true, executable: o >= image.layout.jit_offset }),
            ),
        ),
{
    assert(image.template.leaf(o) == Some(
        crate::kernel::jit_cache::arena_leaf(image.layout, image.arena_pa, o),
    ));
}

/// A run is entered at its pc with its registers and its gas, in the code and with the
/// dispatch table of its address space.
pub proof fn law_run_enters_with_its_state(
    ctx: EntryContext,
    run: crate::kernel::call_loop::EntryRun,
    i: int,
)
    requires
        enters(ctx, run),
        0 <= i < 13,
    ensures
        ctx.regs@[i] == run.regs@[i],
        ctx.gas == run.gas,
        ctx.pc == run.pc,
        ctx.entry_pc == run.pc,
        run.runtime matches Some(rt) && ctx.dispatch_table == rt.dispatch_va && ctx.code_base
            == rt.jit_va,
{
}

/// The address space of a frame is that of its image: its compiled code and its tables
/// are seen in the arena's place, the code reaches to the end of its last page, nothing
/// of the guest is mapped yet, and what is loaded is the top table.
pub proof fn law_address_space_is_of_its_image(
    rt: crate::kernel::runtime::FrameRuntime,
    lane: crate::kernel::lane::ExecutionLane,
    arena: crate::kernel::runtime::CompiledArena,
    kernel_entries: Seq<u64>,
    code_len: u64,
    code_base: u32,
    code_pa: u64,
    data_base: u32,
    mem_size: u32,
    v: u64,
)
    requires
        crate::kernel::runtime::runtime_for(
            rt,
            lane,
            arena,
            kernel_entries,
            code_len,
            code_base,
            code_pa,
            data_base,
            mem_size,
        ),
        code_base + code_len + 4096 <= u32::MAX,
        data_base <= mem_size,
        mem_size + 4096 <= u32::MAX,
    ensures
        rt.lane == lane,
        rt.jit_va == 0x80_4000_0000 + arena.jit_offset,
        rt.dispatch_va == 0x80_4000_0000 + arena.dispatch_offset,
        rt.tramp_va == 0x80_4000_0000 + arena.tramp_offset,
        rt.exit_label_va == rt.jit_va + arena.exit_label_offset,
        rt.jit_size == arena.jit_size,
        rt.trap_table@ == arena.trap_table@,
        rt.code_base == code_base,
        rt.code_pa == code_pa,
        code_base + code_len <= rt.code_top < code_base + code_len + 4096,
        rt.data_base == data_base,
        mem_size <= rt.mem_top < mem_size + 4096,
        (rt.mem_top - data_base) % 4096 == 0,
        (rt.code_top - code_base) % 4096 == 0,
        rt.global_arena_token == arena.global_arena_token,
        rt.pt.leaf(v) is None,
{
}

/// Building an address space fails where there is no image, where its code is not in
/// kernel memory, and where nothing was compiled or no page is left; else it takes one
/// page.
pub proof fn law_address_space_takes_one_page(
    dir: crate::kernel::frame::CapMap,
    image_hash: CapHash,
    lane: crate::kernel::lane::ExecutionLane,
    mem: crate::kernel::caps::DataMem,
    arena: crate::kernel::runtime::CompiledArena,
    kernel_entries: Seq<u64>,
    code_pa: Option<u64>,
    data_base: u32,
    frames: Seq<u64>,
    frames_after: Seq<u64>,
    built: Result<crate::kernel::runtime::FrameRuntime, u32>,
)
    requires
        crate::kernel::entry::runtime_built(
            dir,
            image_hash,
            lane,
            mem,
            arena,
            kernel_entries,
            code_pa,
            data_base,
            frames,
            frames_after,
            built,
        ),
    ensures
        built is Ok <==> dir.contains_key(image_hash) && *dir[image_hash] is Image && code_pa is Some
            && arena.jit_size > 0 && frames.len() > 0,
        built is Err ==> frames_after == frames,
        built is Ok ==> frames_after.len() == frames.len() - 1,
        built matches Ok(rt) ==> rt.code_pa == code_pa->0 && rt.data_base == data_base,
        built matches Ok(rt) ==> (data_base + mem.backing@.len() * 4096 <= u32::MAX ==> rt.mem_top
            == data_base + mem.backing@.len() * 4096),
{
    if data_base + mem.backing@.len() * 4096 <= u32::MAX {
        assert((mem.backing@.len() * 4096) as u32 == mem.backing@.len() * 4096);
    }
}

/// A run of a compiled program starts with zero registers and the gas handed in, enters
/// through the trampoline, and has the pages that its native code needs and no more.
pub proof fn law_compiled_run_starts_clean(
    run: crate::kernel::pvm::PvmRun,
    program: crate::kernel::pvm::CompiledProgram,
    pages: crate::kernel::pvm::PvmPages,
    code_len: u32,
    jump_table_len: u32,
    initial_gas: i64,
    i: int,
)
    requires
        crate::kernel::pvm::run_of(run, program, pages, code_len, jump_table_len, initial_gas),
        0 <= i < 13,
    ensures
        run.context.regs@[i] == 0,
        run.context.gas == initial_gas,
        run.context.pc == 0,
        run.context.entry_pc == 0,
        run.context.bb_len == code_len,
        run.context.jt_len == jump_table_len,
        run.context.code_base == crate::kernel::pvm::PVM_JIT_VA,
        run.entry_va == crate::kernel::pvm::PVM_TRAMP_VA,
        run.exit_label_va == crate::kernel::pvm::PVM_JIT_VA + program.exit_label_offset,
        run.user_stack_top == crate::kernel::pvm::PVM_STACK_VA + 4096,
        program.native@.len() <= run.jit_len < program.native@.len() + 4096,
        run.jit_len % 4096 == 0,
{
}

proof fn lemma_dispatch_count(words: Seq<u32>)
    ensures
        crate::kernel::pvm::word_bytes(words).len() == 4 * words.len(),
    decreases words.len(),
{
    lemma_auto_spec_u32_to_from_le_bytes();
    if words.len() > 0 {
        lemma_dispatch_count(words.drop_last());
        assert(spec_u32_to_le_bytes(words.last()).len() == 4);
    }
}

proof fn lemma_dispatch_words(words: Seq<u32>, k: int)
    requires
        0 <= k < words.len(),
    ensures
        crate::kernel::pvm::word_bytes(words).len() == 4 * words.len(),
        crate::kernel::pvm::word_bytes(words).subrange(4 * k, 4 * k + 4) == spec_u32_to_le_bytes(
            words[k],
        ),
    decreases words.len(),
{
    lemma_auto_spec_u32_to_from_le_bytes();
    let rest = words.drop_last();
    let last = spec_u32_to_le_bytes(words.last());
    let all = crate::kernel::pvm::word_bytes(words);
    let before = crate::kernel::pvm::word_bytes(rest);
    lemma_dispatch_count(words);
    lemma_dispatch_count(rest);
    assert(last.len() == 4);
    assert(all == before + last);
    if k < rest.len() {
        lemma_dispatch_words(rest, k);
        assert(rest[k] == words[k]);
        assert(all.subrange(4 * k, 4 * k + 4) =~= before.subrange(4 * k, 4 * k + 4));
    } else {
        assert(all.subrange(4 * k, 4 * k + 4) =~= last);
    }
}

/// The dispatch table of a run reads back word by word.
pub proof fn law_dispatch_table_reads_back(
    run: crate::kernel::pvm::PvmRun,
    program: crate::kernel::pvm::CompiledProgram,
    pages: crate::kernel::pvm::PvmPages,
    code_len: u32,
    jump_table_len: u32,
    initial_gas: i64,
    k: int,
)
    requires
        crate::kernel::pvm::run_of(run, program, pages, code_len, jump_table_len, initial_gas),
        0 <= k < program.dispatch_table@.len(),
    ensures
        run.dispatch_bytes@.len() == 4 * program.dispatch_table@.len(),
        spec_u32_from_le_bytes(run.dispatch_bytes@.subrange(4 * k, 4 * k + 4))
            == program.dispatch_table@[k],
{
    lemma_dispatch_words(program.dispatch_table@, k);
    let word = program.dispatch_table@[k];
    lemma_auto_spec_u32_to_from_le_bytes();
    assert(spec_u32_to_le_bytes(word).len() == 4);
    assert(spec_u32_from_le_bytes(spec_u32_to_le_bytes(word)) == word);
}

/// A page is not compiled, and nothing changes, where its image is not there, where the
/// image has no such page, and where its native code does not fit; a page that is
/// compiled already is left as it is.
pub proof fn law_refused_page_changes_nothing(
    before: Map<CapHash, CompiledImage>,
    after: Map<CapHash, CompiledImage>,
    hash: CapHash,
    page: int,
    lazy: LazyPage,
    traps: Result<u64, u32>,
)
    requires
        page_compiled(before, after, hash, page, lazy, traps),
        0 <= page,
    ensures
        !before.contains_key(hash) ==> traps == Err::<u64, u32>(70) && after == before,
        before.contains_key(hash) && page >= before[hash].compiled@.len() ==> traps == Err::<
            u64,
            u32,
        >(71) && after == before,
        before.contains_key(hash) && page < before[hash].compiled@.len()
            && before[hash].compiled@[page] ==> traps == Ok::<u64, u32>(
            before[hash].trap_table@.len() as u64,
        ) && after == before,
        before.contains_key(hash) && page < before[hash].compiled@.len()
            && !before[hash].compiled@[page] && lazy.start + lazy.native@.len()
            > before[hash].jit_size ==> traps == Err::<u64, u32>(72) && after == before,
{
}

} // verus!
