//! Running one small program in an address space of its own, with its tables in the
//! page of its context.
use vstd::bytes::{spec_u32_to_le_bytes, u32_to_le_bytes};
use vstd::prelude::*;

use crate::cap::NUM_REGS;
use crate::kernel::fault::{in_jit_window, in_window, low_half, EXIT_PAGE_FAULT};
use crate::kernel::jit_cache::{trampoline, trampoline_bytes};
use crate::kernel::paging::{
    copy_pages, leaf_entry, lemma_space_fits, lemma_space_left, mapped_leaf, page_number, parts_leaf,
    space_fits, space_left, MapPart, PageTable, Perm, ENTRIES,
};

verus! {

/// Address of the context.
pub const PVM_CTX_VA: u64 = 0x1000_0000_0000;

/// Address of the native code.
pub const PVM_JIT_VA: u64 = 0x1000_0001_0000;

/// Address of the trampoline.
pub const PVM_TRAMP_VA: u64 = 0x1000_0002_0000;

/// Address of the stack.
pub const PVM_STACK_VA: u64 = 0x1000_0002_1000;

/// Where in the page of the context the dispatch table is.
pub const DISPATCH_TABLE_OFFSET: u64 = 0x800;

/// Size of a page.
pub const PVM_PAGE: u64 = 4096;

/// What the compiler makes of a program: native code, the native offset of every
/// byte of the program, the memory accesses, and the way out.
#[derive(Debug)]
pub struct CompiledProgram {
    pub native: Vec<u8>,
    pub dispatch_table: Vec<u32>,
    pub trap_table: Vec<(u32, u32)>,
    pub exit_label_offset: u32,
}

/// Physical pages of a run.
#[derive(Clone, Copy, Debug, PartialEq, Eq)]
pub struct PvmPages {
    pub ctx_pa: u64,
    pub jit_pa: u64,
    pub tramp_pa: u64,
    pub stack_pa: u64,
}

/// The context that a program starts with.
#[derive(Clone, Copy, Debug)]
pub struct PvmContext {
    pub regs: [u64; NUM_REGS],
    pub gas: i64,
    pub exit_reason: u32,
    pub exit_arg: u32,
    pub jt_len: u32,
    pub bb_len: u32,
    pub entry_pc: u32,
    pub pc: u32,
    pub dispatch_table: u64,
    pub code_base: u64,
}

/// What a run needs: the context, what is in its page from the dispatch table on, the
/// trampoline, the address space, and where user code starts.
#[derive(Debug)]
pub struct PvmRun {
    pub context: PvmContext,
    pub dispatch_bytes: Vec<u8>,
    pub tramp: Vec<u8>,
    pub pt: PageTable,
    pub new_cr3: u64,
    pub jit_len: u64,
    pub exit_label_va: u64,
    pub entry_va: u64,
    pub user_stack_top: u64,
}

/// How a run ended.
#[derive(Clone, Copy, Debug, PartialEq, Eq)]
pub struct PvmExit {
    pub exit_reason: u32,
    pub exit_arg: u32,
    pub gas_remaining: i64,
    pub reg_a0: u64,
}

/// Pages of the native code.
pub open spec fn jit_pages(program: CompiledProgram) -> int {
    (program.native@.len() + PVM_PAGE - 1) / PVM_PAGE as int
}

/// Words as bytes, the lowest first.
pub open spec fn word_bytes(words: Seq<u32>) -> Seq<u8>
    decreases words.len(),
{
    if words.len() == 0 {
        Seq::empty()
    } else {
        word_bytes(words.drop_last()) + spec_u32_to_le_bytes(words.last())
    }
}

fn words_to_bytes(words: &Vec<u32>) -> (bytes: Vec<u8>)
    ensures
        bytes@ == word_bytes(words@),
{
    let mut bytes: Vec<u8> = Vec::new();
    let mut i: usize = 0;
    assert(words@.take(0) =~= Seq::<u32>::empty());
    while i < words.len()
        invariant
            i <= words@.len(),
            bytes@ == word_bytes(words@.take(i as int)),
        decreases words@.len() - i,
    {
        let word = u32_to_le_bytes(words[i]);
        crate::abi::append_bytes(&mut bytes, word.as_slice());
        assert(words@.take(i + 1).drop_last() =~= words@.take(i as int));
        i = i + 1;
    }
    assert(words@.take(i as int) =~= words@);
    bytes
}

/// What user data is mapped with, and user code.
pub open spec fn data_perm() -> Perm {
    Perm { writable: true, user: true, executable: false }
}

pub open spec fn code_perm() -> Perm {
    Perm { writable: false, user: true, executable: true }
}

/// What is mapped for a run whose native code takes `jit_pages` pages: the context,
/// the code, the trampoline and the stack.
pub open spec fn pvm_parts(pages: PvmPages, jit_pages: nat) -> Seq<MapPart> {
    seq![
        MapPart { va: PVM_CTX_VA, pa: pages.ctx_pa, len: PVM_PAGE, perm: data_perm() },
        MapPart {
            va: PVM_JIT_VA,
            pa: pages.jit_pa,
            len: (jit_pages * PVM_PAGE) as u64,
            perm: code_perm(),
        },
        MapPart { va: PVM_TRAMP_VA, pa: pages.tramp_pa, len: PVM_PAGE, perm: code_perm() },
        MapPart { va: PVM_STACK_VA, pa: pages.stack_pa, len: PVM_PAGE, perm: data_perm() },
    ]
}

/// The leaf of `v` in the address space of a run.
pub open spec fn pvm_leaf(pages: PvmPages, jit_pages: nat, v: u64) -> Option<u64> {
    parts_leaf(None, v, pvm_parts(pages, jit_pages), 4)
}

/// Whether a run is that of a program with its registers at zero.
pub open spec fn run_of(
    run: PvmRun,
    program: CompiledProgram,
    pages: PvmPages,
    code_len: u32,
    jump_table_len: u32,
    initial_gas: i64,
) -> bool {
    &&& run.context.regs@ == Seq::new(NUM_REGS as nat, |i: int| 0u64)
    &&& run.context.gas == initial_gas
    &&& run.context.exit_reason == 0
    &&& run.context.exit_arg == 0
    &&& run.context.jt_len == jump_table_len
    &&& run.context.bb_len == code_len
    &&& run.context.entry_pc == 0
    &&& run.context.pc == 0
    &&& run.context.dispatch_table == PVM_CTX_VA + DISPATCH_TABLE_OFFSET
    &&& run.context.code_base == PVM_JIT_VA
    &&& run.dispatch_bytes@ == word_bytes(program.dispatch_table@)
    &&& run.tramp@ == trampoline_bytes(PVM_CTX_VA, PVM_JIT_VA)
    &&& forall|v: u64| #[trigger]
        run.pt.leaf(v) == pvm_leaf(pages, jit_pages(program) as nat, v)
    &&& run.new_cr3 == run.pt.frame() & crate::kernel::flag::PA_MASK
    &&& run.jit_len == jit_pages(program) * PVM_PAGE
    &&& run.exit_label_va == PVM_JIT_VA + program.exit_label_offset
    &&& run.entry_va == PVM_TRAMP_VA
    &&& run.user_stack_top == PVM_STACK_VA + PVM_PAGE
}

/// Set up the run of a program. `None` if there is no native code, or if the pages
/// for the page table run out. The dispatch table has to fit in the page of the
/// context.
pub fn run_pvm(
    program: &CompiledProgram,
    code_len: u32,
    jump_table_len: u32,
    initial_gas: i64,
    pages: &PvmPages,
    kernel_entries: &[u64; ENTRIES],
    frames: &mut Vec<u64>,
) -> (run: Option<PvmRun>)
    requires
        DISPATCH_TABLE_OFFSET + 4 * program.dispatch_table@.len() <= PVM_PAGE,
        PVM_JIT_VA + jit_pages(*program) * PVM_PAGE <= u64::MAX,
        pages.ctx_pa % PVM_PAGE == 0 && pages.ctx_pa + PVM_PAGE <= u64::MAX,
        pages.jit_pa % PVM_PAGE == 0 && pages.jit_pa + jit_pages(*program) * PVM_PAGE
            <= u64::MAX,
        pages.tramp_pa % PVM_PAGE == 0 && pages.tramp_pa + PVM_PAGE <= u64::MAX,
        pages.stack_pa % PVM_PAGE == 0 && pages.stack_pa + PVM_PAGE <= u64::MAX,
    ensures
        run is Some <==> program.native@.len() > 0 && space_fits(
            kernel_entries@,
            pvm_parts(*pages, jit_pages(*program) as nat),
            4,
            old(frames)@.len(),
        ),
        run matches Some(r) ==> run_of(
            r,
            *program,
            *pages,
            code_len,
            jump_table_len,
            initial_gas,
        ),
        run is Some ==> final(frames)@ == space_left(
            old(frames)@,
            pvm_parts(*pages, jit_pages(*program) as nat),
        ),
        run is None ==> final(frames)@ == old(frames)@,
{
    let native: usize = program.native.len();
    if native == 0 {
        return None;
    }
    let whole: u64 = native as u64 / PVM_PAGE;
    let code_pages: u64 = if native as u64 % PVM_PAGE == 0 {
        whole
    } else {
        whole + 1
    };
    let jit_len: u64 = code_pages * PVM_PAGE;
    let dispatch_bytes = words_to_bytes(&program.dispatch_table);
    let tramp = trampoline(PVM_CTX_VA, PVM_JIT_VA);
    let ghost taken = frames@;
    let ghost free = frames@.len();
    let mut left = copy_pages(frames);
    let mut pt = match PageTable::new(kernel_entries, &mut left) {
        None => return None,
        Some(pt) => pt,
    };
    let ghost empty = pt;
    let rw = Perm::user_rw();
    let rx = Perm::user_rx();
    let mut parts: Vec<MapPart> = Vec::new();
    parts.push(MapPart { va: PVM_CTX_VA, pa: pages.ctx_pa, len: PVM_PAGE, perm: rw });
    parts.push(MapPart { va: PVM_JIT_VA, pa: pages.jit_pa, len: jit_len, perm: rx });
    parts.push(MapPart { va: PVM_TRAMP_VA, pa: pages.tramp_pa, len: PVM_PAGE, perm: rx });
    parts.push(MapPart { va: PVM_STACK_VA, pa: pages.stack_pa, len: PVM_PAGE, perm: rw });
    proof {
        assert(parts@ =~= pvm_parts(*pages, jit_pages(*program) as nat));
        lemma_space_fits(empty, kernel_entries@, parts@, 4, free);
    }
    if pt.map_parts(&parts, &mut left).is_err() {
        return None;
    }
    proof {
        lemma_space_left(empty, taken, parts@);
    }
    *frames = left;
    let new_cr3: u64 = pt.cr3();
    let context = PvmContext {
        regs: [0;NUM_REGS],
        gas: initial_gas,
        exit_reason: 0,
        exit_arg: 0,
        jt_len: jump_table_len,
        bb_len: code_len,
        entry_pc: 0,
        pc: 0,
        dispatch_table: PVM_CTX_VA + DISPATCH_TABLE_OFFSET,
        code_base: PVM_JIT_VA,
    };
    assert(context.regs@ =~= Seq::new(NUM_REGS as nat, |i: int| 0u64));
    assert forall|v: u64| #[trigger] pt.leaf(v) == pvm_leaf(
        *pages,
        jit_pages(*program) as nat,
        v,
    ) by {
        assert(empty.leaf(v) is None);
    }
    Some(
        PvmRun {
            context,
            dispatch_bytes,
            tramp,
            pt,
            new_cr3,
            jit_len,
            exit_label_va: PVM_JIT_VA + program.exit_label_offset as u64,
            entry_va: PVM_TRAMP_VA,
            user_stack_top: PVM_STACK_VA + PVM_PAGE,
        },
    )
}

/// The parts of a run whose native code takes no more than the room for it are in
/// pages of their own, so what is mapped for one is not overwritten by another.
pub proof fn law_parts_of_a_run_are_apart(pages: PvmPages, n: nat, k: int)
    requires
        0 <= k < n <= 16,
    ensures
        pvm_leaf(pages, n, PVM_CTX_VA) == Some(leaf_entry(pages.ctx_pa, data_perm())),
        pages.jit_pa + n * PVM_PAGE <= u64::MAX ==> pvm_leaf(
            pages,
            n,
            (PVM_JIT_VA + k * PVM_PAGE) as u64,
        ) == Some(leaf_entry((pages.jit_pa + k * PVM_PAGE) as u64, code_perm())),
        pvm_leaf(pages, n, PVM_TRAMP_VA) == Some(leaf_entry(pages.tramp_pa, code_perm())),
        pvm_leaf(pages, n, PVM_STACK_VA) == Some(leaf_entry(pages.stack_pa, data_perm())),
{
    reveal_with_fuel(mapped_leaf, 2);
    reveal_with_fuel(parts_leaf, 5);
    lemma_page_numbers(PVM_CTX_VA, 0);
    lemma_page_numbers(PVM_CTX_VA, 0x20);
    lemma_page_numbers(PVM_CTX_VA, 0x21);
    let jit = (PVM_JIT_VA + k * PVM_PAGE) as u64;
    lemma_page_numbers(PVM_CTX_VA, (0x10 + k) as u64);
    let base = mapped_leaf(None, PVM_CTX_VA, PVM_CTX_VA, pages.ctx_pa, 1, data_perm());
    lemma_not_in_code(base, PVM_CTX_VA, 0, pages.jit_pa, n);
    let ctx = mapped_leaf(None, jit, PVM_CTX_VA, pages.ctx_pa, 1, data_perm());
    lemma_in_code(ctx, pages.jit_pa, n, k);
}

proof fn lemma_page_numbers(base: u64, k: u64)
    requires
        base == 0x1000_0000_0000,
        k <= 0x100,
    ensures
        page_number((base + k * PVM_PAGE) as u64) == page_number(base) + k,
{
    assert(((base + k * 4096) as u64 >> 12) & 0xF_FFFF_FFFF == ((base >> 12) & 0xF_FFFF_FFFF) + k)
        by (bit_vector)
        requires
            base == 0x1000_0000_0000,
            k <= 0x100,
    ;
}

proof fn lemma_not_in_code(before: Option<u64>, v: u64, at: u64, jit_pa: u64, n: nat)
    requires
        v == PVM_CTX_VA + at * PVM_PAGE,
        at == 0,
        n <= 16,
    ensures
        mapped_leaf(before, v, PVM_JIT_VA, jit_pa, n, code_perm()) == before,
    decreases n,
{
    if n > 0 {
        lemma_page_numbers(PVM_CTX_VA, (0x10 + n - 1) as u64);
        lemma_page_numbers(PVM_CTX_VA, at);
        lemma_not_in_code(before, v, at, jit_pa, (n - 1) as nat);
    }
}

proof fn lemma_in_code(before: Option<u64>, jit_pa: u64, n: nat, k: int)
    requires
        0 <= k < n <= 16,
    ensures
        mapped_leaf(
            before,
            (PVM_JIT_VA + k * PVM_PAGE) as u64,
            PVM_JIT_VA,
            jit_pa,
            n,
            code_perm(),
        ) == Some(leaf_entry((jit_pa + k * PVM_PAGE) as u64, code_perm())),
    decreases n,
{
    lemma_page_numbers(PVM_CTX_VA, (0x10 + n - 1) as u64);
    lemma_page_numbers(PVM_CTX_VA, (0x10 + k) as u64);
    if k < n - 1 {
        lemma_in_code(before, jit_pa, (n - 1) as nat, k);
    }
}

/// The result of a run, from the context that it left.
pub fn pvm_exit(context: &PvmContext) -> (exit: PvmExit)
    ensures
        exit == (PvmExit {
            exit_reason: context.exit_reason,
            exit_arg: context.exit_arg,
            gas_remaining: context.gas,
            reg_a0: context.regs@[7],
        }),
{
    PvmExit {
        exit_reason: context.exit_reason,
        exit_arg: context.exit_arg,
        gas_remaining: context.gas,
        reg_a0: context.regs[7],
    }
}

/// The place in the program of the memory access at or before a native offset.
pub open spec fn access_at(traps: Seq<(u32, u32)>, offset: u32) -> u32
    decreases traps.len(),
{
    if traps.len() == 0 {
        0
    } else if traps.last().0 <= offset {
        traps.last().1
    } else {
        access_at(traps.drop_last(), offset)
    }
}

fn find_access(traps: &Vec<(u32, u32)>, offset: u32) -> (pc: u32)
    ensures
        pc == access_at(traps@, offset),
{
    let mut n: usize = traps.len();
    assert(traps@.take(n as int) =~= traps@);
    while n > 0
        invariant
            n <= traps@.len(),
            access_at(traps@, offset) == access_at(traps@.take(n as int), offset),
        decreases n,
    {
        assert(traps@.take(n as int).drop_last() =~= traps@.take(n - 1));
        if traps[n - 1].0 <= offset {
            return traps[n - 1].1;
        }
        n = n - 1;
    }
    0
}

/// Decide about a page fault at `rip` on address `gva`: it is the program's, which is
/// left at the address returned, if it is in the native code; else nothing changes.
pub fn pvm_fault(
    run: &PvmRun,
    trap_table: &Vec<(u32, u32)>,
    rip: u64,
    gva: u64,
    context: &mut PvmContext,
) -> (resume: Option<u64>)
    ensures
        resume == (if in_window(PVM_JIT_VA, run.jit_len, rip) {
            Some(run.exit_label_va)
        } else {
            None
        }),
        resume is None ==> *final(context) == *old(context),
        resume is Some ==> *final(context) == (PvmContext {
            exit_reason: EXIT_PAGE_FAULT,
            exit_arg: low_half(gva),
            pc: access_at(trap_table@, low_half((rip - PVM_JIT_VA) as u64)),
            ..*old(context)
        }),
{
    if !in_jit_window(PVM_JIT_VA, run.jit_len, rip) {
        return None;
    }
    let offset: u32 = ((rip - PVM_JIT_VA) % 0x1_0000_0000) as u32;
    context.exit_reason = EXIT_PAGE_FAULT;
    context.exit_arg = (gva % 0x1_0000_0000) as u32;
    context.pc = find_access(trap_table, offset);
    Some(run.exit_label_va)
}

} // verus!
