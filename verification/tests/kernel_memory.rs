//! Page tables, arenas, compiled images and page faults of the guest kernel.
use std::sync::Arc;

use javm::cap::{EndpointDef, NUM_REGS};
use javm::hash::CapHash;
use javm::kernel::bump::BumpArena;
use javm::kernel::call_loop::{EntryRun, KernelTask, TaskPoll};
use javm::kernel::caps::{
    DataMem, KernelDirectory, KernelImageCap, KernelMapping, KeySlotCap, Page, Role, WireCap,
    WireInstance, WireTarget,
};
use javm::kernel::dispatch::{Kernel, KernelConfig};
use javm::kernel::entry::{build_runtime, run_one_entry, ERR_JIT_FAILED, ERR_MAP_BAD_KIND};
use javm::kernel::fault::{in_jit_window, jit_pf_handler, Fault, FaultAction, EXIT_PAGE_FAULT};
use javm::kernel::flag;
use javm::kernel::frame::ERR_IMAGE_NOT_FOUND;
use javm::kernel::gas::{FrameGas, TaskGasState};
use javm::kernel::image_mem::{
    build_instance_mem, build_mat_ranges, compose_instance_mem, evict_mem_cache, MemCache,
};
use javm::kernel::jit_cache::{
    page_round_up_min1, trampoline, ArenaLayout, CompileCache, GlobalPd, LazyInit, LazyPage,
    ERR_LAZY_ARENA_FULL, ERR_LAZY_NO_IMAGE, ERR_LAZY_PAGE_OOB,
};
use javm::kernel::key::{contains_key, sorted_set, Key};
use javm::kernel::lane::ExecutionLane;
use javm::kernel::materialize::{
    cow_into_fresh, page_kind, touch_data_page, trap_lookup, try_materialize, MatCosts,
    KIND_EPHEMERAL,
};
use javm::kernel::page_alloc::PageBuf;
use javm::kernel::paging::{AddressMap, MapPart, PageTable, Perm, TemplatePT, ENTRIES};
use javm::kernel::pool::{arena, pages, pool_requests, LazyPool};
use javm::kernel::probe::{
    bump_smoke, control_word, exit_word, fault_word, faulting_page, native_word, privilege_level,
    probe_space, PROBE_NO_MAPPING, PROBE_NO_TABLE,
};
use javm::kernel::pvm::{pvm_exit, pvm_fault, run_pvm, CompiledProgram, PvmPages, PVM_JIT_VA};
use javm::kernel::ring3::{current_execution_lane, msr_halves, Ring3Lanes};
use javm::kernel::runtime::{
    build_frame_runtime, entry_context, exit_info, CompiledArena, FrameRuntime, LaneArenas,
    MatRange, CTX_VA, KIND_PINNED_RO, KIND_UNPINNED_COW, META_BASE,
};
use javm::kernel::segments::{idt_descriptor, with_dpl3_handler, IdtEntry};
use javm::kernel::walk::{pt_lookup_leaf, pt_remap_leaf, TableMemory};

const MAP: AddressMap = AddressMap {
    scratch_gva: 0xFFFF_F000_0000_0000,
    scratch_gpa: 0x10_0000_0000,
    kernel_base: 0xFFFF_EFFF_0000_0000,
};

const COSTS: MatCosts = MatCosts { page_in: 100, first_write: 250, upgrade: 150 };

fn free_pages(n: u64) -> Vec<u64> {
    (0..n).map(|i| 0x80_0000 + i * 4096).collect()
}

/// The page of an address that goes through no table of somebody else.
fn page_of(pt: &PageTable, va: u64) -> Option<u64> {
    pt_lookup_leaf(pt, &TableMemory::new(), &MAP, va)
}

/// A table with one entry, where the kernel finds the page at `pa`.
fn put_table(tables: &mut TableMemory, pa: u64, index: usize, entry: u64) {
    let mut table = vec![0u64; ENTRIES];
    table[index] = entry;
    tables.insert(MAP.pa_to_va(pa).unwrap(), table);
}

#[test]
fn walks_go_through_the_tables_of_the_kernel() {
    let mut kernel = [0u64; ENTRIES];
    kernel[1] = 0x20_0000 | flag::P;
    let mut tables = TableMemory::new();
    put_table(&mut tables, 0x20_0000, 2, 0x20_1000 | flag::P);
    put_table(&mut tables, 0x20_1000, 3, 0x20_2000 | flag::P);
    put_table(&mut tables, 0x20_2000, 4, 0x55_5000 | flag::P);
    let mut frames = free_pages(5);
    let mut pt = PageTable::new(&kernel, &mut frames).unwrap();
    let va = (1 << 39) | (2 << 30) | (3 << 21) | (4 << 12);
    assert_eq!(pt_lookup_leaf(&pt, &tables, &MAP, va + 0x123), Some(0x55_5000));
    assert_eq!(pt_lookup_leaf(&pt, &tables, &MAP, va + 0x1000), None);
    assert_eq!(pt_lookup_leaf(&pt, &tables, &MAP, va + (1 << 21)), None);
    pt_remap_leaf(&mut pt, &mut tables, &MAP, va, 0x66_6000, Perm::user_ro()).unwrap();
    assert_eq!(pt_lookup_leaf(&pt, &tables, &MAP, va), Some(0x66_6000));
    pt_remap_leaf(&mut pt, &mut tables, &MAP, va + 0x1000, 0x77_7000, Perm::user_ro()).unwrap();
    assert_eq!(pt_lookup_leaf(&pt, &tables, &MAP, va + 0x1000), Some(0x77_7000));
    let far = va + (1 << 30);
    assert!(pt_remap_leaf(&mut pt, &mut tables, &MAP, far, 0, Perm::user_ro()).is_none());
    put_table(&mut tables, 0x20_1000, 3, 0x20_2000 | flag::P | flag::PS);
    assert_eq!(pt_lookup_leaf(&pt, &tables, &MAP, va), None);
    assert!(pt.map_one(va, 0x1000, Perm::user_rw(), &mut frames).is_none());
}

#[test]
fn a_kernel_half_may_reach_past_the_physical_scratch_base() {
    let map = AddressMap {
        scratch_gva: 0xFFFF_FFFF_F000_0000,
        scratch_gpa: 0xF_F000_0000,
        kernel_base: 0xFFFF_FF80_0000_1000,
    };
    for va in [map.kernel_base, map.kernel_base + 0x1234_5678, map.scratch_gva + 0x42] {
        assert_eq!(map.pa_to_va(map.va_to_pa(va).unwrap()), Some(va));
    }
    let mut a = BumpArena::from_existing(&map, 0x10_0000, 0x2000).unwrap();
    assert_eq!(a.alloc_pages(1), map.pa_to_va(0x10_0000));
    assert_eq!((a.used(), a.capacity()), (0x1000, 0x2000));
    let buf = PageBuf::new(map.kernel_base + 0x7000, 1).unwrap();
    assert_eq!(map.pa_to_va(buf.pa(&map)), Some(buf.kva()));
}

#[test]
fn kernel_addresses_translate_both_ways() {
    for va in [MAP.scratch_gva, MAP.scratch_gva + 0x1234, MAP.kernel_base, MAP.kernel_base + 9] {
        let pa = MAP.va_to_pa(va).unwrap();
        assert_eq!(MAP.pa_to_va(pa), Some(va));
    }
    assert_eq!(MAP.va_to_pa(MAP.kernel_base), Some(0x1000));
    assert_eq!(MAP.va_to_pa(0x4000), None);
    assert_eq!(MAP.pa_to_va(0xFFF), None);
    assert_eq!(MAP.kernel_base_va(), MAP.kernel_base);
}

#[test]
fn permissions_are_bits_of_an_entry() {
    assert_eq!(Perm::user_rw().pte_flags(), flag::P | flag::RW | flag::US | flag::NX);
    assert_eq!(Perm::user_rx().pte_flags(), flag::P | flag::US);
    assert_eq!(Perm::user_ro().pte_flags(), flag::P | flag::US | flag::NX);
    assert_eq!(Perm::kernel_rw().pte_flags(), flag::P | flag::RW | flag::NX);
}

#[test]
fn mapped_pages_are_looked_up() {
    let mut frames = free_pages(5);
    let mut pt = PageTable::new(&[0; ENTRIES], &mut frames).unwrap();
    assert_eq!(pt.cr3(), 0x80_4000);
    assert_eq!(page_of(&pt, 0x40_0000), None);
    pt.map(0x40_0000, 0x123_0000, 0x3000, Perm::user_rw(), &mut frames).unwrap();
    assert_eq!(frames.len(), 1);
    assert_eq!(pt.cr3(), 0x80_4000);
    assert_eq!(pt.pml4_kva(&MAP), MAP.pa_to_va(pt.cr3()));
    assert_eq!(page_of(&pt, 0x40_0000), Some(0x123_0000));
    assert_eq!(page_of(&pt, 0x40_2FFF), Some(0x123_2000));
    assert_eq!(page_of(&pt, 0x40_3000), None);
    assert!(pt.set_leaf_w(0x40_1000, false));
    assert!(!pt.set_leaf_w(0x40_3000, false));
    let none = &mut TableMemory::new();
    pt_remap_leaf(&mut pt, none, &MAP, 0x40_1000, 0x777_0000, Perm::user_ro()).unwrap();
    assert_eq!(page_of(&pt, 0x40_1000), Some(0x777_0000));
    assert!(pt_remap_leaf(&mut pt, none, &MAP, 0x8000_0000_0000, 0, Perm::user_ro()).is_none());
}

#[test]
fn tables_are_made_only_where_they_are_missing() {
    let mut frames = free_pages(1 + 3 + 1);
    let mut pt = PageTable::new(&[0; ENTRIES], &mut frames).unwrap();
    pt.map_one(0x40_0000, 0x1000, Perm::user_ro(), &mut frames).unwrap();
    assert_eq!(frames.len(), 1);
    pt.map_one(0x40_1000, 0x2000, Perm::user_ro(), &mut frames).unwrap();
    assert_eq!(frames.len(), 1);
    pt.map_one(0x60_0000, 0x3000, Perm::user_ro(), &mut frames).unwrap();
    assert_eq!(frames.len(), 0);
    assert!(pt.map_one(0x80_0000, 0x4000, Perm::user_ro(), &mut frames).is_none());
    assert_eq!(page_of(&pt, 0x80_0000), None);
    assert_eq!(page_of(&pt, 0x60_0000), Some(0x3000));
}

#[test]
fn what_belongs_to_the_kernel_is_not_mapped_over() {
    let mut kernel = [0u64; ENTRIES];
    kernel[0] = 0x9000 | flag::P;
    let mut frames = free_pages(9);
    let mut pt = PageTable::new(&kernel, &mut frames).unwrap();
    assert!(pt.map_one(0x1000, 0x1000, Perm::user_rw(), &mut frames).is_none());
    assert_eq!(frames.len(), 8);
    assert!(PageTable::new(&kernel, &mut Vec::new()).is_none());
}

#[test]
fn borrowed_tables_block_their_region() {
    let mut frames = free_pages(9);
    let mut pt = PageTable::new(&[0; ENTRIES], &mut frames).unwrap();
    pt.install_borrowed_pd(0x4000_0000, 0xABC_D000, &mut frames).unwrap();
    assert!(pt.map_one(0x4000_1000, 0x1000, Perm::user_rw(), &mut frames).is_none());
    assert!(pt.map_one(0x8000_0000, 0x1000, Perm::user_rw(), &mut frames).is_some());
    let mut tables = TableMemory::new();
    put_table(&mut tables, 0xABC_D000, 0, 0xABC_E000 | flag::P);
    put_table(&mut tables, 0xABC_E000, 1, 0x12_3000 | flag::P);
    assert_eq!(pt_lookup_leaf(&pt, &tables, &MAP, 0x4000_1000), Some(0x12_3000));
    assert_eq!(page_of(&pt, 0x8000_0000), Some(0x1000));
    pt.install_borrowed_pdpt(0, 0xDEF_0000);
    put_table(&mut tables, 0xDEF_0000, 1, 0xABC_D000 | flag::P);
    assert_eq!(pt_lookup_leaf(&pt, &tables, &MAP, 0x8000_0000), None);
    assert_eq!(pt_lookup_leaf(&pt, &tables, &MAP, 0x4000_1000), Some(0x12_3000));
    assert!(pt.map_one(0x8000_0000, 0x1000, Perm::user_rw(), &mut frames).is_none());
}

#[test]
fn template_maps_its_pages() {
    let mut frames = free_pages(2);
    let mut template = TemplatePT::new(&mut frames).unwrap();
    assert_eq!(template.pd_pa(), 0x80_1000);
    template.map_leaf(0x2000, 0x5000, Perm::user_rx(), &mut frames).unwrap();
    assert!(template.map_leaf(0x20_0000, 0x6000, Perm::user_rx(), &mut frames).is_none());
    assert!(template.map_leaf(0x3000, 0x6000, Perm::user_rx(), &mut frames).is_some());
}

#[test]
fn arena_hands_out_aligned_memory() {
    let mut a = BumpArena::from_existing(&MAP, MAP.scratch_gpa, 0x3000).unwrap();
    assert_eq!(a.alloc_bytes(3, 1), Some(MAP.scratch_gva));
    assert_eq!(a.alloc_bytes(8, 8), Some(MAP.scratch_gva + 8));
    assert_eq!(a.alloc_pages(2), Some(MAP.scratch_gva + 0x1000));
    assert_eq!(a.used(), 0x3000);
    assert_eq!(a.alloc_bytes(1, 1), None);
    a.reset();
    assert_eq!(a.used(), 0);
    assert_eq!(a.capacity(), 0x3000);
    assert_eq!(a.alloc_pages(usize::MAX), None);
    assert!(BumpArena::from_existing(&MAP, 0, 0x1000).is_none());
}

#[test]
fn probes_report_in_words() {
    let mut a = BumpArena::from_existing(&MAP, MAP.scratch_gpa, 0x1000).unwrap();
    assert_eq!(bump_smoke(&mut a), 0x101);
    let mut none = BumpArena::from_existing(&MAP, MAP.scratch_gpa, 0).unwrap();
    assert_eq!(bump_smoke(&mut none), 0);
    assert_eq!(exit_word(4, 42), 0x4_0000_002A);
    assert_eq!(native_word(5000), 5000 * 65536 + 2);
    assert_eq!(fault_word(2, 0x1_0000_0000_0007), 2 * 0x1_0000_0000_0000 + 7);
    assert_eq!(control_word(0x8000_0011, 0x20, 0xD01), 0x000D_0100_2001_0011);
    assert_eq!(privilege_level(0x33), 3);
    assert_eq!(faulting_page(0x1234_5678), 0x1234_5000);
}

#[test]
fn probe_spaces_report_the_step_that_failed() {
    let parts = vec![
        MapPart { va: 0x1000_0000_0000, pa: 0x1000, len: 0x2000, perm: Perm::user_rx() },
        MapPart { va: 0x1080_0000_0000, pa: 0x9000, len: 0x1000, perm: Perm::user_rw() },
    ];
    let kernel = [0u64; ENTRIES];
    assert_eq!(probe_space(&kernel, &parts, &mut Vec::new()).err(), Some(PROBE_NO_TABLE));
    assert_eq!(
        probe_space(&kernel, &parts, &mut free_pages(3)).err(),
        Some(PROBE_NO_MAPPING)
    );
    assert_eq!(
        probe_space(&kernel, &parts, &mut free_pages(6)).err(),
        Some(PROBE_NO_MAPPING + 1)
    );
    let pt = probe_space(&kernel, &parts, &mut free_pages(7)).unwrap();
    assert_eq!(page_of(&pt, 0x1000_0000_1000), Some(0x2000));
    assert_eq!(page_of(&pt, 0x1080_0000_0000), Some(0x9000));
}

#[test]
fn pool_is_taken_once() {
    assert_eq!(pages(1), 1);
    assert_eq!(pages(4096), 1);
    assert_eq!(pages(4097), 2);
    let requests = pool_requests();
    assert_eq!(requests, vec![16384, 256, 1, 1024, 1024, 4096, 4096, 1, 1, 1024]);
    let mut lazy = LazyPool::new();
    assert!(lazy.is_missing());
    let bases = [1, 2, 3, 4, 5, 6, 7, 8, 9, MAP.scratch_gpa];
    let pool = lazy.get_or_init(&bases);
    assert_eq!((pool.mem_pa, pool.ctx_pa, pool.arena_pa), (1, 3, MAP.scratch_gpa));
    assert_eq!(lazy.get_or_init(&[0; 10]), pool);
    let tables = arena(&mut lazy, &[0; 10], &MAP).unwrap();
    assert_eq!(tables.capacity(), 0x40_0000);
    let buf = PageBuf::new(MAP.scratch_gva, 1).unwrap();
    assert_eq!((buf.size(), buf.kva(), buf.pa(&MAP)), (4096, MAP.scratch_gva, MAP.scratch_gpa));
    assert_eq!(MAP.pa_to_va(buf.pa(&MAP)), Some(buf.kva()));
    assert_eq!(PageBuf::new(0, 0).unwrap().size(), 4096);
    assert!(PageBuf::new(0, usize::MAX).is_none());
}

#[test]
fn exit_vector_is_open_to_user_code() {
    let empty = IdtEntry {
        offset_lo: 0,
        selector: 0,
        ist: 0,
        type_attr: 0,
        offset_mid: 0,
        offset_hi: 0,
        reserved: 0,
    };
    let idt = with_dpl3_handler(&vec![empty; 256], 0x81, 0x1122_3344_5566_7788, 1);
    let e = idt[0x81];
    assert_eq!((e.offset_lo, e.offset_mid, e.offset_hi), (0x7788, 0x5566, 0x1122_3344));
    assert_eq!((e.selector, e.ist, e.type_attr), (8, 1, 0xEE));
    assert_eq!(idt[0x80], empty);
    let d = idt_descriptor(0x5000);
    assert_eq!((d.limit, d.base), (4095, 0x5000));
}

#[test]
fn lanes_have_states_of_their_own() {
    let mut lanes = Ring3Lanes::new(0x7000);
    let first = lanes.prepare_ring3_entry(ExecutionLane::new(2));
    assert!(first.install_gate);
    assert_eq!(first.gs_base, 0x7000 + 128);
    let second = lanes.prepare_ring3_entry(ExecutionLane::new(3));
    assert!(!second.install_gate);
    assert_eq!(lanes.ptr(ExecutionLane::new(3)), 0x7000 + 192);
    assert_eq!(current_execution_lane(&lanes.lanes[2]).index(), 2);
    assert_eq!(lanes.lanes[0].lane_index, u64::MAX);
    assert_eq!(msr_halves(0x1122_3344_5566_7788), (0x5566_7788, 0x1122_3344));
}

#[test]
fn arena_is_laid_out_in_whole_pages() {
    assert_eq!(page_round_up_min1(0), 4096);
    assert_eq!(page_round_up_min1(4097), 8192);
    let layout = ArenaLayout::for_code(5000);
    assert_eq!(layout.bb_offset, 0);
    assert_eq!(layout.dispatch_offset, 8192);
    assert_eq!(layout.jit_offset, 8192 + 20480);
    assert_eq!(layout.tramp_offset, 28672 + 176128 + 4096);
    assert_eq!(layout.total, layout.tramp_offset + 4096);
    assert_eq!(layout.jit_va(0x1_0000), 0x1_0000 + 28672);
}

#[test]
fn trampoline_enters_and_leaves() {
    let bytes = trampoline(0x1122_3344_5566_7788, 2);
    assert_eq!(
        bytes,
        vec![
            0x48, 0xBF, 0x88, 0x77, 0x66, 0x55, 0x44, 0x33, 0x22, 0x11, 0x48, 0xB8, 2, 0, 0, 0, 0,
            0, 0, 0, 0xFF, 0xD0, 0xCD, 0x81, 0x0F, 0x0B
        ]
    );
}

fn init() -> LazyInit {
    LazyInit {
        valid_pc: vec![true, false, true, false],
        compile_stub_offset: 0x10,
        exit_label_offset: 0x20,
        native: vec![0x90, 0xC3],
    }
}

#[test]
fn pages_are_compiled_into_the_arena_once() {
    let hash: CapHash = [5; 32];
    let mut cache = CompileCache::new();
    assert!(cache.get_or_compile(&hash, &[1, 2, 3, 4], META_BASE, CTX_VA, 0x100_0000, init(), &mut Vec::new()).is_none());
    assert!(!cache.is_compiled(&hash));
    let mut frames = free_pages(2);
    let layout = {
        let image = cache
            .get_or_compile(&hash, &[1, 2, 3, 4], META_BASE, CTX_VA, 0x100_0000, init(), &mut frames)
            .unwrap();
        let l = image.layout;
        assert_eq!(image.arena[..4], [1, 0, 1, 0]);
        assert_eq!(image.arena[l.dispatch_offset..l.dispatch_offset + 12], [0x10, 0, 0, 0, 0, 0, 0, 0, 0x10, 0, 0, 0]);
        assert_eq!(image.arena[l.jit_offset..l.jit_offset + 3], [0x90, 0xC3, 0]);
        assert_eq!(image.arena[l.tramp_offset], 0x48);
        assert_eq!(image.template_pd_pa, 0x80_1000);
        l
    };
    assert!(cache.is_compiled(&hash));
    assert_eq!(frames.len(), 0);
    let page = LazyPage {
        start: 2,
        native: vec![7, 8, 9],
        dispatch_entries: vec![(2, 0x1234)],
        trap_entries: vec![(3, 0x1_0000)],
    };
    assert_eq!(cache.compile_page_into_arena(&[6; 32], 0, &page), Err(ERR_LAZY_NO_IMAGE));
    assert_eq!(cache.compile_page_into_arena(&hash, 1, &page), Err(ERR_LAZY_PAGE_OOB));
    let too_far = LazyPage {
        start: layout.tramp_offset - layout.jit_offset,
        native: vec![1],
        dispatch_entries: Vec::new(),
        trap_entries: Vec::new(),
    };
    assert_eq!(cache.compile_page_into_arena(&hash, 0, &too_far), Err(ERR_LAZY_ARENA_FULL));
    assert_eq!(cache.compile_page_into_arena(&hash, 0, &page), Ok(1));
    assert_eq!(cache.compile_page_into_arena(&hash, 0, &page), Ok(1));
    let image = cache.images.get(&hash).unwrap();
    assert_eq!(image.arena[layout.jit_offset + 2..layout.jit_offset + 5], [7, 8, 9]);
    assert_eq!(image.arena[layout.dispatch_offset + 8..layout.dispatch_offset + 12], [0x34, 0x12, 0, 0]);
    assert_eq!(image.trap_table, vec![(3, 0x1_0000)]);
    cache.evict_all();
    assert!(!cache.is_compiled(&hash));
}

#[test]
fn shared_directory_is_made_once() {
    let mut pd = GlobalPd::new();
    let mut short = free_pages(1);
    assert_eq!(pd.global_pd_pa(0x5000, 0x9000, &mut short), None);
    assert_eq!(short, free_pages(1));
    let mut frames = free_pages(2);
    assert_eq!(pd.global_pd_pa(0x5000, 0x9000, &mut frames), Some(0x80_1000));
    assert_eq!(pd.global_pd_pa(0x5000, 0x9000, &mut frames), Some(0x80_1000));
    assert!(frames.is_empty());
}

fn page(pa: u64, byte: u8) -> Arc<Page> {
    Arc::new(Page { pa, bytes: vec![byte; 4096] })
}

/// Memory of four pages at `DATA_BASE`: backed, zeros, backed, zeros.
const DATA_BASE: u32 = 0x1000_0000;

fn memory() -> DataMem {
    DataMem {
        backing: vec![Some(page(0xA000, 0xAA)), None, Some(page(0xB000, 0xBB)), None],
        overlay: Vec::new(),
    }
}

fn compiled() -> CompiledArena {
    CompiledArena {
        dispatch_offset: 0x1000,
        jit_offset: 0x2000,
        tramp_offset: 0x8000,
        jit_size: 0x6000,
        exit_label_offset: 0x30,
        trap_table: vec![(0x10, 0x1_0000, 4), (0x20, 0x1_0004, 0), (0x40, 0x1_0008, 8)],
        global_arena_token: 77,
        arena_size: 0x9000,
        template_pdpt_pa: 0x55_5000,
    }
}

fn runtime(frames: &mut Vec<u64>) -> FrameRuntime {
    let ranges = vec![
        MatRange { start: DATA_BASE + 0x2000, end: DATA_BASE + 0x3000, kind: KIND_PINNED_RO },
        MatRange { start: DATA_BASE, end: DATA_BASE + 0x4000, kind: KIND_UNPINNED_COW },
    ];
    build_frame_runtime(
        ExecutionLane::primary(),
        &compiled(),
        &[0; ENTRIES],
        0x1800,
        0x1_0000,
        0xC0_0000,
        DATA_BASE,
        DATA_BASE + 0x4000,
        ranges,
        frames,
    )
    .unwrap()
}

#[test]
fn address_space_of_a_frame() {
    let mut frames = free_pages(1);
    let rt = runtime(&mut frames);
    assert_eq!(rt.jit_va, META_BASE + 0x2000);
    assert_eq!(rt.dispatch_va, META_BASE + 0x1000);
    assert_eq!(rt.tramp_va, META_BASE + 0x8000);
    assert_eq!(rt.exit_label_va, META_BASE + 0x2030);
    assert_eq!(rt.global_arena_pages, 9);
    assert_eq!((rt.code_top, rt.mem_top), (0x1_2000, DATA_BASE + 0x4000));
    assert_eq!(rt.data_extent(), 0x4000);
    assert_eq!(rt.new_cr3, 0x80_0000);
    assert!(frames.is_empty());
    let regs: [u64; NUM_REGS] = [1, 2, 3, 4, 5, 6, 7, 8, 9, 10, 11, 12, 13];
    let ctx = entry_context(ExecutionLane::primary(), &rt, 500, 0x1_0004, &regs);
    assert_eq!(ctx.regs, [1, 2, 3, 4, 5, 6, 7, 8, 9, 10, 11, 12, 13, 0, 0]);
    assert_eq!((ctx.gas, ctx.entry_pc, ctx.pc), (500, 0x1_0004, 0x1_0004));
    let info = exit_info(&ctx);
    assert_eq!(info.regs, regs);
    assert_eq!(info.gas_remaining, 500);
}

#[test]
fn accesses_page_data_in_and_copy_it_on_write() {
    let mut frames = free_pages(10);
    let mut rt = runtime(&mut frames);
    let mut mem = memory();
    let mut states = vec![0u8; 4];
    let mut units = Vec::new();
    let mut touch = |rt: &mut FrameRuntime, mem: &mut DataMem, states: &mut Vec<u8>, frames: &mut Vec<u64>, va: u32, write: bool| {
        try_materialize(rt, mem, states, &mut units, frames, 0xF000, va, 4, write, &COSTS)
    };
    let read = touch(&mut rt, &mut mem, &mut states, &mut frames, DATA_BASE + 8, false).unwrap();
    assert_eq!((read.charge, read.flush.len()), (100, 0));
    assert_eq!(page_of(&rt.pt, DATA_BASE as u64), Some(0xA000));
    assert_eq!(states, vec![1, 0, 0, 0]);
    let again = touch(&mut rt, &mut mem, &mut states, &mut frames, DATA_BASE + 8, false).unwrap();
    assert_eq!(again.charge, 0);
    let write = touch(&mut rt, &mut mem, &mut states, &mut frames, DATA_BASE, true).unwrap();
    assert_eq!((write.charge, write.flush), (150, vec![DATA_BASE as u64]));
    let copy = mem.overlay_page(0).unwrap();
    assert_eq!(copy.bytes, vec![0xAA; 4096]);
    assert_eq!(page_of(&rt.pt, DATA_BASE as u64), Some(copy.pa));
    let first = touch(&mut rt, &mut mem, &mut states, &mut frames, DATA_BASE + 0x1000, true).unwrap();
    assert_eq!((first.charge, first.flush.len()), (250, 0));
    assert_eq!(mem.overlay_page(1).unwrap().bytes, vec![0; 4096]);
    let zero = touch(&mut rt, &mut mem, &mut states, &mut frames, DATA_BASE + 0x3000, false).unwrap();
    assert_eq!(zero.charge, 100);
    assert_eq!(page_of(&rt.pt, DATA_BASE as u64 + 0x3000), Some(0xF000));
    assert!(touch(&mut rt, &mut mem, &mut states, &mut frames, DATA_BASE + 0x2000, true).is_none());
    let pinned = touch(&mut rt, &mut mem, &mut states, &mut frames, DATA_BASE + 0x2000, false).unwrap();
    assert_eq!(pinned.charge, 0);
    assert_eq!(page_of(&rt.pt, DATA_BASE as u64 + 0x2000), Some(0xB000));
    assert!(touch(&mut rt, &mut mem, &mut states, &mut frames, DATA_BASE + 0x3FFE, false).is_none());
    let code = touch(&mut rt, &mut mem, &mut states, &mut frames, 0x1_0000, false).unwrap();
    assert_eq!(code.charge, 0);
    assert_eq!(page_of(&rt.pt, 0x1_1000), Some(0xC0_1000));
    assert!(touch(&mut rt, &mut mem, &mut states, &mut frames, 0x1_0000, true).is_none());
    assert_eq!(states, vec![2, 2, 0, 1]);
}

#[test]
fn written_pages_are_rearmed_and_get_their_permission_back() {
    let mut frames = free_pages(10);
    let mut rt = runtime(&mut frames);
    let mut mem = memory();
    let mut states = vec![0u8; 4];
    let base = DATA_BASE as u64;
    touch_data_page(&mut rt.pt, &mut mem, &mut states, &mut frames, base, 0, base, true, &COSTS)
        .unwrap();
    let left = frames.len();
    rt.rearm_cow(&mem.overlay);
    states[0] = 0;
    let back = touch_data_page(
        &mut rt.pt, &mut mem, &mut states, &mut frames, base, 0, base, true, &COSTS,
    );
    assert_eq!(back, Some((250, true)));
    assert_eq!(frames.len(), left);
    assert_eq!(mem.overlay.len(), 1);
}

#[test]
fn running_out_of_pages_stops_an_access() {
    let mut frames = free_pages(1);
    let mut rt = runtime(&mut frames);
    let mut mem = memory();
    let mut states = vec![0u8; 4];
    let mut units = Vec::new();
    assert!(try_materialize(
        &mut rt, &mut mem, &mut states, &mut units, &mut frames, 0, DATA_BASE, 1, true, &COSTS,
    )
    .is_none());
    assert_eq!(states, vec![0; 4]);
    assert!(mem.overlay.is_empty());
}

#[test]
fn the_page_of_a_copy_that_failed_is_free_again() {
    let mut kernel = [0u64; ENTRIES];
    kernel[0] = 0x9000 | flag::P;
    let mut frames = free_pages(9);
    let mut pt = PageTable::new(&kernel, &mut frames).unwrap();
    let mut mem = memory();
    let free = frames.clone();
    assert!(!cow_into_fresh(&mut pt, &mut mem, DATA_BASE as u64, 0, &mut frames));
    assert_eq!(frames, free);
    let mut short = free_pages(3);
    let mut pt = PageTable::new(&[0; ENTRIES], &mut short).unwrap();
    let last = short[1];
    assert!(!cow_into_fresh(&mut pt, &mut mem, DATA_BASE as u64, 0, &mut short));
    assert_eq!(short, vec![last]);
    assert!(mem.overlay.is_empty());
}

#[test]
fn faults_are_retried_or_left_to_the_guest() {
    let mut frames = free_pages(10);
    let mut rt = runtime(&mut frames);
    let mut mem = memory();
    let mut states = vec![0u8; 4];
    let mut units = Vec::new();
    let mut handle = |fault: Fault| {
        jit_pf_handler(&mut rt, &mut mem, &mut states, &mut units, &mut frames, 0xF000, &COSTS, &fault)
    };
    let jit = META_BASE + 0x2000;
    let read = Fault { rip: jit + 0x12, error_code: 4, gva: DATA_BASE as u64, gas: 1000 };
    assert!(matches!(handle(read), FaultAction::Retry { gas: 900, .. }));
    let write = Fault { rip: jit + 0x12, error_code: 6, gva: DATA_BASE as u64, gas: 900 };
    assert!(matches!(handle(write), FaultAction::Retry { gas: 750, flush } if flush == vec![DATA_BASE as u64]));
    let elsewhere = Fault { rip: 0x4000, error_code: 4, gva: DATA_BASE as u64, gas: 1 };
    assert!(matches!(handle(elsewhere), FaultAction::Decline));
    let no_width = Fault { rip: jit + 0x21, error_code: 4, gva: DATA_BASE as u64, gas: 1 };
    assert!(matches!(
        handle(no_width),
        FaultAction::Exit { exit_reason: EXIT_PAGE_FAULT, exit_arg: DATA_BASE, pc: 0x1_0004, .. }
    ));
    let outside = Fault { rip: jit + 0x44, error_code: 4, gva: 0x9000_0000, gas: 1 };
    match handle(outside) {
        FaultAction::Exit { exit_reason, exit_arg, pc, rip } => {
            assert_eq!((exit_reason, exit_arg, pc), (3, 0x9000_0000, 0x1_0008));
            assert_eq!(rip, META_BASE + 0x2030);
        }
        _ => panic!("expected the guest to be left"),
    }
    assert!(in_jit_window(10, 5, 14));
    assert!(!in_jit_window(10, 5, 15));
    assert!(!in_jit_window(10, 0, 10));
    assert_eq!(trap_lookup(&compiled().trap_table, 0xF), (0, 0));
    assert_eq!(trap_lookup(&compiled().trap_table, 0x1F), (0x1_0000, 4));
}

#[test]
fn switching_images_flushes_the_old_arena() {
    let mut lanes = LaneArenas::new();
    let lane = ExecutionLane::new(1);
    assert!(lanes.flush_global_arena_on_image_switch(lane, 7, 2).is_empty());
    assert!(lanes.flush_global_arena_on_image_switch(lane, 7, 2).is_empty());
    assert_eq!(
        lanes.flush_global_arena_on_image_switch(lane, 8, 3),
        vec![META_BASE, META_BASE + 4096]
    );
    assert!(lanes.flush_global_arena_on_image_switch(ExecutionLane::new(2), 9, 1).is_empty());
}

fn data_image(data: CapHash) -> KernelImageCap {
    KernelImageCap {
        hash: [1; 32],
        code_len: 4,
        code_base: 0x1_0000,
        endpoints: vec![(0, EndpointDef { entry_pc: 0x1_0000, initial_regs: [0; NUM_REGS] })],
        mappings: vec![
            KernelMapping {
                start: DATA_BASE as u64 + 0x1000,
                size: 0x1000,
                source: Some(Key::from_byte(3)),
                pinned: true,
            },
            KernelMapping { start: DATA_BASE as u64, size: 0x800, source: None, pinned: false },
        ],
        pinned: vec![KeySlotCap { slot: Key::from_byte(3), cap_hash: data }],
        initial: Vec::new(),
        gas_slots: Vec::new(),
        yield_receiver_slot: None,
    }
}

#[test]
fn memory_of_an_instance_is_composed_once() {
    let mut dir = KernelDirectory::new();
    let data = [9; 32];
    dir.insert(
        data,
        Arc::new(WireCap::Data(DataMem {
            backing: vec![Some(page(0xD000, 0xDD))],
            overlay: Vec::new(),
        })),
    );
    let img = data_image(data);
    let mem = compose_instance_mem(&dir, &img, DATA_BASE);
    assert_eq!(mem.content_len(), 0x2000);
    assert!(mem.page_at(0).is_none());
    assert_eq!(mem.page_at(1).unwrap().pa, 0xD000);
    let ranges = build_mat_ranges(&img, &mem, DATA_BASE);
    assert_eq!(ranges.len(), 2);
    assert_eq!((ranges[0].start, ranges[0].end, ranges[0].kind), (DATA_BASE + 0x1000, DATA_BASE + 0x2000, KIND_PINNED_RO));
    assert_eq!((ranges[1].start, ranges[1].end, ranges[1].kind), (DATA_BASE, DATA_BASE + 0x2000, KIND_UNPINNED_COW));
    assert_eq!(page_kind(&ranges, DATA_BASE + 0x1000), KIND_PINNED_RO);
    assert_eq!(page_kind(&ranges, 0), KIND_EPHEMERAL);
    let mut cache = MemCache::new();
    build_instance_mem(&dir, &mut cache, &[1; 32], &img, DATA_BASE);
    dir.clear();
    let again = build_instance_mem(&dir, &mut cache, &[1; 32], &img, DATA_BASE);
    assert_eq!(again.page_at(1).unwrap().pa, 0xD000);
    evict_mem_cache(&mut cache);
    let fresh = build_instance_mem(&dir, &mut cache, &[1; 32], &img, DATA_BASE);
    assert!(fresh.page_at(1).is_none());
}

#[test]
fn entries_are_built_once_and_kept() {
    let mut dir = KernelDirectory::new();
    let lane = ExecutionLane::primary();
    let entries = [0u64; ENTRIES];
    let mem = DataMem::zeroed(0x2000);
    let mut frames = free_pages(1);
    let build = |dir: &KernelDirectory, arena: &CompiledArena, code_pa: Option<u64>, frames: &mut Vec<u64>| {
        build_runtime(dir, &[1; 32], lane, &mem, arena, &entries, code_pa, DATA_BASE, frames).err()
    };
    assert_eq!(build(&dir, &compiled(), Some(0), &mut frames), Some(ERR_IMAGE_NOT_FOUND));
    dir.insert([1; 32], Arc::new(WireCap::Image(data_image([9; 32]))));
    assert_eq!(build(&dir, &compiled(), None, &mut frames), Some(ERR_MAP_BAD_KIND));
    assert_eq!(build(&dir, &compiled(), Some(0), &mut Vec::new()), Some(ERR_JIT_FAILED));
    let mut nothing = compiled();
    nothing.jit_size = 0;
    assert_eq!(build(&dir, &nothing, Some(0), &mut frames), Some(ERR_JIT_FAILED));
    let mut run = EntryRun {
        lane,
        image_hash: [1; 32],
        pc: 0x1_0000,
        regs: [6; NUM_REGS],
        gas: 9,
        mem: DataMem::zeroed(0x2000),
        mat_state: vec![0, 0],
        ro_units: Vec::new(),
        runtime: None,
    };
    let mut frames = free_pages(1);
    let ctx = run_one_entry(&mut run, &dir, &compiled(), &entries, Some(0xC0_0000), DATA_BASE, &mut frames).unwrap();
    assert_eq!((ctx.gas, ctx.pc, ctx.regs[12]), (9, 0x1_0000, 6));
    assert!(frames.is_empty());
    assert_eq!(run.runtime.as_ref().unwrap().mem_top, DATA_BASE + 0x2000);
    dir.clear();
    assert!(run_one_entry(&mut run, &dir, &compiled(), &entries, None, DATA_BASE, &mut frames).is_ok());
}

#[test]
fn small_programs_run_in_a_space_of_their_own() {
    let program = CompiledProgram {
        native: vec![0x90; 5000],
        dispatch_table: vec![0x11, 0x22],
        trap_table: vec![(0x100, 7)],
        exit_label_offset: 0x44,
    };
    let p = PvmPages { ctx_pa: 0x1000, jit_pa: 0x2000, tramp_pa: 0x8000, stack_pa: 0x9000 };
    assert!(run_pvm(&program, 8, 1, 50, &p, &[0; ENTRIES], &mut free_pages(3)).is_none());
    let run = run_pvm(&program, 8, 1, 50, &p, &[0; ENTRIES], &mut free_pages(4)).unwrap();
    assert_eq!(run.dispatch_bytes, vec![0x11, 0, 0, 0, 0x22, 0, 0, 0]);
    assert_eq!(run.jit_len, 8192);
    assert_eq!(run.exit_label_va, PVM_JIT_VA + 0x44);
    assert_eq!(page_of(&run.pt, PVM_JIT_VA + 4096), Some(0x3000));
    assert_eq!((run.context.gas, run.context.bb_len, run.context.jt_len), (50, 8, 1));
    let mut context = run.context;
    assert_eq!(pvm_fault(&run, &program.trap_table, 5, 0x9999, &mut context), None);
    let resume = pvm_fault(&run, &program.trap_table, PVM_JIT_VA + 0x101, 0x9999, &mut context);
    assert_eq!(resume, Some(PVM_JIT_VA + 0x44));
    let exit = pvm_exit(&context);
    assert_eq!((exit.exit_reason, exit.exit_arg), (3, 0x9999));
    assert_eq!(context.pc, 7);
    let nothing = CompiledProgram { native: Vec::new(), ..program };
    assert!(run_pvm(&nothing, 8, 1, 50, &p, &[0; ENTRIES], &mut free_pages(9)).is_none());
}

#[test]
fn keys_are_ordered_and_listed_once() {
    let k = |bytes: &[u8]| Key { bytes: bytes.to_vec() };
    assert!(k(&[1]).less(&k(&[1, 0])));
    assert!(k(&[1, 9]).less(&k(&[2])));
    assert!(!k(&[2]).less(&k(&[2])));
    let set = sorted_set(&[k(&[2]), k(&[1, 5]), k(&[2]), k(&[1])]);
    let bytes: Vec<Vec<u8>> = set.iter().map(|x| x.bytes.clone()).collect();
    assert_eq!(bytes, vec![vec![1], vec![1, 5], vec![2]]);
    assert!(contains_key(&set, &k(&[1, 5])));
    assert!(!contains_key(&set, &k(&[5])));
    assert_eq!(Key::from_reg(0x1FF).bytes, vec![0xFF]);
    assert_eq!(Key::from_label("gas").bytes, b"gas".to_vec());
}

#[test]
fn meters_are_shared_by_their_key() {
    let a = Key::from_byte(1);
    let b = Key::from_byte(2);
    let mut gas = FrameGas::declared(vec![a.duplicate(), b.duplicate()]);
    assert_eq!(gas.active_key().unwrap().bytes, vec![1]);
    let mut state = TaskGasState::new(&gas, 100);
    assert_eq!(state.live_gas, 100);
    assert_eq!(state.set_meter(b.duplicate(), 70), 0);
    assert_eq!(state.set_meter(a.duplicate(), 100), 100);
    assert_eq!((state.meters.get(&a), state.meters.get(&b)), (Some(&100), Some(&70)));
    state.reconcile(Some(a.duplicate()));
    assert_eq!((state.live_gas, state.host_budget), (100, 100));
    state.live_gas = 60;
    state.reconcile(Some(b.duplicate()));
    assert_eq!(state.live_gas, 70);
    state.live_gas = 50;
    state.reconcile(Some(a.duplicate()));
    assert_eq!(state.live_gas, 60);
    assert_eq!(state.root_remaining(), 60);
    state.reconcile(Some(b));
    assert_eq!(state.live_gas, 50);
    assert_eq!(state.root_remaining(), 60);
    assert!(gas.advance());
    assert_eq!(gas.active_key().unwrap().bytes, vec![2]);
    assert!(!gas.advance());
    gas.reset_to_primary();
    assert_eq!(gas.primary_key().unwrap().bytes, gas.active_key().unwrap().bytes);
    let mut host = FrameGas::host_budgeted();
    assert!(host.active_key().is_none());
    assert!(!host.advance());
}

#[test]
fn head_of_the_data_comes_with_the_end_of_the_root() {
    let mut k = Kernel {
        directory: KernelDirectory::new(),
        mem_cache: MemCache::new(),
        config: KernelConfig {
            data_base: DATA_BASE,
            ecall_cost: 0,
            ecalli_cost: 0,
            sender_image: [0; 32],
            receiver_image: [0; 32],
            gas_image: [0; 32],
            quota_image: [0; 32],
        },
    };
    k.directory.insert([1; 32], Arc::new(WireCap::Image(data_image([9; 32]))));
    k.directory.insert([2; 32], Arc::new(WireCap::CNode(Vec::new())));
    k.directory.insert(
        [3; 32],
        Arc::new(WireCap::Instance(WireInstance {
            image_hash_chain: [4; 32],
            image_hash: [1; 32],
            root_cnode: WireTarget::Hash([2; 32]),
            mem: memory(),
            regs: [0; NUM_REGS],
            pc: 0,
            gas_remaining: 0,
            role: Arc::new(Role::Plain),
        })),
    );
    let lane = ExecutionLane::primary();
    let mut task = KernelTask::new(&k, 0, lane, &[3; 32], 0, &[0; 4], 10).unwrap();
    let run = task.begin_entry();
    let exit = javm::kernel::call_loop::EntryExit {
        info: javm::kernel::runtime::ExitInfo {
            exit_reason: 0,
            exit_arg: 0,
            gas_remaining: 3,
            regs: [0; NUM_REGS],
            pc: 0,
        },
        mem: run.mem,
        mat_state: run.mat_state,
        ro_units: run.ro_units,
        runtime: None,
    };
    match task.poll_once(&mut k, exit, 0) {
        Ok(TaskPoll::Done(outcome)) => assert_eq!(outcome.scratchpad_head, [0xAA; 128]),
        _ => panic!("expected the task to be over"),
    }
}
