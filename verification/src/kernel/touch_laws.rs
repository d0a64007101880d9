//! What touching a page leaves behind, and what it costs.
use vstd::prelude::*;

use crate::kernel::fault::{fault_done, Fault, FaultAction};
use crate::kernel::materialize::{
    access_pages, accessible, data_done, materialized, page_base, page_done, ro_leaf, ro_source_pa,
    trap_at, DataSource, MatCosts, Materialized, Pages, RoRegion, RoSrc,
};
use crate::kernel::paging::{leaf_entry, page_number, PageTable, Perm};
use crate::kernel::runtime::{FrameRuntime, KIND_PINNED_RO};

verus! {

/// The page of a byte of an access; addresses wrap around.
pub open spec fn page_of_byte(va: u32, i: int) -> int {
    let a = (va + i) % 0x1_0000_0000;
    a - a % 4096
}

/// An access touches the page of each of its bytes, and no page without one; addresses
/// wrap around.
pub proof fn law_access_covers_its_bytes(va: u32, width: u32, i: int)
    requires
        0 < width <= 4096,
        0 <= i < width,
    ensures
        ({
            let a = (va + i) % 0x1_0000_0000;
            access_pages(va, width).contains((a - a % 4096) as u32)
        }),
        1 <= access_pages(va, width).len() <= 2,
        forall|x: int|
            0 <= x < access_pages(va, width).len() ==> #[trigger] access_pages(va, width)[x] % 4096
                == 0,
        access_pages(va, width)[0] == va - va % 4096,
        forall|x: int|
            0 <= x < access_pages(va, width).len() ==> exists|j: int|
                0 <= j < width && #[trigger] access_pages(va, width)[x] == #[trigger] page_of_byte(
                    va,
                    j,
                ),
{
    assert(access_pages(va, width)[0] == page_of_byte(va, 0));
    if access_pages(va, width).len() == 2 {
        assert(access_pages(va, width)[1] == page_of_byte(va, width - 1));
    }
    let a = (va + i) % 0x1_0000_0000;
    let last = (va + width - 1) % 0x1_0000_0000;
    let pages = access_pages(va, width);
    let page = (a - a % 4096) as u32;
    assert(pages[0] == page_base(va));
    if page == page_base(va) {
        assert(pages[0] == page);
    } else {
        assert(page == page_base(last as u32));
        assert(pages[1] == page);
    }
}

/// Nothing of the code, and nothing of a region that is read-only, can be written.
pub proof fn law_read_only_memory_is_not_written(
    rt: FrameRuntime,
    before: Pages,
    after: Pages,
    zero_pa: u64,
    pages: Seq<u32>,
    costs: MatCosts,
    outcome: Option<Materialized>,
    x: int,
    region: int,
)
    requires
        materialized(rt, before, after, zero_pa, pages, true, costs, outcome),
        0 <= x < pages.len(),
        ({
            ||| rt.code_base <= pages[x] < rt.code_top
            ||| {
                &&& 0 <= region < rt.mat_ranges@.len()
                &&& rt.mat_ranges@[region].kind == KIND_PINNED_RO
                &&& rt.mat_ranges@[region].start <= pages[x] < rt.mat_ranges@[region].end
                &&& forall|y: int|
                    0 <= y < region ==> !((#[trigger] rt.mat_ranges@[y]).start <= pages[x]
                        < rt.mat_ranges@[y].end)
            }
        }),
        rt.code_base <= pages[x] < rt.code_top ==> !(rt.data_base <= pages[x] < rt.mem_top),
    ensures
        outcome is None,
        after == before,
{
    if rt.code_base <= pages[x] < rt.code_top {
        assert(!accessible(rt, pages, true));
    } else {
        lemma_first_region(rt.mat_ranges@, pages[x], region);
        assert(!accessible(rt, pages, true));
    }
}

proof fn lemma_first_region(
    ranges: Seq<crate::kernel::runtime::MatRange>,
    va: u32,
    k: int,
)
    requires
        0 <= k < ranges.len(),
        ranges[k].start <= va < ranges[k].end,
        forall|y: int|
            0 <= y < k ==> !((#[trigger] ranges[y]).start <= va < ranges[y].end),
    ensures
        crate::kernel::materialize::range_at(ranges, va) == Some(ranges[k]),
    decreases ranges.len(),
{
    if k > 0 {
        let rest = ranges.drop_first();
        assert(rest[k - 1] == ranges[k]);
        assert forall|y: int| 0 <= y < k - 1 implies !((#[trigger] rest[y]).start <= va
            < rest[y].end) by {
            assert(rest[y] == ranges[y + 1]);
        }
        assert(!(ranges[0].start <= va < ranges[0].end));
        lemma_first_region(rest, va, k - 1);
    }
}

/// Touching a data page costs by what it was: the first write of an absent page, the
/// first read of one, the first write of one that could be read, and nothing after
/// that. Afterwards it can be written if it was written, and no page table entry of
/// another page has changed.
pub proof fn law_touched_page_is_charged_by_its_state(
    pt: PageTable,
    pt_after: PageTable,
    states: Seq<u8>,
    states_after: Seq<u8>,
    frames: Seq<u64>,
    frames_after: Seq<u64>,
    data: DataSource,
    mem_after: crate::kernel::caps::DataMem,
    va: u64,
    is_write: bool,
    costs: MatCosts,
    charge: u64,
    flush: bool,
    i: int,
)
    requires
        data_done(
            pt,
            pt_after,
            states,
            states_after,
            frames,
            frames_after,
            data,
            mem_after,
            va,
            is_write,
            costs,
            Some((charge, flush)),
        ),
        data.data_base <= va,
        i == (va - data.data_base) / 4096,
        0 <= i < states.len(),
        i <= u32::MAX,
        va < 0x1_0000_0000_0000,
    ensures
        states[i] == 0 && is_write ==> charge == costs.first_write,
        states[i] == 0 && !is_write ==> charge == costs.page_in,
        states[i] == 1 && is_write ==> charge == costs.upgrade,
        states[i] == 1 && !is_write ==> charge == 0,
        states[i] >= 2 ==> charge == 0 && mem_after == data.mem,
        flush ==> is_write && states[i] < 2,
        is_write && states[i] == 1 ==> flush,
        is_write && states[i] == 0 && pt.leaf(va) is None ==> !flush,
        states_after.len() == states.len(),
        is_write ==> states_after[i] == 2,
        !is_write && states[i] < 2 ==> states_after[i] == 1,
        forall|j: int| 0 <= j < states.len() && j != i ==> #[trigger] states_after[j] == states[j],
        forall|v: u64|
            v < 0x1_0000_0000_0000 && v / 4096 != va / 4096 ==> #[trigger] pt_after.leaf(v) == pt.leaf(v),
        states[i] == 0 && !is_write ==> mem_after == data.mem && (data.mem.page(i) matches Some(p)
            ==> pt_after.leaf(va) == Some(
            leaf_entry(p.pa, (Perm { writable: false, user: true, executable: false })),
        )),
        states[i] == 0 && !is_write && data.mem.page(i) is None ==> pt_after.leaf(va) == Some(
            leaf_entry(data.zero_pa, (Perm { writable: false, user: true, executable: false })),
        ),
        states[i] < 2 && is_write && (pt.leaf(va) is None || !(exists|x: int|
            0 <= x < data.mem.overlay@.len() && (#[trigger] data.mem.overlay@[x]).0 == i)) ==> {
            &&& mem_after.page(i) matches Some(p)
            &&& frames.len() > 0
            &&& p.pa == frames.last()
            &&& pt_after.leaf(va) == Some(
                leaf_entry(
                    frames.last(),
                    (Perm { writable: true, user: true, executable: false }),
                ),
            )
            &&& forall|o: int|
                0 <= o < 4096 ==> #[trigger] p.bytes@[o] == data.mem.byte(i * 4096 + o)
        },
{
    lemma_overlay_none(data.mem.overlay@, i);
    assert forall|v: u64| v < 0x1_0000_0000_0000 && v / 4096 != va / 4096 implies #[trigger] pt_after.leaf(v) == pt.leaf(
        v,
    ) by {
        lemma_page_number(v);
        lemma_page_number(va);
    }
    lemma_page_number(va);
}

proof fn lemma_page_number(v: u64)
    requires
        v < 0x1_0000_0000_0000,
    ensures
        page_number(v) == v / 4096,
{
    assert(v < 0x1_0000_0000_0000 ==> ((v >> 12) & 0xF_FFFF_FFFF) == v / 4096) by (bit_vector);
}

proof fn lemma_overlay_none(overlay: Seq<(u32, std::sync::Arc<crate::kernel::caps::Page>)>, i: int)
    ensures
        (forall|x: int| 0 <= x < overlay.len() ==> (#[trigger] overlay[x]).0 != i)
            ==> crate::kernel::caps::overlay_at(overlay, i) is None,
    decreases overlay.len(),
{
    if overlay.len() > 0 {
        let rest = overlay.drop_last();
        lemma_overlay_none(rest, i);
        if forall|x: int| 0 <= x < overlay.len() ==> (#[trigger] overlay[x]).0 != i {
            assert(overlay[overlay.len() - 1].0 != i);
            assert forall|x: int| 0 <= x < rest.len() implies (#[trigger] rest[x]).0 != i by {
                assert(rest[x] == overlay[x]);
            }
        }
    }
}

/// A page of the code that is touched is mapped for reading from where the code is: all
/// pages of the code in the same 2 MiB are, and touching them costs nothing.
#[verifier::spinoff_prover]
pub proof fn law_touched_code_is_mapped(
    rt: FrameRuntime,
    before: Pages,
    after: Pages,
    zero_pa: u64,
    va: u32,
    is_write: bool,
    costs: MatCosts,
    charge: u64,
    flush: bool,
    v: u64,
)
    requires
        page_done(rt, before, after, zero_pa, va, is_write, costs, Some((charge, flush))),
        rt.code_base <= va < rt.code_top,
        rt.code_base % 4096 == 0,
        rt.code_pa + 0x1_0000_0000 <= u64::MAX,
        rt.code_base <= v < rt.code_top,
        v / 0x20_0000 == va as u64 / 0x20_0000,
        v % 4096 == 0,
        !before.units.contains(
            if rt.code_base >= va - va % 0x20_0000 {
                rt.code_base
            } else {
                (va - va % 0x20_0000) as u32
            },
        ),
    ensures
        charge == 0,
        after.mem == before.mem,
        after.states == before.states,
        after.pt.leaf(v) == Some(
            leaf_entry(
                (rt.code_pa + (v - rt.code_base)) as u64,
                (Perm { writable: false, user: true, executable: false }),
            ),
        ),
{
    let region = RoRegion {
        start: rt.code_base as u64,
        end: rt.code_top as u64,
        src: RoSrc::Contig { base_pa: rt.code_pa },
    };
    let data = DataSource { mem: before.mem, data_base: rt.data_base as u64, zero_pa };
    let lo = crate::kernel::materialize::unit_start(va as u64, region.start);
    let hi = crate::kernel::materialize::unit_end(va as u64, region.end);
    let n = crate::kernel::materialize::page_count(lo as int, hi);
    let k = (v - lo) / 4096;
    lemma_unit_pages(va as u64, region.start, region.end, v);
    lemma_ro_leaf(
        before.pt.leaf(v),
        region.src,
        data.mem,
        data.data_base,
        zero_pa,
        region.start,
        lo,
        n,
        v,
        k as nat,
    );
}

/// A page of the unit of `va` is one of the pages that are mapped with it.
proof fn lemma_unit_pages(va: u64, start: u64, end: u64, v: u64)
    requires
        start % 4096 == 0,
        start <= va < end <= 0x1_0000_0000,
        start <= v < end,
        v / 0x20_0000 == va / 0x20_0000,
        v % 4096 == 0,
    ensures
        ({
            let lo = crate::kernel::materialize::unit_start(va, start);
            let hi = crate::kernel::materialize::unit_end(va, end);
            let n = crate::kernel::materialize::page_count(lo as int, hi);
            let i = (v - lo) / 4096;
            &&& lo + i * 4096 == v
            &&& 0 <= i < n
            &&& lo + n * 4096 <= 0x1_0000_0000_0000
            &&& crate::kernel::paging::nth_page(lo, i) == v
        }),
{
    let lo = crate::kernel::materialize::unit_start(va, start);
    let hi = crate::kernel::materialize::unit_end(va, end);
    assert(lo % 4096 == 0);
    assert(lo <= v < hi);
}

proof fn lemma_ro_leaf(
    before: Option<u64>,
    src: RoSrc,
    mem: crate::kernel::caps::DataMem,
    data_base: u64,
    zero_pa: u64,
    start: u64,
    lo: u64,
    n: nat,
    v: u64,
    k: nat,
)
    requires
        k < n,
        v == lo + k * 4096,
        lo + n * 4096 <= 0x1_0000_0000_0000,
    ensures
        ro_leaf(before, src, mem, data_base, zero_pa, start, lo, n, v) == Some(
            leaf_entry(
                ro_source_pa(src, mem, data_base, zero_pa, start, v)->0,
                (Perm { writable: false, user: true, executable: false }),
            ),
        ),
    decreases n,
{
    let va = (lo + (n - 1) * 4096) as u64;
    lemma_page_number(v);
    lemma_page_number(va);
    if k < n - 1 {
        assert(v / 4096 != va / 4096);
        lemma_ro_leaf(
            before,
            src,
            mem,
            data_base,
            zero_pa,
            start,
            lo,
            (n - 1) as nat,
            v,
            k,
        );
    }
}

/// A fault outside of the compiled code is not the guest's, and changes nothing. Inside
/// of it, an access that can be materialized goes on with the gas that this left, and
/// one that cannot ends the run with the address that faulted.
pub proof fn law_fault_is_the_guests(
    rt: FrameRuntime,
    before: Pages,
    after: Pages,
    zero_pa: u64,
    costs: MatCosts,
    fault: Fault,
    action: FaultAction,
    write: bool,
)
    requires
        write == (fault.error_code & 2 != 0),
        fault_done(rt, before, after, zero_pa, costs, fault, action),
    ensures
        !(rt.jit_va <= fault.rip < rt.jit_va + rt.jit_size) <==> action is Decline,
        action is Decline ==> after == before,
        action matches FaultAction::Exit { exit_reason, exit_arg, pc, rip } ==> {
            &&& exit_reason == 3
            &&& exit_arg == fault.gva % 0x1_0000_0000
            &&& rip == rt.exit_label_va
            &&& pc == trap_at(
                rt.trap_table@,
                ((fault.rip - rt.jit_va) % 0x1_0000_0000) as u32,
            ).0
        },
        action matches FaultAction::Retry { gas, flush } ==> exists|m: Materialized|
            {
                &&& #[trigger] materialized(
                    rt,
                    before,
                    after,
                    zero_pa,
                    access_pages(
                        (fault.gva % 0x1_0000_0000) as u32,
                        crate::kernel::fault::faulting_access(rt, fault.rip).1,
                    ),
                    write,
                    costs,
                    Some(m),
                )
                &&& fault.gas >= m.charge ==> gas + m.charge == fault.gas
            },
{
}

/// What is looked up for a native offset is the last entry at or before it.
pub proof fn law_trap_entry_is_the_last_before(
    traps: Seq<(u32, u32, u32)>,
    offset: u32,
    k: int,
)
    requires
        0 <= k < traps.len(),
        traps[k].0 <= offset,
        forall|j: int| k < j < traps.len() ==> (#[trigger] traps[j]).0 > offset,
    ensures
        trap_at(traps, offset) == (traps[k].1, traps[k].2),
    decreases traps.len(),
{
    if k < traps.len() - 1 {
        assert(traps[traps.len() - 1].0 > offset);
        assert(traps.drop_last()[k] == traps[k]);
        law_trap_entry_is_the_last_before(traps.drop_last(), offset, k);
    }
}

/// A page that is copied on its first write can be written afterwards, in a physical
/// page of its own; the guest reads in it what it read before, and elsewhere too.
pub proof fn law_copied_page_can_be_written(
    pt: PageTable,
    pt_after: PageTable,
    mem: crate::kernel::caps::DataMem,
    mem_after: crate::kernel::caps::DataMem,
    va: u64,
    index: u32,
    frames: Seq<u64>,
    offset: int,
)
    requires
        crate::kernel::materialize::cow_done(
            pt,
            pt_after,
            mem,
            mem_after,
            va,
            index,
            frames,
            true,
        ),
        0 <= offset,
    ensures
        frames.len() > 0,
        mem_after.page(index as int) matches Some(p) && p.pa == frames.last(),
        pt_after.leaf(va) == Some(
            leaf_entry(frames.last(), (Perm { writable: true, user: true, executable: false })),
        ),
        mem_after.byte(offset) == mem.byte(offset),
{
    crate::kernel::materialize::law_copy_keeps_bytes(
        mem,
        mem_after,
        index,
        frames.last(),
        offset,
    );
}

/// The memory access of a native offset is that of the last entry at or before it.
pub proof fn law_native_access_is_the_last_before(traps: Seq<(u32, u32)>, offset: u32, k: int)
    requires
        0 <= k < traps.len(),
        traps[k].0 <= offset,
        forall|j: int| k < j < traps.len() ==> (#[trigger] traps[j]).0 > offset,
    ensures
        crate::kernel::pvm::access_at(traps, offset) == traps[k].1,
    decreases traps.len(),
{
    if k < traps.len() - 1 {
        assert(traps[traps.len() - 1].0 > offset);
        assert(traps.drop_last()[k] == traps[k]);
        law_native_access_is_the_last_before(traps.drop_last(), offset, k);
    }
}

/// An instance that comes back keeps its address space, but the pages that it has
/// written can no longer be written there; the others are mapped as they were.
pub proof fn law_kept_pages_are_protected(
    frame: crate::kernel::frame::KernelFrame,
    before: Option<FrameRuntime>,
    after: Option<FrameRuntime>,
    v: u64,
)
    requires
        crate::kernel::transfer::kept_runtime(before, after, frame),
        before is Some,
        v < 0x1_0000_0000,
        before->0.data_base % 4096 == 0,
        forall|i: int|
            0 <= i < frame.mem.overlay@.len() ==> before->0.data_base + (
            #[trigger] frame.mem.overlay@[i]).0 * 4096 < 0x1_0000_0000,
    ensures
        after is Some,
        ({
            let written = exists|i: int|
                0 <= i < frame.mem.overlay@.len() && v / 4096 == (before->0.data_base + (
                #[trigger] frame.mem.overlay@[i]).0 * 4096) / 4096;
            &&& !written ==> after->0.pt.leaf(v) == before->0.pt.leaf(v)
            &&& written ==> (before->0.pt.leaf(v) is None ==> after->0.pt.leaf(v) is None)
            &&& written && before->0.pt.leaf(v) is Some ==> {
                let was = before->0.pt.leaf(v)->0;
                &&& after->0.pt.leaf(v) matches Some(e) && e & 2 == 0 && e | 2 == was | 2
            }
        }),
{
    let rt = before->0;
    let overlay = frame.mem.overlay@;
    lemma_page_number(v);
    let written = exists|i: int|
        0 <= i < overlay.len() && v / 4096 == (rt.data_base + (#[trigger] overlay[i]).0 * 4096)
            / 4096;
    if written {
        let i = choose|i: int|
            0 <= i < overlay.len() && v / 4096 == (rt.data_base + (#[trigger] overlay[i]).0 * 4096)
                / 4096;
        let va = crate::kernel::runtime::data_page_va(rt.data_base, overlay[i].0);
        lemma_page_number(va);
        assert(crate::kernel::runtime::overlaid_at(rt.data_base, overlay, v));
    }
    if crate::kernel::runtime::overlaid_at(rt.data_base, overlay, v) {
        let i = choose|i: int|
            0 <= i < overlay.len() && page_number(v) == page_number(
                crate::kernel::runtime::data_page_va(rt.data_base, (#[trigger] overlay[i]).0),
            );
        let va = crate::kernel::runtime::data_page_va(rt.data_base, overlay[i].0);
        lemma_page_number(va);
        assert(written);
    }
    assert(after->0.pt.leaf(v) == if crate::kernel::runtime::overlaid_at(
        rt.data_base,
        overlay,
        v,
    ) {
        crate::kernel::runtime::rearmed(rt.pt.leaf(v))
    } else {
        rt.pt.leaf(v)
    });
    if rt.pt.leaf(v) is Some {
        let e = rt.pt.leaf(v)->0;
        assert((e & !2u64) & 2 == 0 && (e & !2u64) | 2 == e | 2) by (bit_vector);
    }
}

/// An access with a page that is neither code nor data is refused, and changes nothing.
pub proof fn law_access_outside_is_refused(
    rt: FrameRuntime,
    before: Pages,
    after: Pages,
    zero_pa: u64,
    pages: Seq<u32>,
    is_write: bool,
    costs: MatCosts,
    outcome: Option<Materialized>,
    x: int,
)
    requires
        materialized(rt, before, after, zero_pa, pages, is_write, costs, outcome),
        0 <= x < pages.len(),
        !(rt.code_base <= pages[x] < rt.code_top),
        !(rt.data_base <= pages[x] < rt.mem_top),
    ensures
        outcome is None,
        after == before,
{
    assert(!crate::kernel::materialize::in_code(rt, pages[x]));
    assert(!crate::kernel::materialize::in_data(rt, pages[x]));
    assert(!accessible(rt, pages, is_write));
}

/// An access to one page is that page's touch: it costs what the touch costs, and the
/// page's translation is forgotten where the touch says so.
pub proof fn law_access_to_one_page(
    rt: FrameRuntime,
    before: Pages,
    after: Pages,
    zero_pa: u64,
    pages: Seq<u32>,
    is_write: bool,
    costs: MatCosts,
    m: Materialized,
)
    requires
        materialized(rt, before, after, zero_pa, pages, is_write, costs, Some(m)),
        pages.len() == 1,
    ensures
        exists|charge: u64, flush: bool|
            {
                &&& #[trigger] page_done(
                    rt,
                    before,
                    after,
                    zero_pa,
                    pages[0],
                    is_write,
                    costs,
                    Some((charge, flush)),
                )
                &&& m.charge == charge
                &&& flush ==> m.flush@ == seq![pages[0] as u64]
                &&& !flush ==> m.flush@.len() == 0
            },
{
    lemma_one_page(rt, before, after, zero_pa, pages, is_write, costs, m.charge, m.flush@);
}

proof fn lemma_one_page(
    rt: FrameRuntime,
    before: Pages,
    after: Pages,
    zero_pa: u64,
    pages: Seq<u32>,
    is_write: bool,
    costs: MatCosts,
    total: u64,
    flush: Seq<u64>,
)
    requires
        crate::kernel::materialize::pages_done(
            rt,
            before,
            after,
            zero_pa,
            pages,
            1,
            is_write,
            costs,
            total,
            flush,
        ),
    ensures
        exists|charge: u64, changed: bool|
            {
                &&& #[trigger] page_done(
                    rt,
                    before,
                    after,
                    zero_pa,
                    pages[0],
                    is_write,
                    costs,
                    Some((charge, changed)),
                )
                &&& total == charge
                &&& changed ==> flush == seq![pages[0] as u64]
                &&& !changed ==> flush.len() == 0
            },
{
    let (mid, t, f, c) = choose|mid: Pages, t: u64, f: Seq<u64>, c: (u64, bool)|
        {
            &&& crate::kernel::materialize::pages_done(
                rt,
                before,
                mid,
                zero_pa,
                pages,
                0,
                is_write,
                costs,
                t,
                f,
            )
            &&& #[trigger] page_done(
                rt,
                mid,
                after,
                zero_pa,
                pages[0],
                is_write,
                costs,
                Some(c),
            )
            &&& #[trigger] crate::kernel::materialize::summed(t, f, c, pages[0], total, flush)
        };
    assert(mid == before);
    assert(f == Seq::<u64>::empty());
    assert(page_done(rt, before, after, zero_pa, pages[0], is_write, costs, Some((c.0, c.1))));
    if c.1 {
        assert(flush =~= seq![pages[0] as u64]);
    }
}

/// An access that reaches over two pages costs what both touches cost together.
pub proof fn law_access_to_two_pages(
    rt: FrameRuntime,
    before: Pages,
    after: Pages,
    zero_pa: u64,
    pages: Seq<u32>,
    is_write: bool,
    costs: MatCosts,
    m: Materialized,
)
    requires
        materialized(rt, before, after, zero_pa, pages, is_write, costs, Some(m)),
        pages.len() == 2,
        m.charge < u64::MAX,
    ensures
        exists|mid: Pages, first: u64, a: bool, second: u64, b: bool|
            {
                &&& #[trigger] page_done(
                    rt,
                    before,
                    mid,
                    zero_pa,
                    pages[0],
                    is_write,
                    costs,
                    Some((first, a)),
                )
                &&& #[trigger] page_done(
                    rt,
                    mid,
                    after,
                    zero_pa,
                    pages[1],
                    is_write,
                    costs,
                    Some((second, b)),
                )
                &&& m.charge == first + second
                &&& m.flush@.contains(pages[0] as u64) <== a
                &&& m.flush@.contains(pages[1] as u64) <== b
                &&& !a && !b ==> m.flush@.len() == 0
            },
{
    let (mid, t, f, c) = choose|mid: Pages, t: u64, f: Seq<u64>, c: (u64, bool)|
        {
            &&& crate::kernel::materialize::pages_done(
                rt,
                before,
                mid,
                zero_pa,
                pages,
                1,
                is_write,
                costs,
                t,
                f,
            )
            &&& #[trigger] page_done(
                rt,
                mid,
                after,
                zero_pa,
                pages[1],
                is_write,
                costs,
                Some(c),
            )
            &&& #[trigger] crate::kernel::materialize::summed(
                t,
                f,
                c,
                pages[1],
                m.charge,
                m.flush@,
            )
        };
    lemma_one_page(rt, before, mid, zero_pa, pages, is_write, costs, t, f);
    let (first, a) = choose|charge: u64, changed: bool|
        {
            &&& #[trigger] page_done(
                rt,
                before,
                mid,
                zero_pa,
                pages[0],
                is_write,
                costs,
                Some((charge, changed)),
            )
            &&& t == charge
            &&& changed ==> f == seq![pages[0] as u64]
            &&& !changed ==> f.len() == 0
        };
    assert(page_done(rt, mid, after, zero_pa, pages[1], is_write, costs, Some((c.0, c.1))));
    if a {
        assert(m.flush@[0] == pages[0]);
    }
    if c.1 {
        assert(m.flush@.last() == pages[1]);
    }
}

/// A page of a read-only region of data that is touched is mapped for reading from where
/// the memory has it, and costs nothing; so are the other pages of the region in the same
/// 2 MiB.
#[verifier::spinoff_prover]
pub proof fn law_touched_constants_are_mapped(
    rt: FrameRuntime,
    before: Pages,
    after: Pages,
    zero_pa: u64,
    va: u32,
    is_write: bool,
    costs: MatCosts,
    charge: u64,
    flush: bool,
    k: int,
    v: u64,
)
    requires
        page_done(rt, before, after, zero_pa, va, is_write, costs, Some((charge, flush))),
        !(rt.code_base <= va < rt.code_top),
        0 <= k < rt.mat_ranges@.len(),
        rt.mat_ranges@[k].kind == KIND_PINNED_RO,
        rt.mat_ranges@[k].start <= va < rt.mat_ranges@[k].end,
        forall|y: int|
            0 <= y < k ==> !((#[trigger] rt.mat_ranges@[y]).start <= va < rt.mat_ranges@[y].end),
        rt.data_base <= rt.mat_ranges@[k].start,
        rt.mat_ranges@[k].start % 4096 == 0,
        rt.mat_ranges@[k].start <= v < rt.mat_ranges@[k].end,
        v / 0x20_0000 == va as u64 / 0x20_0000,
        v % 4096 == 0,
        !before.units.contains(
            if rt.mat_ranges@[k].start >= va - va % 0x20_0000 {
                rt.mat_ranges@[k].start
            } else {
                (va - va % 0x20_0000) as u32
            },
        ),
    ensures
        charge == 0,
        after.mem == before.mem,
        after.states == before.states,
        before.mem.page((v - rt.data_base) / 4096) matches Some(p) ==> after.pt.leaf(v) == Some(
            leaf_entry(p.pa, (Perm { writable: false, user: true, executable: false })),
        ),
        before.mem.page((v - rt.data_base) / 4096) is None ==> after.pt.leaf(v) == Some(
            leaf_entry(zero_pa, (Perm { writable: false, user: true, executable: false })),
        ),
{
    lemma_first_region(rt.mat_ranges@, va, k);
    let r = rt.mat_ranges@[k];
    let region = RoRegion { start: r.start as u64, end: r.end as u64, src: RoSrc::Mem };
    let data = DataSource { mem: before.mem, data_base: rt.data_base as u64, zero_pa };
    let lo = crate::kernel::materialize::unit_start(va as u64, region.start);
    let hi = crate::kernel::materialize::unit_end(va as u64, region.end);
    let n = crate::kernel::materialize::page_count(lo as int, hi);
    let i = (v - lo) / 4096;
    lemma_unit_pages(va as u64, region.start, region.end, v);
    lemma_ro_leaf(
        before.pt.leaf(v),
        region.src,
        data.mem,
        data.data_base,
        zero_pa,
        region.start,
        lo,
        n,
        v,
        i as nat,
    );
    assert(ro_source_pa(
        region.src,
        data.mem,
        data.data_base,
        zero_pa,
        region.start,
        crate::kernel::paging::nth_page(lo, i),
    ) is Some);
}

} // verus!
