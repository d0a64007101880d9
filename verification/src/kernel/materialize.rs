//! Pages of a guest are mapped when they are first touched: read-only ones a unit
//! at a time, writable ones one by one, copied on the first write.
use vstd::prelude::*;

use std::sync::Arc;

use crate::kernel::caps::{overlay_at, DataMem, Page, PAGE_BYTES};
use crate::kernel::dispatch::RO_UNIT_BYTES;
use crate::kernel::paging::{
    leaf_entry, lemma_tables_grow, missing_after, nth_page, page_number, with_w, PageTable, Perm,
};
use crate::kernel::runtime::{FrameRuntime, MatRange, KIND_PINNED_RO, KIND_UNPINNED_COW};

verus! {

/// The page is not mapped.
pub const NOT_PRESENT: u8 = 0;

/// The page is mapped for reading.
pub const PRESENT_RO: u8 = 1;

/// The page is mapped for writing.
pub const PRESENT_RW: u8 = 2;

/// Nothing was declared for the page.
pub const KIND_EPHEMERAL: u8 = 0;

/// Where the bytes of a page come from.
#[derive(Clone, Copy, Debug, PartialEq, Eq)]
pub enum PageSource {
    /// A page in physical memory.
    Pa(u64),
    /// The page of zeros.
    Zero,
    /// Nowhere.
    Missing,
}

/// Memory that pages are materialized from and written back to.
pub trait FrameMem: Sized {
    /// A page that was copied but is not yet part of the memory.
    type CowPage;

    /// Where the bytes of a page come from.
    spec fn source(&self, index: int) -> PageSource;

    /// Whether a page has been written.
    spec fn written(&self, index: int) -> bool;

    /// Where a copied page is, and what it holds.
    spec fn cow_pa(page: &Self::CowPage) -> u64;

    spec fn cow_bytes(page: &Self::CowPage) -> Seq<u8>;

    /// Where the bytes of a page come from.
    fn page_source(&self, page_idx: usize) -> (source: PageSource)
        ensures
            source == self.source(page_idx as int),
    ;

    /// Whether a page has been written.
    fn overlay_has(&self, page_idx: u32) -> (written: bool)
        ensures
            written == self.written(page_idx as int),
    ;

    /// A copy of `src` in a page from `frames`, and its address.
    fn alloc_cow_page(src: &[u8], frames: &mut Vec<u64>) -> (page: Option<(Self::CowPage, u64)>)
        ensures
            page is Some <==> old(frames)@.len() > 0,
            page is None ==> final(frames)@ == old(frames)@,
            page matches Some(p) ==> {
                &&& final(frames)@ == old(frames)@.drop_last()
                &&& p.1 == old(frames)@.last()
                &&& Self::cow_pa(&p.0) == p.1
                &&& Self::cow_bytes(&p.0) == src@
            },
    ;

    /// Make a copied page part of the memory.
    fn commit_overlay_page(&mut self, page_idx: u32, page: Self::CowPage)
        ensures
            final(self).written(page_idx as int),
            final(self).source(page_idx as int) == PageSource::Pa(Self::cow_pa(&page)),
            forall|i: int|
                i != page_idx ==> #[trigger] final(self).written(i) == old(self).written(i),
            forall|i: int|
                i != page_idx ==> #[trigger] final(self).source(i) == old(self).source(i),
    ;
}

impl FrameMem for DataMem {
    type CowPage = Arc<Page>;

    open spec fn source(&self, index: int) -> PageSource {
        match self.page(index) {
            Some(p) => PageSource::Pa(p.pa),
            None => if 0 <= index < self.backing@.len() {
                PageSource::Zero
            } else {
                PageSource::Missing
            },
        }
    }

    open spec fn written(&self, index: int) -> bool {
        overlay_at(self.overlay@, index) is Some
    }

    open spec fn cow_pa(page: &Arc<Page>) -> u64 {
        page.pa
    }

    open spec fn cow_bytes(page: &Arc<Page>) -> Seq<u8> {
        page.bytes@
    }

    fn page_source(&self, page_idx: usize) -> PageSource {
        match self.page_at(page_idx) {
            Some(p) => PageSource::Pa(p.pa),
            None => if page_idx < self.backing.len() {
                PageSource::Zero
            } else {
                PageSource::Missing
            },
        }
    }

    fn overlay_has(&self, page_idx: u32) -> bool {
        self.overlay_page(page_idx as usize).is_some()
    }

    fn alloc_cow_page(src: &[u8], frames: &mut Vec<u64>) -> Option<(Arc<Page>, u64)> {
        match frames.pop() {
            None => None,
            Some(pa) => {
                let page = Page { pa, bytes: crate::cap::copy_bytes(src) };
                Some((Arc::new(page), pa))
            },
        }
    }

    fn commit_overlay_page(&mut self, page_idx: u32, page: Arc<Page>) {
        let ghost before = *self;
        self.commit_page(page_idx, page);
        assert forall|i: int|
            i != page_idx implies #[trigger] self.written(i) == before.written(i) by {
            assert(overlay_at(self.overlay@, i) == overlay_at(before.overlay@, i));
        }
        assert forall|i: int| i != page_idx implies #[trigger] self.source(i) == before.source(
            i,
        ) by {
            assert(overlay_at(self.overlay@, i) == overlay_at(before.overlay@, i));
        }
        assert(overlay_at(self.overlay@, page_idx as int) == Some(page));
    }
}

/// The guest address and the access width of the memory access at or before a
/// native offset; zeros if there is none.
pub open spec fn trap_at(traps: Seq<(u32, u32, u32)>, offset: u32) -> (u32, u32)
    decreases traps.len(),
{
    if traps.len() == 0 {
        (0, 0)
    } else if traps.last().0 <= offset {
        (traps.last().1, traps.last().2)
    } else {
        trap_at(traps.drop_last(), offset)
    }
}

/// The guest address and the access width of the memory access at or before a
/// native offset.
pub fn trap_lookup(traps: &Vec<(u32, u32, u32)>, offset: u32) -> (found: (u32, u32))
    ensures
        found == trap_at(traps@, offset),
{
    let mut n: usize = traps.len();
    assert(traps@.take(n as int) =~= traps@);
    while n > 0
        invariant
            n <= traps@.len(),
            trap_at(traps@, offset) == trap_at(traps@.take(n as int), offset),
        decreases n,
    {
        assert(traps@.take(n as int).drop_last() =~= traps@.take(n - 1));
        if traps[n - 1].0 <= offset {
            return (traps[n - 1].1, traps[n - 1].2);
        }
        n = n - 1;
    }
    (0, 0)
}

/// The first region with an address.
pub open spec fn range_at(ranges: Seq<MatRange>, va: u32) -> Option<MatRange>
    decreases ranges.len(),
{
    if ranges.len() == 0 {
        None
    } else if ranges[0].start <= va && va < ranges[0].end {
        Some(ranges[0])
    } else {
        range_at(ranges.drop_first(), va)
    }
}

/// The first region with an address.
pub fn mat_range_for_in(ranges: &Vec<MatRange>, page_va: u32) -> (found: Option<MatRange>)
    ensures
        found == range_at(ranges@, page_va),
        found matches Some(r) ==> r.start <= page_va && page_va < r.end,
{
    let mut i: usize = 0;
    assert(ranges@.skip(0) =~= ranges@);
    while i < ranges.len()
        invariant
            i <= ranges@.len(),
            range_at(ranges@, page_va) == range_at(ranges@.skip(i as int), page_va),
        decreases ranges@.len() - i,
    {
        assert(ranges@.skip(i as int).drop_first() =~= ranges@.skip(i + 1));
        if ranges[i].start <= page_va && page_va < ranges[i].end {
            return Some(ranges[i]);
        }
        i = i + 1;
    }
    None
}

/// What is at an address: what its region says, read-only if that says nothing
/// known; without a region, nothing.
pub open spec fn kind_at(ranges: Seq<MatRange>, va: u32) -> u8 {
    match range_at(ranges, va) {
        Some(r) => if r.kind == KIND_EPHEMERAL || r.kind == KIND_UNPINNED_COW {
            r.kind
        } else {
            KIND_PINNED_RO
        },
        None => KIND_EPHEMERAL,
    }
}

/// What is at an address.
pub fn page_kind(ranges: &Vec<MatRange>, page_va: u32) -> (kind: u8)
    ensures
        kind == kind_at(ranges@, page_va),
{
    match mat_range_for_in(ranges, page_va) {
        Some(r) => if r.kind == KIND_EPHEMERAL || r.kind == KIND_UNPINNED_COW {
            r.kind
        } else {
            KIND_PINNED_RO
        },
        None => KIND_EPHEMERAL,
    }
}

/// The first address of the page of an address.
pub open spec fn page_base(va: u32) -> u32 {
    (va - va % 4096) as u32
}

/// The last byte of an access; addresses wrap around.
pub open spec fn last_byte(va: u32, width: u32) -> u32 {
    ((va + width - 1) % 0x1_0000_0000) as u32
}

/// The pages of an access: that of its first byte, and that of its last if it is
/// another.
pub open spec fn access_pages(va: u32, width: u32) -> Seq<u32> {
    let first = page_base(va);
    let last = page_base(last_byte(va, width));
    if first == last {
        seq![first]
    } else {
        seq![first, last]
    }
}

fn pages_of_access(va: u32, width: u32) -> (pages: Vec<u32>)
    requires
        width > 0,
    ensures
        pages@ == access_pages(va, width),
{
    let first: u32 = va - va % 4096;
    let end: u64 = va as u64 + (width as u64 - 1);
    let last_va: u32 = (end % 0x1_0000_0000) as u32;
    let last: u32 = last_va - last_va % 4096;
    let mut pages: Vec<u32> = Vec::new();
    pages.push(first);
    if last != first {
        pages.push(last);
    }
    assert(pages@ =~= access_pages(va, width));
    pages
}

/// What materializing a page costs: mapping it for reading, mapping it for writing
/// at once, and going from the one to the other.
#[derive(Clone, Copy, Debug, PartialEq, Eq)]
pub struct MatCosts {
    pub page_in: u64,
    pub first_write: u64,
    pub upgrade: u64,
}

/// What an access to a page in a state costs, and the state after it.
pub open spec fn charge_for(state: u8, is_write: bool, costs: MatCosts) -> (u64, u8) {
    if state == NOT_PRESENT {
        if is_write {
            (costs.first_write, PRESENT_RW)
        } else {
            (costs.page_in, PRESENT_RO)
        }
    } else if state == PRESENT_RO {
        if is_write {
            (costs.upgrade, PRESENT_RW)
        } else {
            (0, PRESENT_RO)
        }
    } else {
        (0, PRESENT_RW)
    }
}

fn charge(state: u8, is_write: bool, costs: &MatCosts) -> (c: (u64, u8))
    ensures
        c == charge_for(state, is_write, *costs),
{
    if state == NOT_PRESENT {
        if is_write {
            (costs.first_write, PRESENT_RW)
        } else {
            (costs.page_in, PRESENT_RO)
        }
    } else if state == PRESENT_RO {
        if is_write {
            (costs.upgrade, PRESENT_RW)
        } else {
            (0, PRESENT_RO)
        }
    } else {
        (0, PRESENT_RW)
    }
}

/// A page is paid for once: a second access of the same sort costs nothing and
/// changes nothing.
pub proof fn law_page_is_charged_once(state: u8, is_write: bool, costs: MatCosts)
    ensures
        charge_for(charge_for(state, is_write, costs).1, is_write, costs) == (
            0u64,
            charge_for(state, is_write, costs).1,
        ),
        charge_for(state, true, costs).1 == PRESENT_RW,
        charge_for(charge_for(state, true, costs).1, false, costs) == (0u64, PRESENT_RW),
{
}

/// Where a page is mapped from; none if it comes from nowhere, or if there is no
/// page of zeros.
pub open spec fn source_pa(mem: DataMem, data_base: u64, va: u64, zero_pa: u64) -> Option<u64> {
    match mem.source(((va - data_base) / PAGE_BYTES as int) as int) {
        PageSource::Pa(pa) => Some(pa),
        PageSource::Zero => if zero_pa != 0 {
            Some(zero_pa)
        } else {
            None
        },
        PageSource::Missing => None,
    }
}

/// Where a page is mapped from.
pub fn mem_source_pa_in(mem: &DataMem, data_base: u64, page_va: u64, zero_pa: u64) -> (pa: Option<
    u64,
>)
    requires
        data_base <= page_va,
    ensures
        pa == source_pa(*mem, data_base, page_va, zero_pa),
{
    let index: u64 = (page_va - data_base) / PAGE_BYTES;
    let pages: usize = mem.backing.len();
    let source = if index <= u32::MAX as u64 {
        mem.page_source(index as usize)
    } else {
        high_page_source(mem, index)
    };
    match source {
        PageSource::Pa(pa) => Some(pa),
        PageSource::Zero => if zero_pa != 0 {
            Some(zero_pa)
        } else {
            None
        },
        PageSource::Missing => None,
    }
}

/// Where a page beyond those that can be written comes from.
fn high_page_source(mem: &DataMem, index: u64) -> (source: PageSource)
    requires
        index > u32::MAX,
    ensures
        source == mem.source(index as int),
{
    proof {
        lemma_high_pages_not_written(mem.overlay@, index as int);
    }
    let pages: usize = mem.backing.len();
    if index < pages as u64 {
        match &mem.backing[index as usize] {
            Some(p) => PageSource::Pa(p.pa),
            None => PageSource::Zero,
        }
    } else {
        PageSource::Missing
    }
}

proof fn lemma_high_pages_not_written(overlay: Seq<(u32, Arc<Page>)>, index: int)
    requires
        index > u32::MAX,
    ensures
        overlay_at(overlay, index) is None,
    decreases overlay.len(),
{
    if overlay.len() > 0 {
        lemma_high_pages_not_written(overlay.drop_last(), index);
    }
}

/// The bytes in effect in a page.
pub open spec fn page_bytes(mem: DataMem, index: int) -> Seq<u8> {
    Seq::new(PAGE_BYTES as nat, |i: int| mem.byte(index * PAGE_BYTES + i))
}

fn effective_page(mem: &DataMem, index: u32) -> (bytes: Vec<u8>)
    ensures
        bytes@ == page_bytes(*mem, index as int),
{
    let page = mem.page_at(index as usize);
    let mut bytes: Vec<u8> = Vec::new();
    let mut i: u64 = 0;
    while i < PAGE_BYTES
        invariant
            i <= PAGE_BYTES,
            page == mem.page(index as int),
            bytes@.len() == i,
            forall|j: int| 0 <= j < i ==> #[trigger] bytes@[j] == mem.byte(index * PAGE_BYTES + j),
        decreases PAGE_BYTES - i,
    {
        assert((index * PAGE_BYTES + i) / PAGE_BYTES as int == index) by (nonlinear_arith)
            requires
                0 <= i < PAGE_BYTES,
                PAGE_BYTES == 4096,
        ;
        assert((index * PAGE_BYTES + i) % (PAGE_BYTES as int) == i) by (nonlinear_arith)
            requires
                0 <= i < PAGE_BYTES,
                PAGE_BYTES == 4096,
        ;
        let b: u8 = match &page {
            Some(p) => {
                let n: usize = p.bytes.len();
                if i < n as u64 {
                    p.bytes[i as usize]
                } else {
                    0
                }
            },
            None => 0,
        };
        bytes.push(b);
        i = i + 1;
    }
    assert(bytes@ =~= page_bytes(*mem, index as int));
    bytes
}

/// Whether `after` is `before` with a copy of page `index` in physical page `pa`: the
/// bytes in effect are the same.
pub open spec fn copied(before: DataMem, after: DataMem, index: u32, pa: u64) -> bool {
    &&& after.backing@ == before.backing@
    &&& after.overlay@.len() == before.overlay@.len() + 1
    &&& after.overlay@.drop_last() == before.overlay@
    &&& after.overlay@.last().0 == index
    &&& after.overlay@.last().1.pa == pa
    &&& after.overlay@.last().1.bytes@ == page_bytes(before, index as int)
}

/// Copying a page keeps every byte of the memory.
pub proof fn law_copy_keeps_bytes(before: DataMem, after: DataMem, index: u32, pa: u64, offset: int)
    requires
        copied(before, after, index, pa),
        0 <= offset,
    ensures
        after.byte(offset) == before.byte(offset),
{
    let page = offset / PAGE_BYTES as int;
    assert(after.overlay@ =~= after.overlay@.drop_last().push(after.overlay@.last()));
    if page == index {
        let i = offset % (PAGE_BYTES as int);
        assert(index * PAGE_BYTES + i == offset) by (nonlinear_arith)
            requires
                page == offset / PAGE_BYTES as int,
                i == offset % (PAGE_BYTES as int),
                page == index,
                PAGE_BYTES == 4096,
                0 <= offset,
        ;
        assert(page_bytes(before, index as int)[i] == before.byte(offset));
    }
}

/// What copying a page on its first write comes to: the copy is mapped for writing,
/// or nothing has changed.
pub open spec fn cow_done(
    pt: PageTable,
    pt_after: PageTable,
    mem: DataMem,
    mem_after: DataMem,
    va: u64,
    index: u32,
    frames: Seq<u64>,
    done: bool,
) -> bool {
    if done {
        &&& frames.len() > 0
        &&& copied(mem, mem_after, index, frames.last())
        &&& leaf_set(pt, pt_after, va, leaf_entry(frames.last(), user_rw()))
    } else {
        mem_after == mem && same_leaves(pt, pt_after)
    }
}

/// The free pages after a page could not be copied: all of them where the address
/// belongs to somebody else, else none but that of the copy.
pub open spec fn cow_left(pt: PageTable, va: u64, frames: Seq<u64>) -> Seq<u64> {
    if frames.len() == 0 || pt.blocked(va) {
        frames
    } else {
        seq![frames.last()]
    }
}

/// What user data is mapped with.
pub open spec fn user_rw() -> Perm {
    Perm { writable: true, user: true, executable: false }
}

/// What user constants are mapped with.
pub open spec fn user_ro() -> Perm {
    Perm { writable: false, user: true, executable: false }
}

/// Whether only the leaf of the page of `va` has changed, to `entry`.
pub open spec fn leaf_set(before: PageTable, after: PageTable, va: u64, entry: u64) -> bool {
    &&& forall|v: u64| #[trigger]
        after.leaf(v) == if page_number(v) == page_number(va) {
            Some(entry)
        } else {
            before.leaf(v)
        }
    &&& forall|v: u64| #[trigger] after.blocked(v) == before.blocked(v)
}

/// Whether no leaf has changed.
pub open spec fn same_leaves(before: PageTable, after: PageTable) -> bool {
    &&& forall|v: u64| #[trigger] after.leaf(v) == before.leaf(v)
    &&& forall|v: u64| #[trigger] after.blocked(v) == before.blocked(v)
}

/// Copy the page of `page_va` into a page from `frames` and map it for writing. It
/// fails, with no leaf and no byte changed, if there are too few pages for the copy
/// and its tables, or if the address belongs to somebody else; the page of the copy
/// is free again then.
pub fn cow_into_fresh(
    pt: &mut PageTable,
    mem: &mut DataMem,
    page_va: u64,
    index: u32,
    frames: &mut Vec<u64>,
) -> (done: bool)
    ensures
        cow_done(
            *old(pt),
            *final(pt),
            *old(mem),
            *final(mem),
            page_va,
            index,
            old(frames)@,
            done,
        ),
        done == (old(frames)@.len() > 0 && !old(pt).blocked(page_va) && old(pt).missing(page_va)
            <= old(frames)@.len() - 1),
        done ==> final(frames)@ == old(frames)@.take(
            old(frames)@.len() - 1 - old(pt).missing(page_va),
        ),
        !done ==> final(frames)@ == cow_left(*old(pt), page_va, old(frames)@),
{
    let ghost before = *mem;
    let ghost free = frames@;
    let src = effective_page(mem, index);
    let (page, pa): (Arc<Page>, u64) = match DataMem::alloc_cow_page(src.as_slice(), frames) {
        None => return false,
        Some(p) => p,
    };
    let perm = Perm::user_rw();
    match pt.map_one(page_va, pa, perm, frames) {
        None => {
            frames.push(pa);
            assert(frames@ =~= cow_left(*old(pt), page_va, free));
            false
        },
        Some(_) => {
            mem.commit_page(index, page);
            assert(mem.overlay@.drop_last() =~= before.overlay@);
            assert(frames@ =~= free.take(free.len() - 1 - old(pt).missing(page_va)));
            true
        },
    }
}

/// Where the pages of a read-only region come from.
#[derive(Clone, Copy, Debug, PartialEq, Eq)]
pub enum RoSrc {
    /// Contiguous physical memory.
    Contig { base_pa: u64 },
    /// The pages of the memory.
    Mem,
}

/// Where the page of `va`, in a region from `start` on, is mapped from.
pub open spec fn ro_source_pa(
    src: RoSrc,
    mem: DataMem,
    data_base: u64,
    zero_pa: u64,
    start: u64,
    va: u64,
) -> Option<u64> {
    match src {
        RoSrc::Contig { base_pa } => if base_pa + (va - start) <= u64::MAX {
            Some((base_pa + (va - start)) as u64)
        } else {
            None
        },
        RoSrc::Mem => if va >= data_base {
            source_pa(mem, data_base, va, zero_pa)
        } else {
            None
        },
    }
}

/// First address of the unit of `va` in a region from `start` on: where the region
/// and the 2 MiB cluster of `va` both have begun.
pub open spec fn unit_start(va: u64, start: u64) -> u64 {
    let cluster = (va - va % RO_UNIT_BYTES) as u64;
    if start >= cluster {
        start
    } else {
        cluster
    }
}

/// End of the unit of `va` in a region up to `end`.
pub open spec fn unit_end(va: u64, end: u64) -> int {
    let cluster_end = va - va % RO_UNIT_BYTES + RO_UNIT_BYTES;
    if end <= cluster_end {
        end as int
    } else {
        cluster_end
    }
}

/// Whether `after` has the pages `lo`, `lo + 4096` and so on, `n` of them, mapped for
/// reading.
pub open spec fn ro_mapped(
    before: PageTable,
    after: PageTable,
    src: RoSrc,
    mem: DataMem,
    data_base: u64,
    zero_pa: u64,
    start: u64,
    lo: u64,
    n: nat,
) -> bool {
    &&& forall|v: u64| #[trigger]
        after.leaf(v) == ro_leaf(before.leaf(v), src, mem, data_base, zero_pa, start, lo, n, v)
    &&& forall|v: u64| #[trigger] after.blocked(v) == before.blocked(v)
}

/// The leaf of `v` after `n` pages from `lo` on were mapped for reading.
pub open spec fn ro_leaf(
    before: Option<u64>,
    src: RoSrc,
    mem: DataMem,
    data_base: u64,
    zero_pa: u64,
    start: u64,
    lo: u64,
    n: nat,
    v: u64,
) -> Option<u64>
    decreases n,
{
    if n == 0 {
        before
    } else {
        let va = (lo + (n - 1) * PAGE_BYTES) as u64;
        if page_number(v) == page_number(va) {
            Some(
                leaf_entry(
                    ro_source_pa(src, mem, data_base, zero_pa, start, va)->0,
                    user_ro(),
                ),
            )
        } else {
            ro_leaf(before, src, mem, data_base, zero_pa, start, lo, (n - 1) as nat, v)
        }
    }
}

/// How many pages there are from `lo` up to `hi`.
pub open spec fn page_count(lo: int, hi: int) -> nat {
    if hi <= lo {
        0
    } else {
        ((hi - lo + PAGE_BYTES - 1) / PAGE_BYTES as int) as nat
    }
}

/// Whether the `n` pages from `lo` on come from somewhere.
pub open spec fn ro_sourced(
    src: RoSrc,
    mem: DataMem,
    data_base: u64,
    zero_pa: u64,
    start: u64,
    lo: u64,
    n: nat,
) -> bool {
    forall|k: int|
        0 <= k < n ==> ro_source_pa(
            src,
            mem,
            data_base,
            zero_pa,
            start,
            #[trigger] nth_page(lo, k),
        ) is Some
}

/// The free pages after the page after the first `k` from `lo` on could not be mapped
/// for reading.
pub open spec fn unit_left(
    pt: PageTable,
    frames: Seq<u64>,
    src: RoSrc,
    data: DataSource,
    start: u64,
    lo: u64,
    k: nat,
) -> Seq<u64> {
    let va = nth_page(lo, k as int);
    if ro_source_pa(src, data.mem, data.data_base, data.zero_pa, start, va) is None || pt.blocked(
        va,
    ) {
        frames.take(frames.len() - pt.tables_for(lo, k))
    } else {
        Seq::empty()
    }
}

/// Map the pages from `lo` up to `hi` for reading.
fn map_unit(
    pt: &mut PageTable,
    mem: &DataMem,
    data_base: u64,
    zero_pa: u64,
    src: RoSrc,
    start: u64,
    lo: u64,
    hi: u64,
    frames: &mut Vec<u64>,
) -> (done: bool)
    requires
        start <= lo,
        hi <= 0x1_0000_0000,
        lo <= 0x1_0000_0000,
    ensures
        done ==> ro_mapped(
            *old(pt),
            *final(pt),
            src,
            *mem,
            data_base,
            zero_pa,
            start,
            lo,
            page_count(lo as int, hi as int),
        ),
        !done ==> exists|n: nat|
            n < page_count(lo as int, hi as int) && #[trigger] ro_mapped(
                *old(pt),
                *final(pt),
                src,
                *mem,
                data_base,
                zero_pa,
                start,
                lo,
                n,
            ) && final(frames)@ == unit_left(
                *old(pt),
                old(frames)@,
                src,
                (DataSource { mem: *mem, data_base, zero_pa }),
                start,
                lo,
                n,
            ),
        done == (ro_sourced(
            src,
            *mem,
            data_base,
            zero_pa,
            start,
            lo,
            page_count(lo as int, hi as int),
        ) && old(pt).accepts(lo, page_count(lo as int, hi as int), old(frames)@.len())),
        done ==> final(frames)@ == old(frames)@.take(
            old(frames)@.len() - old(pt).tables_for(lo, page_count(lo as int, hi as int)),
        ),
{
    let ghost before = *pt;
    let ghost free = frames@;
    assert(free.take(free.len() as int) =~= free);
    let ghost total = page_count(lo as int, hi as int);
    let mut q: u64 = lo;
    let ghost mut n: nat = 0;
    let ro = Perm::user_ro();
    while q < hi
        invariant
            start <= lo <= q,
            lo <= 0x1_0000_0000,
            hi <= 0x1_0000_0000,
            q == lo + n * PAGE_BYTES,
            n <= total,
            total == page_count(lo as int, hi as int),
            ro == user_ro(),
            ro_mapped(before, *pt, src, *mem, data_base, zero_pa, start, lo, n),
            forall|v: u64| #[trigger]
                pt.missing(v) == missing_after(before.missing(v), v, lo, n),
            before.accepts(lo, n, free.len()),
            ro_sourced(src, *mem, data_base, zero_pa, start, lo, n),
            frames@ == free.take(free.len() - before.tables_for(lo, n)),
            free == old(frames)@,
            before == *old(pt),
        decreases hi + PAGE_BYTES - q,
    {
        assert(n < total) by (nonlinear_arith)
            requires
                q == lo + n * PAGE_BYTES,
                q < hi,
                total == page_count(lo as int, hi as int),
                PAGE_BYTES == 4096,
        ;
        let ghost earlier = *pt;
        let source: Option<u64> = match src {
            RoSrc::Contig { base_pa } => if base_pa <= u64::MAX - (q - start) {
                Some(base_pa + (q - start))
            } else {
                None
            },
            RoSrc::Mem => if q >= data_base {
                mem_source_pa_in(mem, data_base, q, zero_pa)
            } else {
                None
            },
        };
        assert(source == ro_source_pa(src, *mem, data_base, zero_pa, start, q));
        proof {
            assert(nth_page(lo, n as int) == q);
            assert(pt.blocked(q) == before.blocked(q));
            assert(before.tables_for(lo, n + 1) == before.tables_for(lo, n) + earlier.missing(q));
            lemma_tables_grow(before, lo, n + 1, total);
        }
        let pa: u64 = match source {
            None => {
                return false;
            },
            Some(pa) => pa,
        };
        match pt.map_one(q, pa, ro, frames) {
            None => {
                proof {
                    assert forall|v: u64| #[trigger] pt.leaf(v) == ro_leaf(
                        before.leaf(v),
                        src,
                        *mem,
                        data_base,
                        zero_pa,
                        start,
                        lo,
                        n,
                        v,
                    ) by {
                        assert(earlier.leaf(v) == pt.leaf(v));
                    }
                    assert forall|v: u64| #[trigger] pt.blocked(v) == before.blocked(v) by {
                        assert(earlier.blocked(v) == before.blocked(v));
                    }
                    assert(ro_mapped(
                        before,
                        *pt,
                        src,
                        *mem,
                        data_base,
                        zero_pa,
                        start,
                        lo,
                        n,
                    ));
                }
                return false;
            },
            Some(_) => {},
        }
        proof {
            assert forall|v: u64| #[trigger] pt.leaf(v) == ro_leaf(
                before.leaf(v),
                src,
                *mem,
                data_base,
                zero_pa,
                start,
                lo,
                n + 1,
                v,
            ) by {
                assert(earlier.leaf(v) == ro_leaf(
                    before.leaf(v),
                    src,
                    *mem,
                    data_base,
                    zero_pa,
                    start,
                    lo,
                    n,
                    v,
                ));
                assert((lo + ((n + 1) - 1) * PAGE_BYTES) as u64 == q);
            }
            assert forall|v: u64| #[trigger] pt.blocked(v) == before.blocked(v) by {
                assert(earlier.blocked(v) == before.blocked(v));
            }
            assert forall|v: u64| #[trigger] pt.missing(v) == missing_after(
                before.missing(v),
                v,
                lo,
                n + 1,
            ) by {
                assert(earlier.missing(v) == missing_after(before.missing(v), v, lo, n));
            }
            assert forall|k: int| 0 <= k < n + 1 implies !#[trigger] before.blocked(
                nth_page(lo, k),
            ) by {
            }
            assert(frames@ =~= free.take(free.len() - before.tables_for(lo, n + 1)));
            n = n + 1;
        }
        q = q + PAGE_BYTES;
    }
    proof {
        assert(n == total) by (nonlinear_arith)
            requires
                q == lo + n * PAGE_BYTES,
                q >= hi,
                n <= total,
                total == page_count(lo as int, hi as int),
                PAGE_BYTES == 4096,
        ;
    }
    true
}

/// How many of the first units are below `unit`.
pub open spec fn units_below(units: Seq<u32>, unit: u32) -> nat
    decreases units.len(),
{
    if units.len() == 0 || units[0] >= unit {
        0
    } else {
        1 + units_below(units.drop_first(), unit)
    }
}

/// The units with `unit`, in its place.
pub open spec fn with_unit(units: Seq<u32>, unit: u32) -> Seq<u32> {
    if units.contains(unit) {
        units
    } else {
        units.insert(units_below(units, unit) as int, unit)
    }
}

/// Whether every unit is below those after it.
pub open spec fn units_ascend(units: Seq<u32>) -> bool {
    forall|i: int, j: int| 0 <= i < j < units.len() ==> units[i] < units[j]
}

proof fn lemma_units_below(units: Seq<u32>, unit: u32)
    ensures
        units_below(units, unit) <= units.len(),
        forall|i: int| 0 <= i < units_below(units, unit) ==> #[trigger] units[i] < unit,
        units_below(units, unit) < units.len() ==> units[units_below(units, unit) as int] >= unit,
    decreases units.len(),
{
    if units.len() > 0 && units[0] < unit {
        lemma_units_below(units.drop_first(), unit);
        let n = units_below(units.drop_first(), unit);
        assert forall|i: int| 0 <= i < n + 1 implies #[trigger] units[i] < unit by {
            if i > 0 {
                assert(units.drop_first()[i - 1] < unit);
            }
        }
        if n < units.len() - 1 {
            assert(units.drop_first()[n as int] == units[n as int + 1]);
        }
    }
}

/// Adding a unit keeps the units ascending, so none is there twice.
pub proof fn law_units_stay_ascending(units: Seq<u32>, unit: u32)
    requires
        units_ascend(units),
    ensures
        units_ascend(with_unit(units, unit)),
        with_unit(units, unit).contains(unit),
        forall|u: u32| units.contains(u) ==> #[trigger] with_unit(units, unit).contains(u),
{
    lemma_units_below(units, unit);
    let p = units_below(units, unit) as int;
    let after = with_unit(units, unit);
    if !units.contains(unit) {
        assert(after[p] == unit);
        assert forall|i: int, j: int| 0 <= i < j < after.len() implies after[i] < after[j] by {
            let a = if i < p {
                i
            } else {
                i - 1
            };
            let b = if j < p {
                j
            } else {
                j - 1
            };
            if i == p {
                assert(units[p] != unit);
            }
        }
        assert forall|u: u32| units.contains(u) implies #[trigger] after.contains(u) by {
            let i = choose|i: int| 0 <= i < units.len() && units[i] == u;
            if i < p {
                assert(after[i] == u);
            } else {
                assert(after[i + 1] == u);
            }
        }
    }
}

/// Put a unit in its place; whether it is new.
fn add_unit(units: &mut Vec<u32>, unit: u32) -> (new: bool)
    ensures
        new == !old(units)@.contains(unit),
        final(units)@ == with_unit(old(units)@, unit),
{
    let mut i: usize = 0;
    while i < units.len()
        invariant
            i <= units@.len(),
            forall|j: int| 0 <= j < i ==> units@[j] != unit,
        decreases units@.len() - i,
    {
        if units[i] == unit {
            return false;
        }
        i = i + 1;
    }
    let mut p: usize = 0;
    assert(units@.skip(0) =~= units@);
    while p < units.len() && units[p] < unit
        invariant
            p <= units@.len(),
            units_below(units@, unit) == p + units_below(units@.skip(p as int), unit),
        decreases units@.len() - p,
    {
        assert(units@.skip(p as int).drop_first() =~= units@.skip(p + 1));
        p = p + 1;
    }
    units.insert(p, unit);
    true
}

/// A read-only region: where it starts and ends, and where its pages come from.
pub struct RoRegion {
    pub start: u64,
    pub end: u64,
    pub src: RoSrc,
}

/// Where the bytes of the data pages are: the memory, its first address, and the
/// page of zeros.
pub struct DataSource {
    pub mem: DataMem,
    pub data_base: u64,
    pub zero_pa: u64,
}

/// What materializing the unit of `va` comes to: nothing if it is there; else it is
/// noted, and its pages are mapped, all of them if it succeeds.
pub open spec fn unit_done(
    pt: PageTable,
    pt_after: PageTable,
    units: Seq<u32>,
    units_after: Seq<u32>,
    frames: Seq<u64>,
    frames_after: Seq<u64>,
    data: DataSource,
    va: u64,
    region: RoRegion,
    done: bool,
) -> bool {
    let lo = unit_start(va, region.start);
    let n = page_count(lo as int, unit_end(va, region.end));
    &&& units_after == with_unit(units, lo as u32)
    &&& if units.contains(lo as u32) {
        done && pt_after == pt && frames_after == frames
    } else {
        &&& done ==> ro_mapped(
            pt,
            pt_after,
            region.src,
            data.mem,
            data.data_base,
            data.zero_pa,
            region.start,
            lo,
            n,
        )
        &&& !done ==> exists|k: nat|
            k < n && #[trigger] ro_mapped(
                pt,
                pt_after,
                region.src,
                data.mem,
                data.data_base,
                data.zero_pa,
                region.start,
                lo,
                k,
            ) && frames_after == unit_left(
                pt,
                frames,
                region.src,
                data,
                region.start,
                lo,
                k,
            )
        &&& done == unit_owed(pt, frames, data, region, lo, n)
        &&& done ==> frames_after == frames.take(frames.len() - pt.tables_for(lo, n))
    }
}

/// Whether the pages of a unit can be mapped: they come from somewhere, no entry
/// above them is somebody else's, and there are enough pages for the tables.
pub open spec fn unit_owed(
    pt: PageTable,
    frames: Seq<u64>,
    data: DataSource,
    region: RoRegion,
    lo: u64,
    n: nat,
) -> bool {
    &&& ro_sourced(region.src, data.mem, data.data_base, data.zero_pa, region.start, lo, n)
    &&& pt.accepts(lo, n, frames.len())
}

/// Materialize the read-only unit of `va`. This is free: what a unit costs was paid
/// at the call.
pub fn materialize_ro_unit(
    pt: &mut PageTable,
    mem: &DataMem,
    data_base: u64,
    zero_pa: u64,
    va: u64,
    region: &RoRegion,
    ro_units: &mut Vec<u32>,
    frames: &mut Vec<u64>,
) -> (done: bool)
    requires
        region.start <= va < region.end <= u32::MAX,
    ensures
        unit_done(
            *old(pt),
            *final(pt),
            old(ro_units)@,
            final(ro_units)@,
            old(frames)@,
            final(frames)@,
            (DataSource { mem: *mem, data_base, zero_pa }),
            va,
            *region,
            done,
        ),
{
    let cluster_lo: u64 = va - va % RO_UNIT_BYTES;
    let cluster_hi: u64 = cluster_lo + RO_UNIT_BYTES;
    let lo: u64 = if region.start >= cluster_lo {
        region.start
    } else {
        cluster_lo
    };
    let hi: u64 = if region.end <= cluster_hi {
        region.end
    } else {
        cluster_hi
    };
    assert(lo == unit_start(va, region.start));
    assert(hi == unit_end(va, region.end));
    if !add_unit(ro_units, lo as u32) {
        return true;
    }
    let ghost before = *pt;
    let done = map_unit(pt, mem, data_base, zero_pa, region.src, region.start, lo, hi, frames);
    proof {
        if !done {
            let n = page_count(lo as int, unit_end(va, region.end));
            let k = choose|k: nat|
                k < n && #[trigger] ro_mapped(
                    before,
                    *pt,
                    region.src,
                    *mem,
                    data_base,
                    zero_pa,
                    region.start,
                    lo,
                    k,
                );
            let data = DataSource { mem: *mem, data_base, zero_pa };
            assert(ro_mapped(
                before,
                *pt,
                region.src,
                data.mem,
                data.data_base,
                data.zero_pa,
                region.start,
                unit_start(va, region.start),
                k,
            ));
        }
    }
    done
}

/// Whether a touch leaves a page as it is.
pub open spec fn stays(state: u8, is_write: bool) -> bool {
    state >= PRESENT_RW || (state == PRESENT_RO && !is_write)
}

/// Whether a data page that is touched can be made what it has to be.
pub open spec fn data_owed(
    pt: PageTable,
    state: u8,
    frames: Seq<u64>,
    data: DataSource,
    va: u64,
    is_write: bool,
) -> bool {
    let index = (va - data.data_base) / PAGE_BYTES as int;
    if stays(state, is_write) || (is_write && data.mem.written(index) && pt.leaf(va) is Some) {
        true
    } else {
        &&& source_pa(data.mem, data.data_base, va, data.zero_pa) is Some
        &&& !pt.blocked(va)
        &&& pt.missing(va) + (if is_write {
            1int
        } else {
            0int
        }) <= frames.len()
    }
}

/// How many free pages a touch takes: for the tables, and for the copy of a page
/// that is written for the first time.
pub open spec fn pages_taken(
    pt: PageTable,
    state: u8,
    data: DataSource,
    va: u64,
    is_write: bool,
) -> nat {
    let index = (va - data.data_base) / PAGE_BYTES as int;
    if stays(state, is_write) || (is_write && data.mem.written(index) && pt.leaf(va) is Some) {
        0
    } else if is_write {
        1 + pt.missing(va)
    } else {
        pt.missing(va)
    }
}

/// The free pages after a data page could not be made what it has to be.
pub open spec fn data_left(
    pt: PageTable,
    frames: Seq<u64>,
    data: DataSource,
    va: u64,
    is_write: bool,
) -> Seq<u64> {
    if source_pa(data.mem, data.data_base, va, data.zero_pa) is None {
        frames
    } else if is_write {
        cow_left(pt, va, frames)
    } else if pt.blocked(va) {
        frames
    } else {
        Seq::empty()
    }
}

/// What touching a writable data page comes to. `change` is the charge, and whether
/// a translation that may be cached has changed.
pub open spec fn data_done(
    pt: PageTable,
    pt_after: PageTable,
    states: Seq<u8>,
    states_after: Seq<u8>,
    frames: Seq<u64>,
    frames_after: Seq<u64>,
    data: DataSource,
    mem_after: DataMem,
    va: u64,
    is_write: bool,
    costs: MatCosts,
    change: Option<(u64, bool)>,
) -> bool {
    let index = (va - data.data_base) / PAGE_BYTES as int;
    let state = states[index];
    let c = charge_for(state, is_write, costs);
    &&& change is Some <==> data_owed(pt, state, frames, data, va, is_write)
    &&& match change {
        None => {
            &&& mem_after == data.mem
            &&& states_after == states
            &&& same_leaves(pt, pt_after)
            &&& frames_after == data_left(pt, frames, data, va, is_write)
        },
        Some((charge, flush)) => {
            &&& charge == c.0
            &&& states_after == states.update(index, c.1)
            &&& frames_after == frames.take(
                frames.len() - pages_taken(pt, state, data, va, is_write),
            )
            &&& if stays(state, is_write) {
                &&& mem_after == data.mem
                &&& same_leaves(pt, pt_after)
                &&& !flush
            } else if !is_write {
                &&& mem_after == data.mem
                &&& leaf_set(
                    pt,
                    pt_after,
                    va,
                    leaf_entry(
                        source_pa(data.mem, data.data_base, va, data.zero_pa)->0,
                        user_ro(),
                    ),
                )
                &&& !flush
            } else if data.mem.written(index) && pt.leaf(va) is Some {
                &&& mem_after == data.mem
                &&& leaf_set(pt, pt_after, va, with_w(pt.leaf(va)->0, true))
                &&& flush
            } else {
                &&& copied(data.mem, mem_after, index as u32, frames.last())
                &&& leaf_set(pt, pt_after, va, leaf_entry(frames.last(), user_rw()))
                &&& flush == (state == PRESENT_RO)
            }
        },
    }
}

/// Touch a writable data page: page it in for a read, make it private for a write.
/// A page that was private and only lost its write permission gets that back.
pub fn touch_data_page(
    pt: &mut PageTable,
    mem: &mut DataMem,
    mat_state: &mut Vec<u8>,
    frames: &mut Vec<u64>,
    data_base: u64,
    zero_pa: u64,
    va: u64,
    is_write: bool,
    costs: &MatCosts,
) -> (change: Option<(u64, bool)>)
    requires
        data_base <= va <= u32::MAX,
        ((va - data_base) / PAGE_BYTES as int) < old(mat_state)@.len(),
    ensures
        data_done(
            *old(pt),
            *final(pt),
            old(mat_state)@,
            final(mat_state)@,
            old(frames)@,
            final(frames)@,
            (DataSource { mem: *old(mem), data_base, zero_pa }),
            *final(mem),
            va,
            is_write,
            *costs,
            change,
        ),
{
    let index: u64 = (va - data_base) / PAGE_BYTES;
    let i: usize = index as usize;
    let cur: u8 = mat_state[i];
    let (cost, next): (u64, u8) = charge(cur, is_write, costs);
    let mut flush: bool = false;
    assert(frames@.take(frames@.len() as int) =~= frames@);
    if next == PRESENT_RO {
        if cur == NOT_PRESENT {
            let src_pa: u64 = match mem_source_pa_in(mem, data_base, va, zero_pa) {
                None => return None,
                Some(pa) => pa,
            };
            let ro = Perm::user_ro();
            if pt.map_one(va, src_pa, ro, frames).is_none() {
                return None;
            }
        }
    } else if cur < PRESENT_RW {
        let flipped: bool = mem.overlay_has(index as u32) && pt.set_leaf_w(va, true);
        if flipped {
            flush = true;
        } else {
            if mem_source_pa_in(mem, data_base, va, zero_pa).is_none() {
                return None;
            }
            if !cow_into_fresh(pt, mem, va, index as u32, frames) {
                return None;
            }
            flush = cur == PRESENT_RO;
        }
    }
    mat_state.set(i, next);
    Some((cost, flush))
}

/// What the pages of a guest are at: its tables, its memory, how far each data page
/// is materialized, the read-only units that are, and the free pages.
pub struct Pages {
    pub pt: PageTable,
    pub mem: DataMem,
    pub states: Seq<u8>,
    pub units: Seq<u32>,
    pub frames: Seq<u64>,
}

/// Whether an address is that of code.
pub open spec fn in_code(rt: FrameRuntime, va: u32) -> bool {
    rt.code_base <= va && va < rt.code_top
}

/// Whether an address is that of data.
pub open spec fn in_data(rt: FrameRuntime, va: u32) -> bool {
    rt.data_base <= va && va < rt.mem_top
}

/// The read-only region of an address: the code, or pinned data.
pub open spec fn ro_region(rt: FrameRuntime, va: u32) -> Option<RoRegion> {
    if in_code(rt, va) {
        Some(
            RoRegion {
                start: rt.code_base as u64,
                end: rt.code_top as u64,
                src: RoSrc::Contig { base_pa: rt.code_pa },
            },
        )
    } else {
        match range_at(rt.mat_ranges@, va) {
            Some(r) => if r.kind == KIND_PINNED_RO {
                Some(RoRegion { start: r.start as u64, end: r.end as u64, src: RoSrc::Mem })
            } else {
                None
            },
            None => None,
        }
    }
}

/// Whether the pages of an access may be touched: all of them are code, and it is a
/// read; or all are data, and none that is written is pinned.
pub open spec fn accessible(rt: FrameRuntime, pages: Seq<u32>, is_write: bool) -> bool {
    if in_code(rt, pages[0]) {
        !is_write && forall|i: int| 0 <= i < pages.len() ==> in_code(rt, #[trigger] pages[i])
    } else {
        forall|i: int|
            0 <= i < pages.len() ==> in_data(rt, #[trigger] pages[i]) && !(is_write && kind_at(
                rt.mat_ranges@,
                pages[i],
            ) == KIND_PINNED_RO)
    }
}

/// What touching one page of an access comes to.
pub open spec fn page_done(
    rt: FrameRuntime,
    before: Pages,
    after: Pages,
    zero_pa: u64,
    va: u32,
    is_write: bool,
    costs: MatCosts,
    change: Option<(u64, bool)>,
) -> bool {
    let data = DataSource { mem: before.mem, data_base: rt.data_base as u64, zero_pa };
    match ro_region(rt, va) {
        Some(region) => {
            &&& unit_done(
                before.pt,
                after.pt,
                before.units,
                after.units,
                before.frames,
                after.frames,
                data,
                va as u64,
                region,
                change is Some,
            )
            &&& after.mem == before.mem
            &&& after.states == before.states
            &&& change is Some ==> change == Some((0u64, false))
        },
        None => if range_at(rt.mat_ranges@, va) is None {
            after == before && change is None
        } else {
            &&& after.units == before.units
            &&& data_done(
                before.pt,
                after.pt,
                before.states,
                after.states,
                before.frames,
                after.frames,
                data,
                after.mem,
                va as u64,
                is_write,
                costs,
                change,
            )
        },
    }
}

/// `a + b`, at most the largest number.
pub open spec fn added(a: u64, b: u64) -> u64 {
    if a + b > u64::MAX {
        u64::MAX
    } else {
        (a + b) as u64
    }
}

/// What touching the first `n` pages of an access comes to: what it costs, and the
/// pages whose translations may be cached and have changed.
pub open spec fn pages_done(
    rt: FrameRuntime,
    before: Pages,
    after: Pages,
    zero_pa: u64,
    pages: Seq<u32>,
    n: nat,
    is_write: bool,
    costs: MatCosts,
    total: u64,
    flush: Seq<u64>,
) -> bool
    decreases n,
{
    if n == 0 {
        after == before && total == 0 && flush == Seq::<u64>::empty()
    } else {
        exists|mid: Pages, t: u64, f: Seq<u64>, c: (u64, bool)|
            {
                &&& pages_done(
                    rt,
                    before,
                    mid,
                    zero_pa,
                    pages,
                    (n - 1) as nat,
                    is_write,
                    costs,
                    t,
                    f,
                )
                &&& #[trigger] page_done(
                    rt,
                    mid,
                    after,
                    zero_pa,
                    pages[n - 1],
                    is_write,
                    costs,
                    Some(c),
                )
                &&& #[trigger] summed(t, f, c, pages[n - 1], total, flush)
            }
    }
}

/// What a page that comes after cost `t` and flushes `f` makes of them.
pub open spec fn summed(
    t: u64,
    f: Seq<u64>,
    c: (u64, bool),
    va: u32,
    total: u64,
    flush: Seq<u64>,
) -> bool {
    &&& total == added(t, c.0)
    &&& flush == if c.1 {
        f.push(va as u64)
    } else {
        f
    }
}

proof fn lemma_one_more_page(
    rt: FrameRuntime,
    before: Pages,
    mid: Pages,
    after: Pages,
    zero_pa: u64,
    pages: Seq<u32>,
    n: nat,
    is_write: bool,
    costs: MatCosts,
    t: u64,
    f: Seq<u64>,
    c: (u64, bool),
)
    requires
        n < pages.len(),
        pages_done(rt, before, mid, zero_pa, pages, n, is_write, costs, t, f),
        page_done(rt, mid, after, zero_pa, pages[n as int], is_write, costs, Some(c)),
    ensures
        pages_done(
            rt,
            before,
            after,
            zero_pa,
            pages,
            n + 1,
            is_write,
            costs,
            added(t, c.0),
            if c.1 {
                f.push(pages[n as int] as u64)
            } else {
                f
            },
        ),
{
    let m = n + 1;
    let flush = if c.1 {
        f.push(pages[n as int] as u64)
    } else {
        f
    };
    assert((m - 1) as nat == n);
    assert(page_done(rt, mid, after, zero_pa, pages[m - 1], is_write, costs, Some(c)));
    assert(summed(t, f, c, pages[m - 1], added(t, c.0), flush));
}

/// Whether touching stopped at a page that could not be materialized.
pub open spec fn stopped(
    rt: FrameRuntime,
    before: Pages,
    after: Pages,
    zero_pa: u64,
    pages: Seq<u32>,
    is_write: bool,
    costs: MatCosts,
) -> bool {
    exists|n: nat, mid: Pages, t: u64, f: Seq<u64>|
        {
            &&& n < pages.len()
            &&& #[trigger] pages_done(rt, before, mid, zero_pa, pages, n, is_write, costs, t, f)
            &&& page_done(rt, mid, after, zero_pa, pages[n as int], is_write, costs, None)
        }
}

/// What materializing an access comes to. Nothing changes if one of its pages may
/// not be touched.
pub open spec fn materialized(
    rt: FrameRuntime,
    before: Pages,
    after: Pages,
    zero_pa: u64,
    pages: Seq<u32>,
    is_write: bool,
    costs: MatCosts,
    outcome: Option<Materialized>,
) -> bool {
    match outcome {
        Some(m) => {
            &&& accessible(rt, pages, is_write)
            &&& pages_done(
                rt,
                before,
                after,
                zero_pa,
                pages,
                pages.len(),
                is_write,
                costs,
                m.charge,
                m.flush@,
            )
        },
        None => if accessible(rt, pages, is_write) {
            stopped(rt, before, after, zero_pa, pages, is_write, costs)
        } else {
            after == before
        },
    }
}

/// What an access cost, and the pages whose cached translations are stale.
#[derive(Debug)]
pub struct Materialized {
    pub charge: u64,
    pub flush: Vec<u64>,
}

fn may_touch(rt: &FrameRuntime, pages: &Vec<u32>, is_write: bool) -> (may: bool)
    requires
        pages@.len() > 0,
    ensures
        may == accessible(*rt, pages@, is_write),
{
    let base: u32 = pages[0];
    let code: bool = rt.code_base <= base && base < rt.code_top;
    if code && is_write {
        return false;
    }
    let mut i: usize = 0;
    while i < pages.len()
        invariant
            i <= pages@.len(),
            pages@.len() > 0,
            code == in_code(*rt, pages@[0]),
            code ==> !is_write,
            forall|j: int| 0 <= j < i && code ==> in_code(*rt, #[trigger] pages@[j]),
            forall|j: int|
                0 <= j < i && !code ==> in_data(*rt, #[trigger] pages@[j]) && !(is_write
                    && kind_at(rt.mat_ranges@, pages@[j]) == KIND_PINNED_RO),
        decreases pages@.len() - i,
    {
        let va: u32 = pages[i];
        if code {
            if !(rt.code_base <= va && va < rt.code_top) {
                return false;
            }
        } else {
            if !(rt.data_base <= va && va < rt.mem_top) {
                return false;
            }
            if is_write && page_kind(&rt.mat_ranges, va) == KIND_PINNED_RO {
                return false;
            }
        }
        i = i + 1;
    }
    true
}

/// How many pages of data a guest has.
pub open spec fn data_pages(rt: FrameRuntime) -> nat {
    page_count(rt.data_base as int, rt.mem_top as int)
}

/// Touch one page that may be touched.
fn touch_page(
    rt: &mut FrameRuntime,
    mem: &mut DataMem,
    mat_state: &mut Vec<u8>,
    ro_units: &mut Vec<u32>,
    frames: &mut Vec<u64>,
    zero_pa: u64,
    va: u32,
    is_write: bool,
    costs: &MatCosts,
) -> (change: Option<(u64, bool)>)
    requires
        in_code(*old(rt), va) || in_data(*old(rt), va),
        data_pages(*old(rt)) <= old(mat_state)@.len(),
    ensures
        *final(rt) == (FrameRuntime { pt: final(rt).pt, ..*old(rt) }),
        final(mat_state)@.len() == old(mat_state)@.len(),
        page_done(
            *old(rt),
            (Pages {
                pt: old(rt).pt,
                mem: *old(mem),
                states: old(mat_state)@,
                units: old(ro_units)@,
                frames: old(frames)@,
            }),
            (Pages {
                pt: final(rt).pt,
                mem: *final(mem),
                states: final(mat_state)@,
                units: final(ro_units)@,
                frames: final(frames)@,
            }),
            zero_pa,
            va,
            is_write,
            *costs,
            change,
        ),
{
    let data_base: u64 = rt.data_base as u64;
    if rt.code_base <= va && va < rt.code_top {
        let region = RoRegion {
            start: rt.code_base as u64,
            end: rt.code_top as u64,
            src: RoSrc::Contig { base_pa: rt.code_pa },
        };
        return if materialize_ro_unit(
            &mut rt.pt,
            mem,
            data_base,
            zero_pa,
            va as u64,
            &region,
            ro_units,
            frames,
        ) {
            Some((0, false))
        } else {
            None
        };
    }
    let range: MatRange = match mat_range_for_in(&rt.mat_ranges, va) {
        None => return None,
        Some(r) => r,
    };
    if range.kind == KIND_PINNED_RO {
        let region = RoRegion {
            start: range.start as u64,
            end: range.end as u64,
            src: RoSrc::Mem,
        };
        return if materialize_ro_unit(
            &mut rt.pt,
            mem,
            data_base,
            zero_pa,
            va as u64,
            &region,
            ro_units,
            frames,
        ) {
            Some((0, false))
        } else {
            None
        };
    }
    assert(((va - rt.data_base) / PAGE_BYTES as int) < data_pages(*rt));
    touch_data_page(
        &mut rt.pt,
        mem,
        mat_state,
        frames,
        data_base,
        zero_pa,
        va as u64,
        is_write,
        costs,
    )
}

/// Materialize the pages of an access of `width` bytes. `None`, and nothing changes,
/// if one of them may not be touched; `None` too if the source of a page is missing
/// or the free pages run out, and then the pages before that one stay touched.
pub fn try_materialize(
    rt: &mut FrameRuntime,
    mem: &mut DataMem,
    mat_state: &mut Vec<u8>,
    ro_units: &mut Vec<u32>,
    frames: &mut Vec<u64>,
    zero_pa: u64,
    gva: u32,
    width: u32,
    is_write: bool,
    costs: &MatCosts,
) -> (outcome: Option<Materialized>)
    requires
        width > 0,
        data_pages(*old(rt)) <= old(mat_state)@.len(),
    ensures
        *final(rt) == (FrameRuntime { pt: final(rt).pt, ..*old(rt) }),
        final(mat_state)@.len() == old(mat_state)@.len(),
        materialized(
            *old(rt),
            (Pages {
                pt: old(rt).pt,
                mem: *old(mem),
                states: old(mat_state)@,
                units: old(ro_units)@,
                frames: old(frames)@,
            }),
            (Pages {
                pt: final(rt).pt,
                mem: *final(mem),
                states: final(mat_state)@,
                units: final(ro_units)@,
                frames: final(frames)@,
            }),
            zero_pa,
            access_pages(gva, width),
            is_write,
            *costs,
            outcome,
        ),
{
    let pages = pages_of_access(gva, width);
    if !may_touch(rt, &pages, is_write) {
        return None;
    }
    let ghost rt0 = *rt;
    let ghost before = Pages {
        pt: rt.pt,
        mem: *mem,
        states: mat_state@,
        units: ro_units@,
        frames: frames@,
    };
    let mut total: u64 = 0;
    let mut flush: Vec<u64> = Vec::new();
    let mut i: usize = 0;
    while i < pages.len()
        invariant
            i <= pages@.len(),
            *rt == (FrameRuntime { pt: rt.pt, ..rt0 }),
            data_pages(rt0) <= mat_state@.len(),
            mat_state@.len() == before.states.len(),
            accessible(rt0, pages@, is_write),
            rt0 == *old(rt),
            before == (Pages {
                pt: old(rt).pt,
                mem: *old(mem),
                states: old(mat_state)@,
                units: old(ro_units)@,
                frames: old(frames)@,
            }),
            pages@ == access_pages(gva, width),
            pages_done(
                rt0,
                before,
                (Pages {
                    pt: rt.pt,
                    mem: *mem,
                    states: mat_state@,
                    units: ro_units@,
                    frames: frames@,
                }),
                zero_pa,
                pages@,
                i as nat,
                is_write,
                *costs,
                total,
                flush@,
            ),
        decreases pages@.len() - i,
    {
        let va: u32 = pages[i];
        let ghost rt_mid = *rt;
        let ghost mid = Pages {
            pt: rt.pt,
            mem: *mem,
            states: mat_state@,
            units: ro_units@,
            frames: frames@,
        };
        let ghost t = total;
        let ghost f = flush@;
        assert(in_code(rt0, pages@[i as int]) || in_data(rt0, pages@[i as int]));
        let change = touch_page(
            rt,
            mem,
            mat_state,
            ro_units,
            frames,
            zero_pa,
            va,
            is_write,
            costs,
        );
        let ghost after = Pages {
            pt: rt.pt,
            mem: *mem,
            states: mat_state@,
            units: ro_units@,
            frames: frames@,
        };
        assert(page_done(rt0, mid, after, zero_pa, va, is_write, *costs, change)) by {
            assert(page_done(rt_mid, mid, after, zero_pa, va, is_write, *costs, change));
            assert(ro_region(rt_mid, va) == ro_region(rt0, va));
        }
        match change {
            None => {
                assert(pages_done(
                    rt0,
                    before,
                    mid,
                    zero_pa,
                    pages@,
                    i as nat,
                    is_write,
                    *costs,
                    t,
                    f,
                ));
                return None;
            },
            Some((c, stale)) => {
                total = total.saturating_add(c);
                if stale {
                    flush.push(va as u64);
                }
                assert(flush@ =~= if stale {
                    f.push(pages@[i as int] as u64)
                } else {
                    f
                });
                proof {
                    lemma_one_more_page(
                        rt0,
                        before,
                        mid,
                        after,
                        zero_pa,
                        pages@,
                        i as nat,
                        is_write,
                        *costs,
                        t,
                        f,
                        (c, stale),
                    );
                }
            },
        }
        i = i + 1;
    }
    Some(Materialized { charge: total, flush })
}

/// Touching the pages of an access keeps every byte of the memory.
pub proof fn law_materializing_keeps_bytes(
    rt: FrameRuntime,
    before: Pages,
    after: Pages,
    zero_pa: u64,
    pages: Seq<u32>,
    is_write: bool,
    costs: MatCosts,
    outcome: Option<Materialized>,
    offset: int,
)
    requires
        materialized(rt, before, after, zero_pa, pages, is_write, costs, outcome),
        0 <= offset,
    ensures
        after.mem.byte(offset) == before.mem.byte(offset),
{
    match outcome {
        Some(m) => {
            lemma_pages_keep_bytes(
                rt,
                before,
                after,
                zero_pa,
                pages,
                pages.len(),
                is_write,
                costs,
                m.charge,
                m.flush@,
                offset,
            );
        },
        None => if accessible(rt, pages, is_write) {
            let (n, mid, t, f) = choose|n: nat, mid: Pages, t: u64, f: Seq<u64>|
                {
                    &&& n < pages.len()
                    &&& #[trigger] pages_done(
                        rt,
                        before,
                        mid,
                        zero_pa,
                        pages,
                        n,
                        is_write,
                        costs,
                        t,
                        f,
                    )
                    &&& page_done(rt, mid, after, zero_pa, pages[n as int], is_write, costs, None)
                };
            lemma_pages_keep_bytes(
                rt,
                before,
                mid,
                zero_pa,
                pages,
                n,
                is_write,
                costs,
                t,
                f,
                offset,
            );
        },
    }
}

proof fn lemma_page_keeps_bytes(
    rt: FrameRuntime,
    before: Pages,
    after: Pages,
    zero_pa: u64,
    va: u32,
    is_write: bool,
    costs: MatCosts,
    change: Option<(u64, bool)>,
    offset: int,
)
    requires
        page_done(rt, before, after, zero_pa, va, is_write, costs, change),
        0 <= offset,
    ensures
        after.mem.byte(offset) == before.mem.byte(offset),
{
    if after.mem != before.mem {
        let index = (va - rt.data_base) / PAGE_BYTES as int;
        law_copy_keeps_bytes(before.mem, after.mem, index as u32, before.frames.last(), offset);
    }
}

proof fn lemma_pages_keep_bytes(
    rt: FrameRuntime,
    before: Pages,
    after: Pages,
    zero_pa: u64,
    pages: Seq<u32>,
    n: nat,
    is_write: bool,
    costs: MatCosts,
    total: u64,
    flush: Seq<u64>,
    offset: int,
)
    requires
        pages_done(rt, before, after, zero_pa, pages, n, is_write, costs, total, flush),
        0 <= offset,
    ensures
        after.mem.byte(offset) == before.mem.byte(offset),
    decreases n,
{
    if n > 0 {
        let m = (n - 1) as nat;
        let (mid, t, f, c) = choose|mid: Pages, t: u64, f: Seq<u64>, c: (u64, bool)|
            {
                &&& pages_done(rt, before, mid, zero_pa, pages, m, is_write, costs, t, f)
                &&& #[trigger] page_done(
                    rt,
                    mid,
                    after,
                    zero_pa,
                    pages[n - 1],
                    is_write,
                    costs,
                    Some(c),
                )
                &&& #[trigger] summed(t, f, c, pages[n - 1], total, flush)
            };
        lemma_pages_keep_bytes(
            rt,
            before,
            mid,
            zero_pa,
            pages,
            m,
            is_write,
            costs,
            t,
            f,
            offset,
        );
        lemma_page_keeps_bytes(
            rt,
            mid,
            after,
            zero_pa,
            pages[n - 1],
            is_write,
            costs,
            Some(c),
            offset,
        );
    }
}

/// Whether touching a page again is free.
pub open spec fn paid(rt: FrameRuntime, states: Seq<u8>, va: u32, is_write: bool) -> bool {
    let index = (va - rt.data_base) / PAGE_BYTES as int;
    ro_region(rt, va) is Some || (0 <= index < states.len() && stays(states[index], is_write))
}

proof fn lemma_page_paid(
    rt: FrameRuntime,
    before: Pages,
    after: Pages,
    zero_pa: u64,
    va: u32,
    is_write: bool,
    costs: MatCosts,
    c: (u64, bool),
    other: u32,
)
    requires
        page_done(rt, before, after, zero_pa, va, is_write, costs, Some(c)),
        in_code(rt, va) || in_data(rt, va),
        data_pages(rt) <= before.states.len(),
    ensures
        after.states.len() == before.states.len(),
        paid(rt, after.states, va, is_write),
        paid(rt, before.states, other, is_write) ==> paid(rt, after.states, other, is_write),
        paid(rt, before.states, va, is_write) ==> c.0 == 0,
{
    if ro_region(rt, va) is None {
        let index = (va - rt.data_base) / PAGE_BYTES as int;
        assert(0 <= index < data_pages(rt));
    }
}

proof fn lemma_pages_paid(
    rt: FrameRuntime,
    before: Pages,
    after: Pages,
    zero_pa: u64,
    pages: Seq<u32>,
    n: nat,
    is_write: bool,
    costs: MatCosts,
    total: u64,
    flush: Seq<u64>,
)
    requires
        pages_done(rt, before, after, zero_pa, pages, n, is_write, costs, total, flush),
        n <= pages.len(),
        forall|i: int|
            0 <= i < pages.len() ==> in_code(rt, #[trigger] pages[i]) || in_data(rt, pages[i]),
        data_pages(rt) <= before.states.len(),
    ensures
        after.states.len() == before.states.len(),
        forall|i: int| 0 <= i < n ==> paid(rt, after.states, #[trigger] pages[i], is_write),
        forall|va: u32|
            paid(rt, before.states, va, is_write) ==> #[trigger] paid(
                rt,
                after.states,
                va,
                is_write,
            ),
        (forall|i: int| 0 <= i < pages.len() ==> paid(rt, before.states, #[trigger] pages[i], is_write))
            ==> total == 0,
    decreases n,
{
    if n > 0 {
        let m = (n - 1) as nat;
        let (mid, t, f, c) = choose|mid: Pages, t: u64, f: Seq<u64>, c: (u64, bool)|
            {
                &&& pages_done(rt, before, mid, zero_pa, pages, m, is_write, costs, t, f)
                &&& #[trigger] page_done(
                    rt,
                    mid,
                    after,
                    zero_pa,
                    pages[n - 1],
                    is_write,
                    costs,
                    Some(c),
                )
                &&& #[trigger] summed(t, f, c, pages[n - 1], total, flush)
            };
        lemma_pages_paid(rt, before, mid, zero_pa, pages, m, is_write, costs, t, f);
        let va = pages[n - 1];
        lemma_page_paid(rt, mid, after, zero_pa, va, is_write, costs, c, va);
        assert forall|i: int| 0 <= i < n implies paid(
            rt,
            after.states,
            #[trigger] pages[i],
            is_write,
        ) by {
            lemma_page_paid(rt, mid, after, zero_pa, va, is_write, costs, c, pages[i]);
        }
        assert forall|other: u32| paid(rt, before.states, other, is_write) implies #[trigger] paid(
            rt,
            after.states,
            other,
            is_write,
        ) by {
            assert(paid(rt, mid.states, other, is_write));
            lemma_page_paid(rt, mid, after, zero_pa, va, is_write, costs, c, other);
        }
        if forall|i: int|
            0 <= i < pages.len() ==> paid(rt, before.states, #[trigger] pages[i], is_write) {
            assert(paid(rt, before.states, pages[n - 1], is_write));
            assert(paid(rt, mid.states, pages[n - 1], is_write));
        }
    }
}

/// An access that was materialized is free when it comes again.
pub proof fn law_second_access_is_free(
    rt: FrameRuntime,
    before: Pages,
    between: Pages,
    after: Pages,
    zero_pa: u64,
    pages: Seq<u32>,
    is_write: bool,
    costs: MatCosts,
    first: Materialized,
    second: Materialized,
)
    requires
        materialized(rt, before, between, zero_pa, pages, is_write, costs, Some(first)),
        materialized(rt, between, after, zero_pa, pages, is_write, costs, Some(second)),
        data_pages(rt) <= before.states.len(),
    ensures
        second.charge == 0,
{
    lemma_pages_paid(
        rt,
        before,
        between,
        zero_pa,
        pages,
        pages.len(),
        is_write,
        costs,
        first.charge,
        first.flush@,
    );
    lemma_pages_paid(
        rt,
        between,
        after,
        zero_pa,
        pages,
        pages.len(),
        is_write,
        costs,
        second.charge,
        second.flush@,
    );
}

} // verus!
