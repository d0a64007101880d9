//! The memory that an instance of an image starts with.
use vstd::prelude::*;

use std::sync::Arc;

use crate::hash::CapHash;
use crate::kernel::caps::{
    pages_for, DataMem, KernelDirectory, KernelImageCap, KernelMapping, KeySlotCap, Page, WireCap,
    PAGE_BYTES,
};
use crate::kernel::frame::CapMap;
use crate::kernel::key::Key;
use crate::kernel::runtime::{MatRange, KIND_PINNED_RO, KIND_UNPINNED_COW};
use crate::table::{HashTable, TableKey};

verus! {

/// End of a mapping, at most the end of the address space.
pub open spec fn mapping_end(m: KernelMapping) -> int {
    if m.start + m.size <= u64::MAX {
        m.start + m.size
    } else {
        u64::MAX as int
    }
}

/// End of the last mapping; `data_base` without mappings.
pub open spec fn mapping_top(mappings: Seq<KernelMapping>, data_base: int) -> int
    decreases mappings.len(),
{
    if mappings.len() == 0 {
        data_base
    } else if mappings.len() == 1 {
        mapping_end(mappings[0])
    } else {
        let before = mapping_top(mappings.drop_last(), data_base);
        let last = mapping_end(mappings.last());
        if before >= last {
            before
        } else {
            last
        }
    }
}

/// The cap that an image declares first for a slot.
pub open spec fn declared_cap(declared: Seq<KeySlotCap>, slot: Seq<u8>) -> Option<CapHash>
    decreases declared.len(),
{
    if declared.len() == 0 {
        None
    } else if declared[0].slot@ == slot {
        Some(declared[0].cap_hash)
    } else {
        declared_cap(declared.drop_first(), slot)
    }
}

/// The cap that a mapping is filled from: what the image declares for its source,
/// pinned before initial.
pub open spec fn mapping_source(img: KernelImageCap, m: KernelMapping) -> Option<CapHash> {
    match m.source {
        Some(slot) => match declared_cap(img.pinned@, slot@) {
            Some(h) => Some(h),
            None => declared_cap(img.initial@, slot@),
        },
        None => None,
    }
}

/// The published data under a hash.
pub open spec fn data_at(dir: CapMap, hash: Option<CapHash>) -> Option<DataMem> {
    match hash {
        Some(h) => if dir.contains_key(h) {
            match *dir[h] {
                WireCap::Data(d) => Some(d),
                _ => None,
            }
        } else {
            None
        },
        None => None,
    }
}

/// The pages with those of `src` from page `at` on.
pub open spec fn placed(
    backing: Seq<Option<Arc<Page>>>,
    at: int,
    src: DataMem,
) -> Seq<Option<Arc<Page>>> {
    Seq::new(
        backing.len(),
        |i: int|
            if at <= i < at + src.backing@.len() {
                src.page(i - at)
            } else {
                backing[i]
            },
    )
}

/// First page of a mapping in the data extent.
pub open spec fn mapping_page(m: KernelMapping, data_base: int) -> int {
    if m.start >= data_base {
        (m.start - data_base) / PAGE_BYTES as int
    } else {
        0
    }
}

/// The pages after the first `n` mappings were filled.
pub open spec fn filled(
    dir: CapMap,
    img: KernelImageCap,
    data_base: int,
    n: nat,
    backing: Seq<Option<Arc<Page>>>,
) -> Seq<Option<Arc<Page>>>
    decreases n,
{
    if n == 0 {
        backing
    } else {
        let before = filled(dir, img, data_base, (n - 1) as nat, backing);
        let m = img.mappings@[n - 1];
        match data_at(dir, mapping_source(img, m)) {
            Some(src) => placed(before, mapping_page(m, data_base), src),
            None => before,
        }
    }
}

/// The pages that an instance of an image starts with.
pub open spec fn composed(dir: CapMap, img: KernelImageCap, data_base: int) -> Seq<
    Option<Arc<Page>>,
> {
    let top = mapping_top(img.mappings@, data_base);
    let bytes = if top >= data_base {
        top - data_base
    } else {
        0
    };
    filled(
        dir,
        img,
        data_base,
        img.mappings@.len(),
        Seq::new(pages_for(bytes) as nat, |i: int| None::<Arc<Page>>),
    )
}

fn find_declared(declared: &Vec<KeySlotCap>, slot: &Key) -> (found: Option<CapHash>)
    ensures
        found == declared_cap(declared@, slot@),
{
    let mut i: usize = 0;
    assert(declared@.skip(0) =~= declared@);
    while i < declared.len()
        invariant
            i <= declared@.len(),
            declared_cap(declared@, slot@) == declared_cap(declared@.skip(i as int), slot@),
        decreases declared@.len() - i,
    {
        assert(declared@.skip(i as int).drop_first() =~= declared@.skip(i + 1));
        if declared[i].slot.same(slot) {
            return Some(declared[i].cap_hash);
        }
        i = i + 1;
    }
    None
}

fn source_of(img: &KernelImageCap, m: &KernelMapping) -> (source: Option<CapHash>)
    ensures
        source == mapping_source(*img, *m),
{
    match &m.source {
        Some(slot) => match find_declared(&img.pinned, slot) {
            Some(h) => Some(h),
            None => find_declared(&img.initial, slot),
        },
        None => None,
    }
}

/// Share the pages of `src` from page `at` on.
fn place_shared(mem: &mut DataMem, at: u64, src: &DataMem)
    ensures
        final(mem).overlay@ == old(mem).overlay@,
        final(mem).backing@ == placed(old(mem).backing@, at as int, *src),
{
    let ghost before = mem.backing@;
    let mut i: usize = 0;
    while i < mem.backing.len()
        invariant
            i <= mem.backing@.len(),
            mem.backing@.len() == before.len(),
            mem.overlay@ == old(mem).overlay@,
            forall|j: int| i <= j < before.len() ==> mem.backing@[j] == before[j],
            forall|j: int|
                0 <= j < i ==> #[trigger] mem.backing@[j] == placed(before, at as int, *src)[j],
        decreases mem.backing@.len() - i,
    {
        let len: usize = src.backing.len();
        if i as u64 >= at && (i as u64 - at) < len as u64 {
            let offset: usize = (i as u64 - at) as usize;
            let page = src.page_at(offset);
            mem.backing.set(i, page);
        }
        i = i + 1;
    }
    assert(mem.backing@ =~= placed(before, at as int, *src));
}

/// The memory that an instance of an image starts with: zeros up to the end of the
/// last mapping, with the pages of each mapping's source shared.
pub fn compose_instance_mem(dir: &KernelDirectory, img: &KernelImageCap, data_base: u32) -> (mem:
    DataMem)
    ensures
        mem.overlay@ == Seq::<(u32, Arc<Page>)>::empty(),
        mem.backing@ == composed(dir@, *img, data_base as int),
{
    let base: u64 = data_base as u64;
    let mut top: u64 = base;
    let mut i: usize = 0;
    assert(img.mappings@.take(0) =~= Seq::<KernelMapping>::empty());
    while i < img.mappings.len()
        invariant
            i <= img.mappings@.len(),
            base == data_base,
            top == mapping_top(img.mappings@.take(i as int), base as int),
        decreases img.mappings@.len() - i,
    {
        let m = &img.mappings[i];
        let end: u64 = if m.size <= u64::MAX - m.start {
            m.start + m.size
        } else {
            u64::MAX
        };
        if i == 0 || end > top {
            top = end;
        }
        assert(img.mappings@.take(i + 1).drop_last() =~= img.mappings@.take(i as int));
        i = i + 1;
    }
    assert(img.mappings@.take(i as int) =~= img.mappings@);
    let bytes: u64 = if top >= base {
        top - base
    } else {
        0
    };
    let mut mem = DataMem::zeroed(bytes);
    let ghost zeros = mem.backing@;
    let mut j: usize = 0;
    while j < img.mappings.len()
        invariant
            j <= img.mappings@.len(),
            base == data_base,
            mem.overlay@ == Seq::<(u32, Arc<Page>)>::empty(),
            mem.backing@ == filled(dir@, *img, base as int, j as nat, zeros),
        decreases img.mappings@.len() - j,
    {
        let m = &img.mappings[j];
        let at: u64 = if m.start >= base {
            (m.start - base) / PAGE_BYTES
        } else {
            0
        };
        if let Some(h) = source_of(img, m) {
            if let Some(cap) = dir.get(&h) {
                if let WireCap::Data(d) = &**cap {
                    place_shared(&mut mem, at, d);
                }
            }
        }
        j = j + 1;
    }
    mem
}

/// The memories that instances of images start with, by image.
pub type MemCache = HashTable<DataMem>;

/// Forget every memory that was composed.
pub fn evict_mem_cache(cache: &mut MemCache)
    ensures
        final(cache)@ == Map::<CapHash, DataMem>::empty(),
{
    cache.clear();
}

/// The memory for a new instance of an image. It is composed once; from then on
/// each instance shares its pages.
pub fn build_instance_mem(
    dir: &KernelDirectory,
    cache: &mut MemCache,
    image_hash: &CapHash,
    img: &KernelImageCap,
    data_base: u32,
) -> (mem: DataMem)
    ensures
        old(cache)@.contains_key(*image_hash) ==> mem.same_as(&old(cache)@[*image_hash]) && final(
            cache)@ == old(cache)@,
        !old(cache)@.contains_key(*image_hash) ==> {
            &&& mem.overlay@ == Seq::<(u32, Arc<Page>)>::empty()
            &&& mem.backing@ == composed(dir@, *img, data_base as int)
            &&& final(cache)@.contains_key(*image_hash)
            &&& final(cache)@ == old(cache)@.insert(*image_hash, final(cache)@[*image_hash])
            &&& final(cache)@[*image_hash].same_as(&mem)
        },
{
    if let Some(clean) = cache.get(image_hash) {
        return clean.duplicate();
    }
    let mem = compose_instance_mem(dir, img, data_base);
    let kept = mem.duplicate();
    cache.insert(*image_hash, kept);
    mem
}

/// The regions of a frame's memory: the pinned mappings first, so that they take
/// precedence, then the whole extent.
pub open spec fn mat_regions(mappings: Seq<KernelMapping>, data_base: u32, pages: nat) -> Seq<
    MatRange,
> {
    let pinned = pinned_regions(mappings);
    let extent = (pages * PAGE_BYTES) as u32;
    if extent >= PAGE_BYTES {
        pinned.push(
            MatRange {
                start: data_base,
                end: saturated(data_base + extent),
                kind: KIND_UNPINNED_COW,
            },
        )
    } else {
        pinned
    }
}

/// A 32-bit address, at most the last.
pub open spec fn saturated(va: int) -> u32 {
    if va <= u32::MAX {
        va as u32
    } else {
        u32::MAX
    }
}

/// The region of a pinned mapping, if it is one and not empty.
pub open spec fn pinned_region(m: KernelMapping) -> Option<MatRange> {
    let span = crate::kernel::runtime::page_rounded((m.size as u32) as int);
    if m.source is Some && m.pinned && span > 0 {
        Some(
            MatRange {
                start: m.start as u32,
                end: saturated((m.start as u32) + span),
                kind: KIND_PINNED_RO,
            },
        )
    } else {
        None
    }
}

/// The regions of the pinned mappings in order.
pub open spec fn pinned_regions(mappings: Seq<KernelMapping>) -> Seq<MatRange>
    decreases mappings.len(),
{
    if mappings.len() == 0 {
        Seq::empty()
    } else {
        let before = pinned_regions(mappings.drop_last());
        match pinned_region(mappings.last()) {
            Some(r) => before.push(r),
            None => before,
        }
    }
}

fn saturate(va: u64) -> (end: u32)
    ensures
        end == saturated(va as int),
{
    if va <= u32::MAX as u64 {
        va as u32
    } else {
        u32::MAX
    }
}

/// The regions that a frame with memory `mem` materializes from.
pub fn build_mat_ranges(img: &KernelImageCap, mem: &DataMem, data_base: u32) -> (ranges: Vec<
    MatRange,
>)
    requires
        mem.backing@.len() * PAGE_BYTES <= u64::MAX,
    ensures
        ranges@ == mat_regions(img.mappings@, data_base, mem.backing@.len()),
{
    let mut ranges: Vec<MatRange> = Vec::new();
    let mut i: usize = 0;
    assert(img.mappings@.take(0) =~= Seq::<KernelMapping>::empty());
    while i < img.mappings.len()
        invariant
            i <= img.mappings@.len(),
            ranges@ == pinned_regions(img.mappings@.take(i as int)),
        decreases img.mappings@.len() - i,
    {
        let m = &img.mappings[i];
        let size: u64 = (m.size as u32) as u64;
        let span: u64 = ((size + (PAGE_BYTES - 1)) / PAGE_BYTES) * PAGE_BYTES;
        if m.source.is_some() && m.pinned && span > 0 {
            let start: u32 = m.start as u32;
            ranges.push(
                MatRange { start, end: saturate(start as u64 + span), kind: KIND_PINNED_RO },
            );
        }
        assert(img.mappings@.take(i + 1).drop_last() =~= img.mappings@.take(i as int));
        i = i + 1;
    }
    assert(img.mappings@.take(i as int) =~= img.mappings@);
    let pages: u64 = mem.backing.len() as u64;
    let extent: u32 = (pages * PAGE_BYTES) as u32;
    if extent as u64 >= PAGE_BYTES {
        ranges.push(
            MatRange {
                start: data_base,
                end: saturate(data_base as u64 + extent as u64),
                kind: KIND_UNPINNED_COW,
            },
        );
    }
    ranges
}

} // verus!
