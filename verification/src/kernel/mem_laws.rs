//! What an instance finds in the memory that its image declares.
use vstd::prelude::*;

use std::sync::Arc;

use crate::hash::CapHash;
use crate::kernel::caps::{DataMem, KernelImageCap, KernelMapping, KeySlotCap, Page, WireCap};
use crate::kernel::frame::CapMap;
use crate::kernel::image_mem::{
    composed, declared_cap, filled, mapping_page, mapping_source, mapping_top, mat_regions,
    pinned_region, pinned_regions,
};
use crate::kernel::runtime::{MatRange, KIND_PINNED_RO, KIND_UNPINNED_COW};

verus! {

/// Whether the first declaration for the slot is of the cap.
pub open spec fn first_declares(declared: Seq<KeySlotCap>, slot: Seq<u8>, cap: CapHash) -> bool {
    exists|n: int|
        {
            &&& 0 <= n < declared.len()
            &&& (#[trigger] declared[n]).slot@ == slot
            &&& declared[n].cap_hash == cap
            &&& forall|m: int| 0 <= m < n ==> (#[trigger] declared[m]).slot@ != slot
        }
}

/// Whether no declaration is for the slot.
pub open spec fn undeclared(declared: Seq<KeySlotCap>, slot: Seq<u8>) -> bool {
    forall|n: int| 0 <= n < declared.len() ==> (#[trigger] declared[n]).slot@ != slot
}

proof fn lemma_undeclared(declared: Seq<KeySlotCap>, slot: Seq<u8>)
    requires
        undeclared(declared, slot),
    ensures
        declared_cap(declared, slot) is None,
    decreases declared.len(),
{
    if declared.len() > 0 {
        let rest = declared.drop_first();
        assert forall|n: int| 0 <= n < rest.len() implies (#[trigger] rest[n]).slot@ != slot by {
            assert(rest[n] == declared[n + 1]);
        }
        lemma_undeclared(rest, slot);
    }
}

proof fn lemma_first_declared(declared: Seq<KeySlotCap>, slot: Seq<u8>, cap: CapHash)
    requires
        first_declares(declared, slot, cap),
    ensures
        declared_cap(declared, slot) == Some(cap),
    decreases declared.len(),
{
    let n = choose|n: int|
        {
            &&& 0 <= n < declared.len()
            &&& (#[trigger] declared[n]).slot@ == slot
            &&& declared[n].cap_hash == cap
            &&& forall|m: int| 0 <= m < n ==> (#[trigger] declared[m]).slot@ != slot
        };
    if n > 0 {
        let rest = declared.drop_first();
        assert(rest[n - 1] == declared[n]);
        assert forall|m: int| 0 <= m < n - 1 implies (#[trigger] rest[m]).slot@ != slot by {
            assert(rest[m] == declared[m + 1]);
        }
        assert(declared[0].slot@ != slot);
        lemma_first_declared(rest, slot, cap);
    }
}

/// Whether the image declares the cap for the slot: pinned, or else initial.
pub open spec fn declares(img: KernelImageCap, slot: Seq<u8>, cap: CapHash) -> bool {
    ||| first_declares(img.pinned@, slot, cap)
    ||| undeclared(img.pinned@, slot) && first_declares(img.initial@, slot, cap)
}

proof fn lemma_filled_length(
    dir: CapMap,
    img: KernelImageCap,
    data_base: int,
    n: nat,
    backing: Seq<Option<Arc<Page>>>,
)
    ensures
        filled(dir, img, data_base, n, backing).len() == backing.len(),
    decreases n,
{
    if n > 0 {
        lemma_filled_length(dir, img, data_base, (n - 1) as nat, backing);
    }
}

proof fn lemma_filled_page(
    dir: CapMap,
    img: KernelImageCap,
    data_base: int,
    n: nat,
    backing: Seq<Option<Arc<Page>>>,
    j: int,
    d: DataMem,
    q: int,
)
    requires
        0 <= j < n <= img.mappings@.len(),
        crate::kernel::image_mem::data_at(dir, mapping_source(img, img.mappings@[j])) == Some(d),
        mapping_page(img.mappings@[j], data_base) <= q < mapping_page(
            img.mappings@[j],
            data_base,
        ) + d.backing@.len(),
        0 <= q < backing.len(),
        forall|k: int|
            j < k < n ==> (#[trigger] img.mappings@[k]).source is None || q < mapping_page(
                img.mappings@[k],
                data_base,
            ),
    ensures
        filled(dir, img, data_base, n, backing)[q] == d.page(
            q - mapping_page(img.mappings@[j], data_base),
        ),
    decreases n,
{
    lemma_filled_length(dir, img, data_base, (n - 1) as nat, backing);
    if j < n - 1 {
        lemma_filled_page(dir, img, data_base, (n - 1) as nat, backing, j, d, q);
        assert(img.mappings@[n - 1].source is None || q < mapping_page(
            img.mappings@[n - 1],
            data_base,
        ));
    }
}

proof fn lemma_unfilled_page(
    dir: CapMap,
    img: KernelImageCap,
    data_base: int,
    n: nat,
    backing: Seq<Option<Arc<Page>>>,
    q: int,
)
    requires
        n <= img.mappings@.len(),
        0 <= q < backing.len(),
        forall|k: int|
            0 <= k < n ==> (#[trigger] img.mappings@[k]).source is None || q < mapping_page(
                img.mappings@[k],
                data_base,
            ),
    ensures
        filled(dir, img, data_base, n, backing)[q] == backing[q],
    decreases n,
{
    if n > 0 {
        lemma_filled_length(dir, img, data_base, (n - 1) as nat, backing);
        lemma_unfilled_page(dir, img, data_base, (n - 1) as nat, backing, q);
        assert(img.mappings@[n - 1].source is None || q < mapping_page(
            img.mappings@[n - 1],
            data_base,
        ));
    }
}

/// A mapping shows the data that its image declares for its source, whether as a
/// pinned or as an initial cap: from the page of the mapping on, the memory that an
/// instance starts with has the pages of this data, as far as it reaches, unless a
/// later mapping with a source starts there.
pub proof fn law_mapping_shows_its_source(
    dir: CapMap,
    img: KernelImageCap,
    data_base: u32,
    mem: DataMem,
    j: int,
    cap: CapHash,
    d: DataMem,
    i: int,
)
    requires
        mem.overlay@.len() == 0,
        mem.backing@ == composed(dir, img, data_base as int),
        0 <= j < img.mappings@.len(),
        img.mappings@[j].source is Some,
        declares(img, img.mappings@[j].source->0@, cap),
        dir.contains_key(cap),
        *dir[cap] == WireCap::Data(d),
        img.mappings@[j].start >= data_base,
        0 <= i < d.backing@.len(),
        (img.mappings@[j].start - data_base) / 4096 + i < mem.backing@.len(),
        forall|k: int|
            j < k < img.mappings@.len() ==> (#[trigger] img.mappings@[k]).source is None || (
            img.mappings@[k].start - data_base) / 4096 > (img.mappings@[j].start - data_base) / 4096
                + i,
    ensures
        mem.page((img.mappings@[j].start - data_base) / 4096 + i) == d.page(i),
        forall|o: int|
            0 <= o < 4096 ==> mem.byte(
                (img.mappings@[j].start - data_base) / 4096 * 4096 + i * 4096 + o,
            ) == #[trigger] d.byte(i * 4096 + o),
{
    let m = img.mappings@[j];
    let slot = m.source->0@;
    if first_declares(img.pinned@, slot, cap) {
        lemma_first_declared(img.pinned@, slot, cap);
    } else {
        lemma_undeclared(img.pinned@, slot);
        lemma_first_declared(img.initial@, slot, cap);
    }
    let top = mapping_top(img.mappings@, data_base as int);
    let bytes = if top >= data_base {
        top - data_base
    } else {
        0
    };
    let none = Seq::new(
        crate::kernel::caps::pages_for(bytes) as nat,
        |x: int| None::<Arc<Page>>,
    );
    let at = (m.start - data_base) / 4096;
    lemma_filled_length(dir, img, data_base as int, img.mappings@.len(), none);
    lemma_filled_page(dir, img, data_base as int, img.mappings@.len(), none, j, d, at + i);
    assert(mem.backing@[at + i] == d.page(i));
    assert(mem.page(at + i) == d.page(i));
    assert forall|o: int| 0 <= o < 4096 implies mem.byte(at * 4096 + i * 4096 + o)
        == #[trigger] d.byte(i * 4096 + o) by {
        assert((at * 4096 + i * 4096 + o) / 4096 == at + i);
        assert((i * 4096 + o) / 4096 == i);
        assert((at * 4096 + i * 4096 + o) % 4096 == o);
        assert((i * 4096 + o) % 4096 == o);
    }
}

/// Where no mapping with a source reaches, an instance starts with zeros.
pub proof fn law_memory_without_source_is_zero(
    dir: CapMap,
    img: KernelImageCap,
    data_base: u32,
    mem: DataMem,
    o: int,
)
    requires
        mem.overlay@.len() == 0,
        mem.backing@ == composed(dir, img, data_base as int),
        0 <= o,
        forall|k: int|
            0 <= k < img.mappings@.len() ==> (#[trigger] img.mappings@[k]).source is None || (
            img.mappings@[k].start - data_base) / 4096 > o / 4096,
    ensures
        mem.byte(o) == 0,
{
    let top = mapping_top(img.mappings@, data_base as int);
    let bytes = if top >= data_base {
        top - data_base
    } else {
        0
    };
    let none = Seq::new(
        crate::kernel::caps::pages_for(bytes) as nat,
        |x: int| None::<Arc<Page>>,
    );
    lemma_filled_length(dir, img, data_base as int, img.mappings@.len(), none);
    if o / 4096 < none.len() {
        lemma_unfilled_page(dir, img, data_base as int, img.mappings@.len(), none, o / 4096);
    }
}

proof fn lemma_top(mappings: Seq<KernelMapping>, data_base: int, k: int)
    requires
        0 <= k < mappings.len(),
        forall|q: int|
            0 <= q < mappings.len() ==> (#[trigger] mappings[q]).start + mappings[q].size
                <= u64::MAX,
    ensures
        mapping_top(mappings, data_base) >= mappings[k].start + mappings[k].size,
        exists|q: int|
            0 <= q < mappings.len() && mapping_top(mappings, data_base) == (
            #[trigger] mappings[q]).start + mappings[q].size,
    decreases mappings.len(),
{
    assert(mappings.last() == mappings[mappings.len() - 1]);
    if mappings.len() > 1 {
        let rest = mappings.drop_last();
        assert forall|q: int| 0 <= q < rest.len() implies (#[trigger] rest[q]).start + rest[q].size
            <= u64::MAX by {
            assert(rest[q] == mappings[q]);
        }
        let at = if k < rest.len() {
            k
        } else {
            0
        };
        lemma_top(rest, data_base, at);
        assert(rest[at] == mappings[at]);
        let q = choose|q: int|
            0 <= q < rest.len() && mapping_top(rest, data_base) == (#[trigger] rest[q]).start
                + rest[q].size;
        assert(mappings[q] == rest[q]);
    }
}

/// The memory of an instance reaches to the end of every mapping, and stops at the
/// first whole page after the end of one of them.
pub proof fn law_memory_covers_the_mappings(
    dir: CapMap,
    img: KernelImageCap,
    data_base: u32,
    mem: DataMem,
    k: int,
)
    requires
        mem.backing@ == composed(dir, img, data_base as int),
        0 <= k < img.mappings@.len(),
        forall|q: int|
            0 <= q < img.mappings@.len() ==> (#[trigger] img.mappings@[q]).start
                + img.mappings@[q].size <= u64::MAX && img.mappings@[q].start >= data_base,
    ensures
        mem.backing@.len() * 4096 >= img.mappings@[k].start + img.mappings@[k].size - data_base,
        exists|q: int|
            0 <= q < img.mappings@.len() && mem.backing@.len() * 4096 < (
            #[trigger] img.mappings@[q]).start + img.mappings@[q].size - data_base + 4096,
{
    let top = mapping_top(img.mappings@, data_base as int);
    lemma_top(img.mappings@, data_base as int, k);
    let none = Seq::new(
        crate::kernel::caps::pages_for(top - data_base) as nat,
        |x: int| None::<Arc<Page>>,
    );
    lemma_filled_length(dir, img, data_base as int, img.mappings@.len(), none);
    assert(mem.backing@.len() == none.len());
}

proof fn lemma_pinned_regions(mappings: Seq<KernelMapping>, k: int)
    requires
        0 <= k < mappings.len(),
        pinned_region(mappings[k]) is Some,
    ensures
        exists|x: int|
            0 <= x < pinned_regions(mappings).len() && #[trigger] pinned_regions(mappings)[x]
                == pinned_region(mappings[k])->0,
    decreases mappings.len(),
{
    let rest = mappings.drop_last();
    let all = pinned_regions(mappings);
    if k == mappings.len() - 1 {
        assert(all[all.len() - 1] == pinned_region(mappings[k])->0);
    } else {
        assert(rest[k] == mappings[k]);
        lemma_pinned_regions(rest, k);
        let x = choose|x: int|
            0 <= x < pinned_regions(rest).len() && #[trigger] pinned_regions(rest)[x]
                == pinned_region(rest[k])->0;
        assert(all[x] == pinned_regions(rest)[x]);
    }
}

proof fn lemma_regions_are_pinned(mappings: Seq<KernelMapping>, x: int)
    requires
        0 <= x < pinned_regions(mappings).len(),
    ensures
        exists|k: int|
            0 <= k < mappings.len() && pinned_region(#[trigger] mappings[k]) == Some(
                pinned_regions(mappings)[x],
            ),
    decreases mappings.len(),
{
    if mappings.len() > 0 {
        let rest = mappings.drop_last();
        if x < pinned_regions(rest).len() {
            lemma_regions_are_pinned(rest, x);
            let k = choose|k: int|
                0 <= k < rest.len() && pinned_region(#[trigger] rest[k]) == Some(
                    pinned_regions(rest)[x],
                );
            assert(mappings[k] == rest[k]);
        } else {
            assert(pinned_region(mappings[mappings.len() - 1]) == Some(
                pinned_regions(mappings)[x],
            ));
        }
    }
}

/// A pinned mapping with a source is a read-only region of its own that covers the
/// mapping in whole pages.
pub proof fn law_pinned_mapping_is_read_only(
    mappings: Seq<KernelMapping>,
    data_base: u32,
    pages: nat,
    k: int,
)
    requires
        0 <= k < mappings.len(),
        mappings[k].source is Some,
        mappings[k].pinned,
        mappings[k].size > 0,
        mappings[k].start + mappings[k].size + 4096 <= u32::MAX,
    ensures
        exists|x: int|
            {
                &&& 0 <= x < mat_regions(mappings, data_base, pages).len()
                &&& (#[trigger] mat_regions(mappings, data_base, pages)[x]).kind == KIND_PINNED_RO
                &&& mat_regions(mappings, data_base, pages)[x].start == mappings[k].start
                &&& mappings[k].start + mappings[k].size <= mat_regions(
                    mappings,
                    data_base,
                    pages,
                )[x].end < mappings[k].start + mappings[k].size + 4096
            },
{
    let m = mappings[k];
    assert(m.size as u32 == m.size);
    assert(m.start as u32 == m.start);
    lemma_pinned_regions(mappings, k);
    let x = choose|x: int|
        0 <= x < pinned_regions(mappings).len() && #[trigger] pinned_regions(mappings)[x]
            == pinned_region(mappings[k])->0;
    assert(mat_regions(mappings, data_base, pages)[x] == pinned_regions(mappings)[x]);
}

/// Nothing else is read-only: the one other region is the whole data extent, which is
/// copied on write, and it comes last.
pub proof fn law_data_extent_is_copied_on_write(
    mappings: Seq<KernelMapping>,
    data_base: u32,
    pages: nat,
    x: int,
)
    requires
        pages > 0,
        data_base + pages * 4096 <= u32::MAX,
        0 <= x < mat_regions(mappings, data_base, pages).len(),
    ensures
        mat_regions(mappings, data_base, pages).last() == (MatRange {
            start: data_base,
            end: (data_base + pages * 4096) as u32,
            kind: KIND_UNPINNED_COW,
        }),
        x < mat_regions(mappings, data_base, pages).len() - 1 ==> {
            let region = mat_regions(mappings, data_base, pages)[x];
            &&& region.kind == KIND_PINNED_RO
            &&& exists|k: int|
                {
                    &&& 0 <= k < mappings.len()
                    &&& (#[trigger] mappings[k]).pinned
                    &&& mappings[k].source is Some
                    &&& mappings[k].start as u32 == region.start
                }
        },
{
    assert((pages * 4096) as u32 == pages * 4096);
    if x < mat_regions(mappings, data_base, pages).len() - 1 {
        lemma_regions_are_pinned(mappings, x);
    }
}

/// A page that was written shows what was written last; where nothing was written the
/// memory shows what it was made with.
pub proof fn law_last_write_shows(before: DataMem, after: DataMem, i: u32, p: Arc<Page>, o: int)
    requires
        after.backing@ == before.backing@,
        after.overlay@ == before.overlay@.push((i, p)),
        0 <= o,
    ensures
        after.page(i as int) == Some(p),
        o != i ==> after.page(o) == before.page(o),
        before.overlay@.len() == 0 && o < before.backing@.len() ==> before.page(o)
            == before.backing@[o],
        o / 4096 == i && o % 4096 < p.bytes@.len() ==> after.byte(o) == p.bytes@[o % 4096],
        o / 4096 != i ==> after.byte(o) == before.byte(o),
{
    assert(after.overlay@.drop_last() =~= before.overlay@);
}

} // verus!
