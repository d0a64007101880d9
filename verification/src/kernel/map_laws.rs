//! Where what is mapped is found.
use vstd::prelude::*;

use crate::kernel::paging::{
    leaf_entry, mapped_leaf, page_number, with_w, AddressMap, PageTable, Perm,
};

verus! {

proof fn lemma_page_of(v: u64)
    requires
        v < 0x1_0000_0000_0000,
    ensures
        page_number(v) == v / 4096,
{
    assert(v < 0x1_0000_0000_0000 ==> ((v >> 12) & 0xF_FFFF_FFFF) == v / 4096) by (bit_vector);
}

proof fn lemma_mapped_inside(
    before: Option<u64>,
    v: u64,
    virt: u64,
    phys: u64,
    n: nat,
    perm: Perm,
    k: nat,
)
    requires
        virt % 4096 == 0,
        virt + n * 4096 <= 0x1_0000_0000_0000,
        phys + n * 4096 <= u64::MAX,
        k < n,
        virt + k * 4096 <= v < virt + k * 4096 + 4096,
    ensures
        mapped_leaf(before, v, virt, phys, n, perm) == Some(
            leaf_entry((phys + k * 4096) as u64, perm),
        ),
    decreases n,
{
    let last = (virt + (n - 1) * 4096) as u64;
    lemma_page_of(v);
    lemma_page_of(last);
    assert(last == virt + (n - 1) * 4096);
    assert(v / 4096 == virt / 4096 + k);
    assert(last / 4096 == virt / 4096 + (n - 1));
    if k < n - 1 {
        lemma_mapped_inside(before, v, virt, phys, (n - 1) as nat, perm, k);
    }
}

proof fn lemma_mapped_outside(
    before: Option<u64>,
    v: u64,
    virt: u64,
    phys: u64,
    n: nat,
    perm: Perm,
)
    requires
        virt % 4096 == 0,
        virt + n * 4096 <= 0x1_0000_0000_0000,
        v < 0x1_0000_0000_0000,
        !(virt <= v < virt + n * 4096),
    ensures
        mapped_leaf(before, v, virt, phys, n, perm) == before,
    decreases n,
{
    if n > 0 {
        let last = (virt + (n - 1) * 4096) as u64;
        lemma_page_of(v);
        lemma_page_of(last);
        assert(last == virt + (n - 1) * 4096);
        assert(last / 4096 == virt / 4096 + (n - 1));
        assert(v / 4096 != last / 4096);
        lemma_mapped_outside(before, v, virt, phys, (n - 1) as nat, perm);
    }
}

/// Pages that are mapped are found: each address in them leads to the physical page at
/// the same distance, with the permission given. Every other address leads where it led.
pub proof fn law_mapped_pages_are_found(
    before: PageTable,
    after: PageTable,
    virt: u64,
    phys: u64,
    n: nat,
    perm: Perm,
    v: u64,
)
    requires
        before.mapped_up_to(&after, virt, phys, n, perm),
        virt % 4096 == 0,
        virt + n * 4096 <= 0x1_0000_0000_0000,
        phys + n * 4096 <= u64::MAX,
        v < 0x1_0000_0000_0000,
    ensures
        virt <= v < virt + n * 4096 ==> after.leaf(v) == Some(
            leaf_entry((phys + (v - virt) / 4096 * 4096) as u64, perm),
        ),
        !(virt <= v < virt + n * 4096) ==> after.leaf(v) == before.leaf(v),
{
    if virt <= v < virt + n * 4096 {
        let k = (v - virt) / 4096;
        lemma_mapped_inside(before.leaf(v), v, virt, phys, n, perm, k as nat);
    } else {
        lemma_mapped_outside(before.leaf(v), v, virt, phys, n, perm);
    }
}

/// Addresses of one region keep their distance when they are translated.
pub proof fn law_translation_keeps_distances(map: AddressMap, va: u64, d: u64)
    requires
        va + d <= u64::MAX,
        map.pa_of(va) is Some,
        va >= map.scratch_gva || va + d < map.scratch_gva,
    ensures
        map.pa_of((va + d) as u64) == Some(map.pa_of(va)->0 + d),
        map.pa_of(map.scratch_gva) == Some(map.scratch_gpa as int),
        map.kernel_base < map.scratch_gva ==> map.pa_of(map.kernel_base) == Some(
            crate::kernel::paging::KERNEL_BASE_GPA as int,
        ),
{
}

/// Giving or taking the write permission changes that bit of an entry and no other.
pub proof fn law_write_permission_is_one_bit(entry: u64)
    ensures
        with_w(entry, true) & 2 == 2,
        with_w(entry, false) & 2 == 0,
        with_w(entry, true) | 2 == entry | 2,
        with_w(entry, false) | 2 == entry | 2,
{
    assert((entry | 2u64) & 2 == 2 && (entry & !2u64) & 2 == 0 && (entry | 2u64) | 2 == entry | 2
        && (entry & !2u64) | 2 == entry | 2) by (bit_vector);
}

} // verus!
