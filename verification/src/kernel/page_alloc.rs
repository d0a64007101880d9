//! Buffers of whole pages that can be mapped.
use vstd::prelude::*;

use crate::kernel::jit_cache::{page_round_up_min1, rounded_min1};
use crate::kernel::paging::{law_translations_are_inverse, AddressMap};

verus! {

/// Zeroed whole pages at a kernel address.
#[derive(Debug)]
pub struct PageBuf {
    pub kva: u64,
    pub bytes: Vec<u8>,
}

impl PageBuf {
    /// A buffer begins where a page begins, and is made of whole pages.
    pub open spec fn wf(&self) -> bool {
        &&& self.kva % 4096 == 0
        &&& self.bytes@.len() >= 4096
        &&& self.bytes@.len() % 4096 == 0
    }

    /// `size` bytes, rounded up to whole pages and at least one, at `kva`, where a page
    /// begins. `None` if that is more than a buffer can hold.
    pub fn new(kva: u64, size: usize) -> (buf: Option<PageBuf>)
        requires
            kva % 4096 == 0,
        ensures
            buf is Some <==> rounded_min1(size as int) <= isize::MAX,
            buf matches Some(b) ==> {
                &&& b.wf()
                &&& b.kva == kva
                &&& b.bytes@ == Seq::new(rounded_min1(size as int) as nat, |i: int| 0u8)
            },
    {
        if size > isize::MAX as usize - 4095 {
            let whole: usize = isize::MAX as usize - (isize::MAX as usize) % 4096;
            if size > whole {
                assert(rounded_min1(size as int) > isize::MAX);
                return None;
            }
        }
        let rounded: usize = page_round_up_min1(size);
        let mut bytes: Vec<u8> = Vec::new();
        while bytes.len() < rounded
            invariant
                bytes@.len() <= rounded,
                bytes@ == Seq::new(bytes@.len(), |i: int| 0u8),
            decreases rounded - bytes@.len(),
        {
            bytes.push(0);
            assert(bytes@ =~= Seq::new(bytes@.len(), |i: int| 0u8));
        }
        Some(PageBuf { kva, bytes })
    }

    /// The kernel address.
    pub fn kva(&self) -> (va: u64)
        ensures
            va == self.kva,
    {
        self.kva
    }

    /// The physical address.
    pub fn pa(&self, map: &AddressMap) -> (pa: u64)
        requires
            map.wf(),
            map.pa_of(self.kva) is Some,
        ensures
            pa == map.pa_of(self.kva)->0,
    {
        match map.va_to_pa(self.kva) {
            Some(pa) => pa,
            None => vstd::pervasive::unreached(),
        }
    }

    /// How many bytes there are.
    pub fn size(&self) -> (bytes: u64)
        ensures
            bytes == self.bytes@.len(),
    {
        let n: usize = self.bytes.len();
        n as u64
    }
}

/// A buffer in the kernel's half has a physical address, at which a page begins. Where
/// that address is its own, it leads back to the buffer.
pub proof fn law_page_buffer_translates_back(buf: PageBuf, map: AddressMap)
    requires
        buf.wf(),
        map.wf(),
        map.page_aligned(),
    ensures
        map.pa_of(buf.kva) is Some <==> buf.kva >= map.kernel_base,
        map.pa_of(buf.kva) matches Some(pa) ==> {
            &&& 0 <= pa <= u64::MAX
            &&& pa % 4096 == 0
            &&& map.has_own(buf.kva) ==> map.va_of(pa as u64) == Some(buf.kva as int)
        },
{
    if map.has_own(buf.kva) {
        law_translations_are_inverse(map, buf.kva);
    }
}

} // verus!
