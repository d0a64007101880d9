//! An arena that hands out memory from one end and takes it back all at once.
use vstd::prelude::*;

use crate::kernel::paging::AddressMap;

verus! {

/// Size of a page.
pub const PAGE_SIZE: usize = 4096;

/// `n` rounded up to a multiple of `align`.
pub open spec fn aligned_up(n: int, align: int) -> int {
    ((n + align - 1) / align) * align
}

/// A contiguous piece of memory, of which the part below the cursor is in use.
#[derive(Debug)]
pub struct BumpArena {
    base: u64,
    capacity: usize,
    cursor: usize,
}

impl BumpArena {
    #[verifier::type_invariant]
    spec fn inside(&self) -> bool {
        &&& self.cursor <= self.capacity
        &&& self.base + self.capacity <= u64::MAX
        &&& self.base > 0
    }

    /// Where the arena starts.
    pub closed spec fn start(&self) -> int {
        self.base as int
    }

    /// How large it is.
    pub closed spec fn size(&self) -> int {
        self.capacity as int
    }

    /// How much of it is in use.
    pub closed spec fn mark(&self) -> int {
        self.cursor as int
    }

    /// An empty arena in the memory from physical address `base_pa` on. `None` if
    /// that is not mapped, or does not fit into the address space.
    pub fn from_existing(map: &AddressMap, base_pa: u64, capacity: usize) -> (arena: Option<
        BumpArena,
    >)
        requires
            map.wf(),
            map.va_of(base_pa) matches Some(v) ==> v <= u64::MAX,
            capacity % PAGE_SIZE == 0,
        ensures
            arena is Some <==> (map.va_of(base_pa) is Some && map.va_of(base_pa)->0 > 0
                && map.va_of(base_pa)->0 + capacity <= u64::MAX),
            arena matches Some(a) ==> {
                &&& a.start() == map.va_of(base_pa)->0
                &&& a.size() == capacity
                &&& a.mark() == 0
            },
    {
        let base: u64 = match map.pa_to_va(base_pa) {
            None => return None,
            Some(va) => va,
        };
        if base == 0 || capacity as u64 > u64::MAX - base {
            return None;
        }
        Some(BumpArena { base, capacity, cursor: 0 })
    }

    /// The address of `size` bytes with an alignment. `None`, and nothing changes,
    /// if the arena is too full.
    pub fn alloc_bytes(&mut self, size: usize, align: usize) -> (addr: Option<u64>)
        requires
            align > 0,
        ensures
            final(self).start() == old(self).start(),
            final(self).size() == old(self).size(),
            addr is Some <==> aligned_up(old(self).mark(), align as int) + size <= old(
                self,
            ).size(),
            addr matches Some(a) ==> {
                &&& a == old(self).start() + aligned_up(old(self).mark(), align as int)
                &&& final(self).mark() == aligned_up(old(self).mark(), align as int) + size
            },
            addr is None ==> final(self).mark() == old(self).mark(),
            old(self).mark() <= final(self).mark() <= final(self).size(),
    {
        proof {
            use_type_invariant(&*self);
            lemma_aligned_up(self.cursor as int, align as int);
        }
        let rest: usize = self.cursor % align;
        let pad: usize = if rest == 0 {
            0
        } else {
            align - rest
        };
        if pad > self.capacity - self.cursor {
            return None;
        }
        let aligned: usize = self.cursor + pad;
        if size > self.capacity - aligned {
            return None;
        }
        self.cursor = aligned + size;
        Some(self.base + aligned as u64)
    }

    /// The address of `count` contiguous pages.
    pub fn alloc_pages(&mut self, count: usize) -> (addr: Option<u64>)
        ensures
            final(self).start() == old(self).start(),
            final(self).size() == old(self).size(),
            addr is Some <==> aligned_up(old(self).mark(), PAGE_SIZE as int) + count * PAGE_SIZE
                <= old(self).size(),
            addr matches Some(a) ==> {
                &&& a == old(self).start() + aligned_up(old(self).mark(), PAGE_SIZE as int)
                &&& final(self).mark() == aligned_up(old(self).mark(), PAGE_SIZE as int) + count
                    * PAGE_SIZE
            },
            addr is None ==> final(self).mark() == old(self).mark(),
            old(self).mark() <= final(self).mark() <= final(self).size(),
    {
        proof {
            use_type_invariant(&*self);
        }
        match count.checked_mul(PAGE_SIZE) {
            None => None,
            Some(size) => self.alloc_bytes(size, PAGE_SIZE),
        }
    }

    /// Take everything back.
    pub fn reset(&mut self)
        ensures
            final(self).start() == old(self).start(),
            final(self).size() == old(self).size(),
            final(self).mark() == 0,
    {
        proof {
            use_type_invariant(&*self);
        }
        self.cursor = 0;
    }

    /// How much is in use.
    pub fn used(&self) -> (bytes: usize)
        ensures
            bytes == self.mark(),
            bytes <= self.size(),
    {
        proof {
            use_type_invariant(self);
        }
        self.cursor
    }

    /// How large the arena is.
    pub fn capacity(&self) -> (bytes: usize)
        ensures
            bytes == self.size(),
    {
        self.capacity
    }
}

/// Rounding up goes to the next multiple.
pub proof fn lemma_aligned_up(n: int, align: int)
    requires
        0 <= n,
        0 < align,
    ensures
        n <= aligned_up(n, align) < n + align,
        aligned_up(n, align) % align == 0,
        aligned_up(n, align) == if n % align == 0 {
            n
        } else {
            n + (align - n % align)
        },
{
    let q = n / align;
    let r = n % align;
    assert(n == q * align + r) by (nonlinear_arith)
        requires
            q == n / align,
            r == n % align,
            0 < align,
    ;
    assert(0 <= r < align) by (nonlinear_arith)
        requires
            r == n % align,
            0 < align,
    ;
    if r == 0 {
        assert((q * align + (align - 1)) / align == q) by (nonlinear_arith)
            requires
                0 < align,
        ;
    } else {
        assert(((q + 1) * align + (r - 1)) / align == q + 1) by (nonlinear_arith)
            requires
                0 < align,
                0 < r < align,
        ;
        assert(n + align - 1 == (q + 1) * align + (r - 1)) by (nonlinear_arith)
            requires
                n == q * align + r,
        ;
        assert((q + 1) * align == q * align + align) by (nonlinear_arith);
    }
    let k = (n + align - 1) / align;
    assert((k * align) % align == 0) by (nonlinear_arith)
        requires
            0 < align,
    ;
}

/// An arena has a non-negative part in use.
pub proof fn lemma_arena(arena: &BumpArena)
    ensures
        0 <= arena.mark(),
{
}

/// What is handed out is in the arena, aligned as asked where the arena itself is,
/// and apart from what is handed out next, until the arena is reset.
pub proof fn law_allocations_are_apart(
    start: int,
    size: int,
    mark: int,
    first: (int, int),
    second: (int, int),
)
    requires
        0 <= mark,
        0 <= first.0,
        0 < first.1,
        0 <= second.0,
        0 < second.1,
        start % first.1 == 0,
        aligned_up(aligned_up(mark, first.1) + first.0, second.1) + second.0 <= size,
    ensures
        ({
            let a = start + aligned_up(mark, first.1);
            let b = start + aligned_up(aligned_up(mark, first.1) + first.0, second.1);
            &&& start <= a
            &&& a + first.0 <= b
            &&& b + second.0 <= start + size
            &&& a % first.1 == 0
        }),
{
    lemma_aligned_up(mark, first.1);
    lemma_aligned_up(aligned_up(mark, first.1) + first.0, second.1);
    let x = aligned_up(mark, first.1);
    vstd::arithmetic::div_mod::lemma_add_mod_noop(start, x, first.1);
    vstd::arithmetic::div_mod::lemma_small_mod(0, first.1 as nat);
}

} // verus!
