//! Guest memory: mapped regions with access rights.
use vstd::prelude::*;

use crate::cap::PAGE_SIZE;
use crate::error::MapError;

verus! {

/// End of the guest address space.
pub const ADDRESS_LIMIT: u64 = 0x1_0000_0000;

/// Rights on a mapped byte.
#[derive(Clone, Copy, Debug, PartialEq, Eq, Structural)]
pub enum Access {
    ReadOnly,
    ReadWrite,
}

/// An access to an address that is not mapped with the rights it needs.
#[derive(Clone, Copy, Debug, PartialEq, Eq, Structural)]
pub struct MemFault;

#[derive(Debug)]
struct Region {
    start: u64,
    access: Access,
    bytes: Vec<u8>,
}

/// Guest memory. Where regions overlap, the one mapped last counts.
#[derive(Debug)]
pub struct Mem {
    regions: Vec<Region>,
}

/// A mapped byte with its rights.
pub struct Cell {
    pub access: Access,
    pub byte: u8,
}

spec fn covers(r: Region, addr: int) -> bool {
    r.start <= addr < r.start + r.bytes@.len()
}

spec fn lookup(regions: Seq<Region>, addr: int) -> Option<Cell>
    decreases regions.len(),
{
    if regions.len() == 0 {
        None
    } else if covers(regions.last(), addr) {
        Some(
            Cell {
                access: regions.last().access,
                byte: regions.last().bytes@[addr - regions.last().start],
            },
        )
    } else {
        lookup(regions.drop_last(), addr)
    }
}

/// The newest region over `addr` decides what is there.
proof fn lemma_lookup_newest(regions: Seq<Region>, addr: int, r: int)
    requires
        0 <= r < regions.len(),
        covers(regions[r], addr),
        forall|j: int| r < j < regions.len() ==> !covers(#[trigger] regions[j], addr),
    ensures
        lookup(regions, addr) == Some(
            Cell { access: regions[r].access, byte: regions[r].bytes@[addr - regions[r].start] },
        ),
    decreases regions.len(),
{
    if r < regions.len() - 1 {
        assert(!covers(regions[regions.len() - 1], addr));
        assert forall|j: int| r < j < regions.drop_last().len() implies !covers(
            #[trigger] regions.drop_last()[j],
            addr,
        ) by {
            assert(regions.drop_last()[j] == regions[j]);
        }
        lemma_lookup_newest(regions.drop_last(), addr, r);
    }
}

proof fn lemma_lookup_none(regions: Seq<Region>, addr: int)
    requires
        forall|j: int| 0 <= j < regions.len() ==> !covers(#[trigger] regions[j], addr),
    ensures
        lookup(regions, addr) is None,
    decreases regions.len(),
{
    if regions.len() > 0 {
        assert(!covers(regions[regions.len() - 1], addr));
        assert forall|j: int| 0 <= j < regions.drop_last().len() implies !covers(
            #[trigger] regions.drop_last()[j],
            addr,
        ) by {
            assert(regions.drop_last()[j] == regions[j]);
        }
        lemma_lookup_none(regions.drop_last(), addr);
    }
}

/// Replacing a region by one with the same extent and rights, and the same
/// byte at `addr`, leaves the lookup at `addr` as it is.
proof fn lemma_lookup_same(before: Seq<Region>, after: Seq<Region>, addr: int)
    requires
        before.len() == after.len(),
        forall|j: int|
            0 <= j < before.len() ==> {
                &&& (#[trigger] after[j]).start == before[j].start
                &&& after[j].access == before[j].access
                &&& after[j].bytes@.len() == before[j].bytes@.len()
                &&& covers(before[j], addr) ==> after[j].bytes@[addr - before[j].start]
                    == before[j].bytes@[addr - before[j].start]
            },
    ensures
        lookup(before, addr) == lookup(after, addr),
    decreases before.len(),
{
    if before.len() > 0 {
        assert(after[after.len() - 1].start == before[before.len() - 1].start);
        assert forall|j: int| 0 <= j < before.drop_last().len() implies {
            &&& (#[trigger] after.drop_last()[j]).start == before.drop_last()[j].start
            &&& after.drop_last()[j].access == before.drop_last()[j].access
            &&& after.drop_last()[j].bytes@.len() == before.drop_last()[j].bytes@.len()
            &&& covers(before.drop_last()[j], addr) ==> after.drop_last()[j].bytes@[addr
                - before.drop_last()[j].start] == before.drop_last()[j].bytes@[addr
                - before.drop_last()[j].start]
        } by {
            assert(after.drop_last()[j] == after[j]);
        }
        lemma_lookup_same(before.drop_last(), after.drop_last(), addr);
    }
}

proof fn lemma_lookup_bounded(regions: Seq<Region>, addr: int)
    requires
        all_bounded(regions),
        lookup(regions, addr) is Some,
    ensures
        0 <= addr < ADDRESS_LIMIT,
    decreases regions.len(),
{
    let last = regions[regions.len() - 1];
    assert(last.start + last.bytes@.len() <= ADDRESS_LIMIT);
    if !covers(last, addr) {
        assert(all_bounded(regions.drop_last())) by {
            assert forall|j: int| 0 <= j < regions.drop_last().len() implies (
            #[trigger] regions.drop_last()[j]).start + regions.drop_last()[j].bytes@.len()
                <= ADDRESS_LIMIT by {
                assert(regions.drop_last()[j] == regions[j]);
            }
        }
        lemma_lookup_bounded(regions.drop_last(), addr);
    }
}

spec fn all_bounded(regions: Seq<Region>) -> bool {
    forall|j: int|
        0 <= j < regions.len() ==> (#[trigger] regions[j]).start + regions[j].bytes@.len()
            <= ADDRESS_LIMIT
}

/// The byte at `offset` of a freshly mapped region: the initial data, then zeros.
pub open spec fn initial_byte(data: Option<Seq<u8>>, offset: int) -> u8 {
    match data {
        Some(d) => if 0 <= offset < d.len() {
            d[offset]
        } else {
            0
        },
        None => 0,
    }
}

/// The outcome of mapping `size` bytes at `start` with `data_len` initial bytes.
pub open spec fn map_check(start: u64, size: u64, data_len: nat) -> Result<(), MapError> {
    if start % PAGE_SIZE != 0 || size % PAGE_SIZE != 0 {
        Err(MapError::Misaligned)
    } else if start + size > ADDRESS_LIMIT {
        Err(MapError::OutOfRange)
    } else if data_len > size {
        Err(MapError::DataTooLong)
    } else {
        Ok(())
    }
}

impl Mem {
    #[verifier::type_invariant]
    spec fn bounded(&self) -> bool {
        all_bounded(self.regions@)
    }

    /// What is mapped at `addr`.
    pub closed spec fn cell(&self, addr: int) -> Option<Cell> {
        lookup(self.regions@, addr)
    }

    /// Whether every byte of `[addr, addr + len)` is mapped.
    pub open spec fn readable(&self, addr: int, len: nat) -> bool {
        forall|a: int| addr <= a < addr + len ==> #[trigger] self.cell(a) is Some
    }

    /// Whether every byte of `[addr, addr + len)` is mapped read-write.
    pub open spec fn writable(&self, addr: int, len: nat) -> bool {
        forall|a: int|
            addr <= a < addr + len ==> (#[trigger] self.cell(a) matches Some(c) && c.access
                == Access::ReadWrite)
    }

    /// No byte mapped.
    pub fn new() -> (mem: Mem)
        ensures
            forall|a: int| #[trigger] mem.cell(a) is None,
    {
        Mem { regions: Vec::new() }
    }

    fn find(regions: &Vec<Region>, addr: u64) -> (found: Option<usize>)
        ensures
            found matches Some(r) ==> {
                &&& r < regions@.len()
                &&& covers(regions@[r as int], addr as int)
                &&& forall|j: int|
                    r < j < regions@.len() ==> !covers(#[trigger] regions@[j], addr as int)
            },
            found is None ==> forall|j: int|
                0 <= j < regions@.len() ==> !covers(#[trigger] regions@[j], addr as int),
    {
        let mut r: usize = regions.len();
        while r > 0
            invariant
                r <= regions@.len(),
                forall|j: int|
                    r <= j < regions@.len() ==> !covers(#[trigger] regions@[j], addr as int),
            decreases r,
        {
            r = r - 1;
            let region = &regions[r];
            if region.start <= addr && addr - region.start < region.bytes.len() as u64 {
                return Some(r);
            }
        }
        None
    }

    /// Map `size` bytes at `start`: the initial data followed by zeros.
    pub fn map_region(
        &mut self,
        start: u64,
        size: u64,
        access: Access,
        data: Option<&[u8]>,
    ) -> (r: Result<(), MapError>)
        ensures
            r == map_check(
                start,
                size,
                match data {
                    Some(d) => d@.len(),
                    None => 0,
                },
            ),
            r is Err ==> forall|a: int| #[trigger] final(self).cell(a) == old(self).cell(a),
            r is Ok ==> forall|a: int| #[trigger]
                final(self).cell(a) == if start <= a < start + size {
                    Some(
                        Cell {
                            access,
                            byte: initial_byte(
                                match data {
                                    Some(d) => Some(d@),
                                    None => None,
                                },
                                a - start,
                            ),
                        },
                    )
                } else {
                    old(self).cell(a)
                },
    {
        proof {
            use_type_invariant(&*self);
        }
        let data_len: u64 = match data {
            Some(d) => d.len() as u64,
            None => 0,
        };
        if start % PAGE_SIZE != 0 || size % PAGE_SIZE != 0 {
            return Err(MapError::Misaligned);
        }
        if start > ADDRESS_LIMIT || size > ADDRESS_LIMIT - start {
            return Err(MapError::OutOfRange);
        }
        if data_len > size {
            return Err(MapError::DataTooLong);
        }
        let ghost content: Option<Seq<u8>> = match data {
            Some(d) => Some(d@),
            None => None,
        };
        let mut bytes: Vec<u8> = Vec::new();
        let mut i: u64 = 0;
        while i < size
            invariant
                i <= size,
                bytes@.len() == i,
                data_len == (match data {
                    Some(d) => d@.len(),
                    None => 0,
                }),
                content == (match data {
                    Some(d) => Some(d@),
                    None => None,
                }),
                forall|j: int| 0 <= j < i ==> bytes@[j] == initial_byte(content, j),
            decreases size - i,
        {
            let byte: u8 = match data {
                Some(d) => if i < d.len() as u64 {
                    d[i as usize]
                } else {
                    0
                },
                None => 0,
            };
            bytes.push(byte);
            i = i + 1;
        }
        let ghost before = self.regions@;
        let mut regions: Vec<Region> = Vec::new();
        std::mem::swap(&mut regions, &mut self.regions);
        regions.push(Region { start, access, bytes });
        proof {
            assert(regions@.drop_last() =~= before);
            assert forall|j: int| 0 <= j < regions@.len() implies (#[trigger] regions@[j]).start
                + regions@[j].bytes@.len() <= ADDRESS_LIMIT by {
                if j < before.len() {
                    assert(regions@[j] == before[j]);
                }
            }
        }
        self.regions = regions;
        Ok(())
    }

    /// The byte at `addr`.
    pub fn read_u8(&self, addr: u32) -> (byte: Option<u8>)
        ensures
            byte == (match self.cell(addr as int) {
                Some(c) => Some(c.byte),
                None => None,
            }),
    {
        match Self::find(&self.regions, addr as u64) {
            Some(r) => {
                proof {
                    lemma_lookup_newest(self.regions@, addr as int, r as int);
                }
                let region = &self.regions[r];
                Some(region.bytes[(addr as u64 - region.start) as usize])
            },
            None => {
                proof {
                    lemma_lookup_none(self.regions@, addr as int);
                }
                None
            },
        }
    }

    /// The `len` bytes at `addr`; a fault if one of them is not mapped.
    pub fn read(&self, addr: u32, len: u64) -> (r: Result<Vec<u8>, MemFault>)
        ensures
            r is Ok <==> self.readable(addr as int, len as nat),
            r is Ok ==> addr + len <= ADDRESS_LIMIT,
            r matches Ok(bytes) ==> bytes@.len() == len && forall|i: int|
                0 <= i < len ==> self.cell(addr + i) == Some(
                    Cell { access: self.cell(addr + i)->0.access, byte: #[trigger] bytes@[i] },
                ),
    {
        let mut bytes: Vec<u8> = Vec::new();
        let mut i: u64 = 0;
        while i < len
            invariant
                i <= len,
                bytes@.len() == i,
                addr + i <= ADDRESS_LIMIT,
                forall|a: int| addr <= a < addr + i ==> #[trigger] self.cell(a) is Some,
                forall|j: int|
                    0 <= j < i ==> self.cell(addr + j) == Some(
                        Cell { access: self.cell(addr + j)->0.access, byte: #[trigger] bytes@[j] },
                    ),
            decreases len - i,
        {
            let at: u64 = addr as u64 + i;
            match Self::find(&self.regions, at) {
                Some(r) => {
                    proof {
                        use_type_invariant(&*self);
                        lemma_lookup_newest(self.regions@, at as int, r as int);
                        lemma_lookup_bounded(self.regions@, at as int);
                    }
                    let region = &self.regions[r];
                    bytes.push(region.bytes[(at - region.start) as usize]);
                },
                None => {
                    proof {
                        lemma_lookup_none(self.regions@, at as int);
                        assert(self.cell(addr + i) is None);
                    }
                    return Err(MemFault);
                },
            }
            i = i + 1;
        }
        Ok(bytes)
    }

    /// Whether `[addr, addr + len)` can be written.
    fn check_writable(&self, addr: u32, len: usize) -> (ok: bool)
        ensures
            ok == self.writable(addr as int, len as nat),
            ok ==> addr + len <= ADDRESS_LIMIT || len == 0,
    {
        let mut i: usize = 0;
        while i < len
            invariant
                i <= len,
                addr + i <= ADDRESS_LIMIT,
                forall|a: int|
                    addr <= a < addr + i ==> (#[trigger] self.cell(a) matches Some(c) && c.access
                        == Access::ReadWrite),
            decreases len - i,
        {
            let at: u64 = addr as u64 + i as u64;
            match Self::find(&self.regions, at) {
                Some(r) => {
                    proof {
                        use_type_invariant(&*self);
                        lemma_lookup_newest(self.regions@, at as int, r as int);
                        lemma_lookup_bounded(self.regions@, at as int);
                    }
                    if self.regions[r].access != Access::ReadWrite {
                        assert(self.cell(addr + i)->0.access != Access::ReadWrite);
                        return false;
                    }
                },
                None => {
                    proof {
                        lemma_lookup_none(self.regions@, at as int);
                        assert(self.cell(addr + i) is None);
                    }
                    return false;
                },
            }
            i = i + 1;
        }
        true
    }

    /// Write `data` at `addr`, all of it or, on a fault, nothing.
    pub fn write(&mut self, addr: u32, data: &[u8]) -> (r: Result<(), MemFault>)
        ensures
            r is Ok <==> old(self).writable(addr as int, data@.len()),
            r is Err ==> forall|a: int| #[trigger] final(self).cell(a) == old(self).cell(a),
            r is Ok ==> forall|a: int| #[trigger]
                final(self).cell(a) == if addr <= a < addr + data@.len() {
                    Some(Cell { access: Access::ReadWrite, byte: data@[a - addr] })
                } else {
                    old(self).cell(a)
                },
    {
        if !self.check_writable(addr, data.len()) {
            return Err(MemFault);
        }
        proof {
            use_type_invariant(&*self);
        }
        let ghost before = self.regions@;
        assert forall|a: int| addr <= a < addr + data@.len() implies (#[trigger] lookup(
            before,
            a,
        ) matches Some(c) && c.access == Access::ReadWrite) by {
            assert(self.cell(a) is Some);
        }
        let mut regions: Vec<Region> = Vec::new();
        std::mem::swap(&mut regions, &mut self.regions);
        let mut i: usize = 0;
        while i < data.len()
            invariant
                i <= data@.len(),
                addr + data@.len() <= ADDRESS_LIMIT || data@.len() == 0,
                all_bounded(regions@),
                forall|a: int|
                    addr <= a < addr + data@.len() ==> (#[trigger] lookup(before, a) matches Some(c)
                        && c.access == Access::ReadWrite),
                forall|a: int| #[trigger]
                    lookup(regions@, a) == if addr <= a < addr + i {
                        Some(Cell { access: Access::ReadWrite, byte: data@[a - addr] })
                    } else {
                        lookup(before, a)
                    },
            decreases data@.len() - i,
        {
            let at: u64 = addr as u64 + i as u64;
            let ghost prior = regions@;
            match Self::find(&regions, at) {
                Some(r) => {
                    proof {
                        lemma_lookup_newest(regions@, at as int, r as int);
                    }
                    let offset: usize = (at - regions[r].start) as usize;
                    let region = &mut regions[r];
                    region.bytes.set(offset, data[i]);
                    proof {
                        assert(lookup(prior, at as int) == lookup(before, at as int));
                        assert forall|j: int| r < j < regions@.len() implies !covers(
                            #[trigger] regions@[j],
                            at as int,
                        ) by {
                            assert(regions@[j] == prior[j]);
                        }
                        lemma_lookup_newest(regions@, at as int, r as int);
                        assert forall|a: int| a != at implies #[trigger] lookup(regions@, a)
                            == lookup(prior, a) by {
                            assert forall|j: int| 0 <= j < prior.len() implies {
                                &&& (#[trigger] regions@[j]).start == prior[j].start
                                &&& regions@[j].access == prior[j].access
                                &&& regions@[j].bytes@.len() == prior[j].bytes@.len()
                                &&& covers(prior[j], a) ==> regions@[j].bytes@[a
                                    - prior[j].start] == prior[j].bytes@[a - prior[j].start]
                            } by {
                                if j != r {
                                    assert(regions@[j] == prior[j]);
                                }
                            }
                            lemma_lookup_same(prior, regions@, a);
                        }
                        assert forall|j: int| 0 <= j < regions@.len() implies (
                        #[trigger] regions@[j]).start + regions@[j].bytes@.len()
                            <= ADDRESS_LIMIT by {
                            assert(prior[j].start + prior[j].bytes@.len() <= ADDRESS_LIMIT);
                        }
                    }
                },
                None => {
                    proof {
                        lemma_lookup_none(regions@, at as int);
                        assert(lookup(before, at as int) is Some);
                        assert(false);
                    }
                },
            }
            i = i + 1;
        }
        self.regions = regions;
        Ok(())
    }
}

/// Rounding a byte count up to whole pages.
pub open spec fn page_round_up(n: int) -> int {
    (n + PAGE_SIZE - 1) / PAGE_SIZE as int * PAGE_SIZE
}

/// `n` rounded up to a multiple of the page size.
pub fn page_round_up_u64(n: u64) -> (rounded: u64)
    requires
        n <= u64::MAX - PAGE_SIZE,
    ensures
        rounded == page_round_up(n as int),
        rounded % PAGE_SIZE == 0,
        n <= rounded < n + PAGE_SIZE,
{
    (n + PAGE_SIZE - 1) / PAGE_SIZE * PAGE_SIZE
}

/// Lay `data` over memory at `start` with the given rights, in whole pages.
/// Nothing happens where there is no data.
pub fn overlay_into(mem: &mut Mem, start: u32, data: &[u8], access: Access) -> (r: Result<
    (),
    MapError,
>)
    ensures
        r == overlay_check(start, data@),
        r is Err ==> forall|a: int| #[trigger] final(mem).cell(a) == old(mem).cell(a),
        r is Ok ==> forall|a: int| #[trigger]
            final(mem).cell(a) == overlaid(old(mem).cell(a), start, data@, access, a),
{
    if data.len() == 0 {
        return Ok(());
    }
    if data.len() as u64 > u64::MAX - PAGE_SIZE {
        return if start as u64 % PAGE_SIZE != 0 {
            Err(MapError::Misaligned)
        } else {
            Err(MapError::OutOfRange)
        };
    }
    let size: u64 = page_round_up_u64(data.len() as u64);
    mem.map_region(start as u64, size, access, Some(data))
}

/// The outcome of `overlay_into`.
pub open spec fn overlay_check(start: u32, data: Seq<u8>) -> Result<(), MapError> {
    if data.len() == 0 {
        Ok(())
    } else if start as u64 % PAGE_SIZE != 0 {
        Err(MapError::Misaligned)
    } else if start + page_round_up(data.len() as int) > ADDRESS_LIMIT {
        Err(MapError::OutOfRange)
    } else {
        Ok(())
    }
}

/// What is at `a` after `data` was laid over memory at `start`.
pub open spec fn overlaid(
    before: Option<Cell>,
    start: u32,
    data: Seq<u8>,
    access: Access,
    a: int,
) -> Option<Cell> {
    if data.len() > 0 && start <= a < start + page_round_up(data.len() as int) {
        Some(Cell { access, byte: initial_byte(Some(data), a - start) })
    } else {
        before
    }
}

} // verus!
