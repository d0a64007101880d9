//! Caps as the guest kernel holds them.
use vstd::prelude::*;

use std::sync::Arc;

use crate::cap::{EndpointDef, NUM_REGS};
use crate::hash::CapHash;
use crate::kernel::key::Key;
use crate::table::HashTable;

verus! {

/// Page size of guest memory.
pub const PAGE_BYTES: u64 = 4096;

/// One page of guest memory and the physical address it is at.
#[derive(Debug)]
pub struct Page {
    pub pa: u64,
    pub bytes: Vec<u8>,
}

/// The memory of an instance: the backing it started from, and over it the pages
/// it has written. A page without backing reads as zeros.
#[derive(Debug)]
pub struct DataMem {
    pub backing: Vec<Option<Arc<Page>>>,
    pub overlay: Vec<(u32, Arc<Page>)>,
}

/// The written page at `index`, if it was written.
pub open spec fn overlay_at(overlay: Seq<(u32, Arc<Page>)>, index: int) -> Option<Arc<Page>>
    decreases overlay.len(),
{
    if overlay.len() == 0 {
        None
    } else if overlay.last().0 == index {
        Some(overlay.last().1)
    } else {
        overlay_at(overlay.drop_last(), index)
    }
}

impl DataMem {
    /// The page in effect at `index`: the written one, else the backing.
    pub open spec fn page(&self, index: int) -> Option<Arc<Page>> {
        match overlay_at(self.overlay@, index) {
            Some(p) => Some(p),
            None => if 0 <= index < self.backing@.len() {
                self.backing@[index]
            } else {
                None
            },
        }
    }

    /// The byte in effect at `offset`.
    pub open spec fn byte(&self, offset: int) -> u8 {
        match self.page(offset / PAGE_BYTES as int) {
            Some(p) => if offset % (PAGE_BYTES as int) < p.bytes@.len() {
                p.bytes@[offset % PAGE_BYTES as int]
            } else {
                0
            },
            None => 0,
        }
    }

    /// No pages.
    pub fn empty() -> (mem: DataMem)
        ensures
            mem.backing@ == Seq::<Option<Arc<Page>>>::empty(),
            mem.overlay@ == Seq::<(u32, Arc<Page>)>::empty(),
    {
        DataMem { backing: Vec::new(), overlay: Vec::new() }
    }

    /// The page in effect at `index`.
    pub fn page_at(&self, index: usize) -> (page: Option<Arc<Page>>)
        ensures
            page == self.page(index as int),
    {
        match self.overlay_page(index) {
            Some(p) => Some(p),
            None => if index < self.backing.len() {
                match &self.backing[index] {
                    Some(p) => Some(Arc::clone(p)),
                    None => None,
                }
            } else {
                None
            },
        }
    }

    /// Whether `self` has the pages of `other`.
    pub open spec fn same_as(&self, other: &DataMem) -> bool {
        self.backing@ == other.backing@ && self.overlay@ == other.overlay@
    }

    /// Zeros, `len` bytes in whole pages.
    pub fn zeroed(len: u64) -> (mem: DataMem)
        ensures
            mem.overlay@ == Seq::<(u32, Arc<Page>)>::empty(),
            mem.backing@ == Seq::new(
                pages_for(len as int) as nat,
                |i: int| None::<Arc<Page>>,
            ),
    {
        let count: u64 = if len % PAGE_BYTES == 0 {
            len / PAGE_BYTES
        } else {
            len / PAGE_BYTES + 1
        };
        let mut backing: Vec<Option<Arc<Page>>> = Vec::new();
        let mut i: u64 = 0;
        while i < count
            invariant
                i <= count,
                backing@.len() == i,
                forall|j: int| 0 <= j < i ==> backing@[j] is None,
            decreases count - i,
        {
            backing.push(None);
            i = i + 1;
        }
        assert(backing@ =~= Seq::new(count as nat, |j: int| None::<Arc<Page>>));
        DataMem { backing, overlay: Vec::new() }
    }

    /// Length of the extent in bytes.
    pub fn content_len(&self) -> (len: u64)
        ensures
            len == if self.backing@.len() * PAGE_BYTES <= u64::MAX {
                self.backing@.len() * PAGE_BYTES
            } else {
                u64::MAX as int
            },
    {
        let pages: u64 = self.backing.len() as u64;
        if pages <= u64::MAX / PAGE_BYTES {
            pages * PAGE_BYTES
        } else {
            u64::MAX
        }
    }

    /// The written page at `index`.
    pub fn overlay_page(&self, index: usize) -> (page: Option<Arc<Page>>)
        ensures
            page == overlay_at(self.overlay@, index as int),
    {
        let mut n: usize = self.overlay.len();
        assert(self.overlay@.take(n as int) =~= self.overlay@);
        while n > 0
            invariant
                n <= self.overlay@.len(),
                overlay_at(self.overlay@, index as int) == overlay_at(
                    self.overlay@.take(n as int),
                    index as int,
                ),
            decreases n,
        {
            n = n - 1;
            assert(self.overlay@.take(n + 1).drop_last() =~= self.overlay@.take(n as int));
            if self.overlay[n].0 as usize == index {
                return Some(Arc::clone(&self.overlay[n].1));
            }
        }
        None
    }

    /// Write a page: it is in effect at `index` from now on.
    pub fn commit_page(&mut self, index: u32, page: Arc<Page>)
        ensures
            final(self).backing@ == old(self).backing@,
            final(self).overlay@ == old(self).overlay@.push((index, page)),
            forall|i: int| #[trigger]
                overlay_at(final(self).overlay@, i) == if i == index {
                    Some(page)
                } else {
                    overlay_at(old(self).overlay@, i)
                },
    {
        self.overlay.push((index, page));
        assert(self.overlay@.drop_last() =~= old(self).overlay@);
    }

    /// A copy that shares the pages.
    pub fn duplicate(&self) -> (copy: DataMem)
        ensures
            copy.same_as(self),
    {
        let mut backing: Vec<Option<Arc<Page>>> = Vec::new();
        let mut i: usize = 0;
        while i < self.backing.len()
            invariant
                i <= self.backing@.len(),
                backing@ == self.backing@.take(i as int),
            decreases self.backing@.len() - i,
        {
            let page = match &self.backing[i] {
                Some(p) => Some(Arc::clone(p)),
                None => None,
            };
            backing.push(page);
            i = i + 1;
        }
        assert(backing@ =~= self.backing@);
        let mut overlay: Vec<(u32, Arc<Page>)> = Vec::new();
        let mut j: usize = 0;
        while j < self.overlay.len()
            invariant
                j <= self.overlay@.len(),
                overlay@ == self.overlay@.take(j as int),
            decreases self.overlay@.len() - j,
        {
            overlay.push((self.overlay[j].0, Arc::clone(&self.overlay[j].1)));
            j = j + 1;
        }
        assert(overlay@ =~= self.overlay@);
        DataMem { backing, overlay }
    }
}

/// Number of pages that `len` bytes take.
pub open spec fn pages_for(len: int) -> int {
    (len + PAGE_BYTES - 1) / PAGE_BYTES as int
}

/// What a kernel-assisted instance is a handle to.
#[derive(Debug)]
pub enum Role {
    /// An ordinary instance.
    Plain,
    /// Emits a yield key.
    YieldSender(Key),
    /// Catches yield keys.
    YieldReceiver(Vec<Key>),
    /// Draws on a gas meter.
    Gas(Key),
    /// Draws on a storage quota.
    Quota(Key),
}

/// A slot declaration of an image.
#[derive(Debug)]
pub struct KeySlotCap {
    pub slot: Key,
    pub cap_hash: CapHash,
}

/// A mapping of an image: its extent, its source slot if it has one, and
/// whether it is read-only.
#[derive(Debug)]
pub struct KernelMapping {
    pub start: u64,
    pub size: u64,
    pub source: Option<Key>,
    pub pinned: bool,
}

/// A program as the kernel reads it.
#[derive(Debug)]
pub struct KernelImageCap {
    /// Content hash.
    pub hash: CapHash,
    /// Length of the code in bytes.
    pub code_len: u64,
    /// Address of the code in the guest.
    pub code_base: u32,
    /// Entry points by selector byte.
    pub endpoints: Vec<(u8, EndpointDef)>,
    pub mappings: Vec<KernelMapping>,
    pub pinned: Vec<KeySlotCap>,
    pub initial: Vec<KeySlotCap>,
    /// Slots that gas handles are looked for in, in order.
    pub gas_slots: Vec<Key>,
    /// Slot of the yield receiver.
    pub yield_receiver_slot: Option<Key>,
}

/// What a slot of a published cnode holds.
#[derive(Debug)]
pub enum WireTarget {
    Hash(CapHash),
    Owned(Arc<WireCap>),
}

/// A published cap, or a cap inside one.
#[derive(Debug)]
pub enum WireCap {
    Image(KernelImageCap),
    Instance(WireInstance),
    CNode(Vec<(Key, WireTarget)>),
    Data(DataMem),
}

/// A published instance.
#[derive(Debug)]
pub struct WireInstance {
    pub image_hash_chain: CapHash,
    pub image_hash: CapHash,
    pub root_cnode: WireTarget,
    pub mem: DataMem,
    pub regs: [u64; NUM_REGS],
    pub pc: u64,
    pub gas_remaining: u64,
    pub role: Arc<Role>,
}

/// The published caps.
pub type KernelDirectory = HashTable<Arc<WireCap>>;

impl WireTarget {
    /// A copy that shares what is owned.
    pub fn duplicate(&self) -> (copy: WireTarget)
        ensures
            copy == *self,
    {
        match self {
            WireTarget::Hash(h) => WireTarget::Hash(*h),
            WireTarget::Owned(c) => WireTarget::Owned(Arc::clone(c)),
        }
    }
}

} // verus!
