//! The capability values: slots, cnodes, data, images and instances.
use vstd::arithmetic::power2::{lemma2_to64, lemma_pow2_strictly_increases, lemma_pow2_unfold, pow2};
use vstd::prelude::*;

use crate::error::CapError;
use crate::hash::{same_hash, CapHash};

verus! {

/// Page granularity of data caps and of guest memory.
pub const PAGE_SIZE: u64 = 4096;

/// Width of the persisted register file.
pub const NUM_REGS: usize = 13;

/// Largest `size_log` of a cnode: slot operands are single bytes.
pub const MAX_CNODE_SIZE_LOG: u8 = 8;

/// Longest slot path.
pub const MAX_SOURCE_DEPTH: usize = 8;

/// Identity of a live (not yet content-hashed) cap.
#[derive(Clone, Copy, Debug, PartialEq, Eq)]
pub struct CapRef(pub u64);

/// What a cnode slot holds: a content hash or a live reference.
#[derive(Clone, Copy, Debug, PartialEq, Eq)]
pub enum CapHashOrRef {
    Hash(CapHash),
    Ref(CapRef),
}

impl CapHashOrRef {
    /// Whether both targets are the same variant with the same content.
    pub fn same(&self, other: &CapHashOrRef) -> (same: bool)
        ensures
            same == (*self == *other),
    {
        match self {
            CapHashOrRef::Hash(a) => match other {
                CapHashOrRef::Hash(b) => same_hash(a, b),
                CapHashOrRef::Ref(_) => false,
            },
            CapHashOrRef::Ref(a) => match other {
                CapHashOrRef::Hash(_) => false,
                CapHashOrRef::Ref(b) => a.0 == b.0,
            },
        }
    }
}

/// Index of a slot in a cnode.
#[derive(Clone, Copy, Debug, PartialEq, Eq, PartialOrd, Ord)]
pub struct SlotIdx(pub u32);

impl SlotIdx {
    pub fn get(self) -> (index: u32)
        ensures
            index == self.0,
    {
        self.0
    }

    /// The slot named by the low byte of a register.
    pub fn from_reg(reg: u64) -> (slot: SlotIdx)
        ensures
            slot == slot_of_reg(reg),
    {
        assert(reg & 0xFF <= 0xFF) by (bit_vector);
        SlotIdx((reg & 0xFF) as u32)
    }
}

/// The slot that a register operand names: its low byte.
pub open spec fn slot_of_reg(reg: u64) -> SlotIdx {
    SlotIdx((reg & 0xFF) as u32)
}

/// Whether `idx` is in `pinned`.
pub fn is_pinned_slot(pinned: &[SlotIdx], idx: SlotIdx) -> (found: bool)
    ensures
        found == pinned@.contains(idx),
{
    let mut i: usize = 0;
    while i < pinned.len()
        invariant
            i <= pinned@.len(),
            forall|j: int| 0 <= j < i ==> pinned@[j] != idx,
        decreases pinned@.len() - i,
    {
        if pinned[i].0 == idx.0 {
            return true;
        }
        i = i + 1;
    }
    false
}

/// A path through nested cnodes: every step but the last names a cnode.
#[derive(Debug)]
pub struct SlotPath {
    pub steps: Vec<SlotIdx>,
}

impl SlotPath {
    pub open spec fn wf(&self) -> bool {
        1 <= self.steps@.len() <= MAX_SOURCE_DEPTH
    }

    /// A path of the given steps; at least one, at most `MAX_SOURCE_DEPTH`.
    pub fn new(steps: Vec<SlotIdx>) -> (r: Result<SlotPath, CapError>)
        ensures
            r is Ok <==> 1 <= steps@.len() <= MAX_SOURCE_DEPTH,
            r matches Ok(p) ==> p.wf() && p.steps == steps,
            r matches Err(e) ==> e == CapError::BadPathLength(steps@.len() as usize),
    {
        let n: usize = steps.len();
        if n == 0 || n > MAX_SOURCE_DEPTH {
            Err(CapError::BadPathLength(n))
        } else {
            Ok(SlotPath { steps })
        }
    }

    /// The path of a single root slot.
    pub fn root(slot: SlotIdx) -> (p: SlotPath)
        ensures
            p.wf(),
            p.steps@ == seq![slot],
    {
        let mut steps: Vec<SlotIdx> = Vec::new();
        steps.push(slot);
        SlotPath { steps }
    }
}

/// A table of cap slots. `slots` has `2^size_log` entries.
#[derive(Debug)]
pub struct CNodeCap {
    pub size_log: u8,
    pub slots: Vec<Option<CapHashOrRef>>,
}

impl CNodeCap {
    pub open spec fn wf(&self) -> bool {
        &&& self.size_log <= MAX_CNODE_SIZE_LOG
        &&& self.slots@.len() == pow2(self.size_log as nat)
    }

    /// What slot `idx` holds; nothing where there is no such slot.
    pub open spec fn at(&self, idx: SlotIdx) -> Option<CapHashOrRef> {
        slot_at(self.slots@, idx)
    }

    /// An empty cnode of `2^size_log` slots.
    pub fn new(size_log: u8) -> (r: Result<CNodeCap, CapError>)
        ensures
            r is Ok <==> size_log <= MAX_CNODE_SIZE_LOG,
            r matches Ok(c) ==> c.wf() && c.size_log == size_log && c.slots@ == empty_slots(
                size_log,
            ),
            r matches Err(e) ==> e == CapError::CNodeTooLarge(size_log),
    {
        if size_log > MAX_CNODE_SIZE_LOG {
            return Err(CapError::CNodeTooLarge(size_log));
        }
        let mut count: usize = 1;
        let mut k: u8 = 0;
        proof {
            lemma2_to64();
        }
        while k < size_log
            invariant
                k <= size_log <= MAX_CNODE_SIZE_LOG,
                count == pow2(k as nat),
                count <= 256,
                pow2(8) == 256,
            decreases size_log - k,
        {
            proof {
                lemma_pow2_unfold((k + 1) as nat);
                lemma_pow2_strictly_increases(k as nat, 8);
                if k + 1 < 8 {
                    lemma_pow2_strictly_increases((k + 1) as nat, 8);
                }
            }
            count = count * 2;
            k = k + 1;
        }
        let mut slots: Vec<Option<CapHashOrRef>> = Vec::new();
        let mut i: usize = 0;
        while i < count
            invariant
                i <= count,
                slots@.len() == i,
                forall|j: int| 0 <= j < i ==> slots@[j] is None,
            decreases count - i,
        {
            slots.push(None);
            i = i + 1;
        }
        assert(slots@ =~= empty_slots(size_log));
        Ok(CNodeCap { size_log, slots })
    }

    /// The target in slot `idx`.
    pub fn get(&self, idx: SlotIdx) -> (target: Option<CapHashOrRef>)
        ensures
            target == self.at(idx),
    {
        if (idx.0 as usize) < self.slots.len() {
            self.slots[idx.0 as usize]
        } else {
            None
        }
    }

    /// Overwrite slot `idx`.
    pub fn set(&mut self, idx: SlotIdx, target: Option<CapHashOrRef>) -> (r: Result<(), CapError>)
        ensures
            final(self).size_log == old(self).size_log,
            final(self).slots@ == slots_set(old(self).slots@, idx, target),
            r == slot_check(old(self).slots@, idx),
            old(self).wf() ==> final(self).wf(),
    {
        if (idx.0 as usize) < self.slots.len() {
            self.slots.set(idx.0 as usize, target);
            Ok(())
        } else {
            Err(CapError::SlotOutOfRange(idx.0))
        }
    }

    /// Empty slot `idx` and return what it held.
    pub fn take(&mut self, idx: SlotIdx) -> (r: Result<Option<CapHashOrRef>, CapError>)
        ensures
            final(self).size_log == old(self).size_log,
            final(self).slots@ == slots_set(old(self).slots@, idx, None),
            r is Ok <==> slot_check(old(self).slots@, idx) is Ok,
            r matches Ok(t) ==> t == old(self).at(idx),
            r matches Err(e) ==> e == CapError::SlotOutOfRange(idx.0),
            old(self).wf() ==> final(self).wf(),
    {
        if (idx.0 as usize) < self.slots.len() {
            let held = self.slots[idx.0 as usize];
            self.slots.set(idx.0 as usize, None);
            Ok(held)
        } else {
            Err(CapError::SlotOutOfRange(idx.0))
        }
    }

    /// A copy with the same slots.
    pub fn duplicate(&self) -> (copy: CNodeCap)
        ensures
            copy.size_log == self.size_log,
            copy.slots@ == self.slots@,
    {
        let mut slots: Vec<Option<CapHashOrRef>> = Vec::new();
        let mut i: usize = 0;
        while i < self.slots.len()
            invariant
                i <= self.slots@.len(),
                slots@ == self.slots@.take(i as int),
            decreases self.slots@.len() - i,
        {
            slots.push(self.slots[i]);
            i = i + 1;
        }
        assert(slots@ =~= self.slots@);
        CNodeCap { size_log: self.size_log, slots }
    }
}

/// `2^size_log` empty slots.
pub open spec fn empty_slots(size_log: u8) -> Seq<Option<CapHashOrRef>> {
    Seq::new(pow2(size_log as nat), |i: int| None)
}

/// What slot `idx` of `slots` holds; nothing where there is no such slot.
pub open spec fn slot_at(slots: Seq<Option<CapHashOrRef>>, idx: SlotIdx) -> Option<CapHashOrRef> {
    if idx.0 < slots.len() {
        slots[idx.0 as int]
    } else {
        None
    }
}

/// `slots` with slot `idx` overwritten; unchanged where there is no such slot.
pub open spec fn slots_set(
    slots: Seq<Option<CapHashOrRef>>,
    idx: SlotIdx,
    target: Option<CapHashOrRef>,
) -> Seq<Option<CapHashOrRef>> {
    if idx.0 < slots.len() {
        slots.update(idx.0 as int, target)
    } else {
        slots
    }
}

/// The outcome of addressing slot `idx` for a write.
pub open spec fn slot_check(slots: Seq<Option<CapHashOrRef>>, idx: SlotIdx) -> Result<
    (),
    CapError,
> {
    if idx.0 < slots.len() {
        Ok(())
    } else {
        Err(CapError::SlotOutOfRange(idx.0))
    }
}

/// One page of paged data content: its bytes, or nothing loaded (reads as zero).
#[derive(Debug)]
pub enum PageSlot {
    Loaded(Vec<u8>),
    Missing,
}

/// The bytes of a data cap.
#[derive(Debug)]
pub enum DataContent {
    Inline(Vec<u8>),
    Paged { page_size: u32, pages: Vec<PageSlot> },
}

/// An immutable byte string.
#[derive(Debug)]
pub struct DataCap {
    pub content: DataContent,
}

impl DataCap {
    /// Pages are full and the total length is addressable.
    pub open spec fn wf(&self) -> bool {
        match self.content {
            DataContent::Inline(_) => true,
            DataContent::Paged { page_size, pages } => {
                &&& page_size > 0
                &&& page_size * pages@.len() <= usize::MAX
                &&& forall|i: int|
                    0 <= i < pages@.len() ==> (#[trigger] pages@[i] matches PageSlot::Loaded(b)
                        ==> b@.len() == page_size)
            },
        }
    }

    /// The content as one byte string.
    pub open spec fn bytes(&self) -> Seq<u8> {
        match self.content {
            DataContent::Inline(v) => v@,
            DataContent::Paged { page_size, pages } => paged_bytes(page_size as nat, pages@),
        }
    }

    /// Length of the content in bytes.
    pub fn content_len(&self) -> (len: u64)
        requires
            self.wf(),
        ensures
            len == self.bytes().len(),
    {
        match &self.content {
            DataContent::Inline(v) => v.len() as u64,
            DataContent::Paged { page_size, pages } => {
                let size: usize = *page_size as usize;
                let count: usize = pages.len();
                (size * count) as u64
            },
        }
    }
}

/// Byte `i` of paged content; a page that is not loaded reads as zero.
pub open spec fn paged_byte(page_size: nat, pages: Seq<PageSlot>, i: int) -> u8 {
    match pages[i / page_size as int] {
        PageSlot::Loaded(b) => b@[i % page_size as int],
        PageSlot::Missing => 0,
    }
}

/// Paged content as one byte string.
pub open spec fn paged_bytes(page_size: nat, pages: Seq<PageSlot>) -> Seq<u8> {
    Seq::new(page_size * pages.len(), |i: int| paged_byte(page_size, pages, i))
}

/// An entry point of an image. The entry points of an image form a dense array; one
/// that is not declared has `entry_pc` zero and zeros in its registers.
#[derive(Clone, Copy, Debug)]
pub struct EndpointDef {
    pub entry_pc: u32,
    pub initial_regs: [u64; NUM_REGS],
}

/// A memory mapping of an image: `[start, start + size)`, filled from the data
/// cap that `source_path` leads to (no path: zero-filled).
#[derive(Debug)]
pub struct MemoryMapping {
    pub start: u64,
    pub size: u64,
    pub source_path: Vec<SlotIdx>,
}

/// A slot with the cap that an image puts into it.
#[derive(Clone, Copy, Debug)]
pub struct SlotCap {
    pub slot: SlotIdx,
    pub cap_hash: CapHash,
}

/// A program: code, entry points, memory layout and slot declarations.
#[derive(Debug)]
pub struct ImageCap {
    pub code: Vec<u8>,
    pub code_base: u32,
    pub endpoints: Vec<EndpointDef>,
    pub mappings: Vec<MemoryMapping>,
    pub pinned: Vec<SlotCap>,
    pub initial: Vec<SlotCap>,
    pub yield_marker_slot: Option<SlotIdx>,
}

/// Bytes laid over an instance's memory at `start`.
#[derive(Debug)]
pub struct Overlay {
    pub start: u32,
    pub bytes: Vec<u8>,
}

/// A program with its state.
#[derive(Debug)]
pub struct InstanceCap {
    pub image_hash_chain: CapHash,
    pub image_hash: CapHash,
    pub root_cnode: CapHashOrRef,
    pub rw_overlays: Vec<Overlay>,
    pub mem_size: u32,
    pub regs: [u64; NUM_REGS],
    pub pc: u32,
    pub gas_remaining: u64,
}

/// The type identity of an instance.
#[derive(Clone, Copy, Debug)]
pub struct TypeCap {
    pub image_hash_chain: CapHash,
}

/// A capability.
#[derive(Debug)]
pub enum Cap {
    Image(ImageCap),
    Instance(InstanceCap),
    CNode(CNodeCap),
    Data(DataCap),
    Type(TypeCap),
}

/// The slots that a list of slot declarations names.
pub open spec fn declared_slots(entries: Seq<SlotCap>) -> Seq<SlotIdx> {
    entries.map_values(|e: SlotCap| e.slot)
}

/// The slots named by `entries`, in order.
pub fn collect_slots(entries: &[SlotCap]) -> (slots: Vec<SlotIdx>)
    ensures
        slots@ == declared_slots(entries@),
{
    let mut slots: Vec<SlotIdx> = Vec::new();
    let mut i: usize = 0;
    while i < entries.len()
        invariant
            i <= entries@.len(),
            slots@ == declared_slots(entries@.take(i as int)),
        decreases entries@.len() - i,
    {
        slots.push(entries[i].slot);
        assert(declared_slots(entries@.take(i + 1)) =~= declared_slots(
            entries@.take(i as int),
        ).push(entries@[i as int].slot));
        i = i + 1;
    }
    assert(entries@.take(i as int) =~= entries@);
    slots
}

/// A copy of `bytes`.
pub fn copy_bytes(bytes: &[u8]) -> (copy: Vec<u8>)
    ensures
        copy@ == bytes@,
{
    let mut copy: Vec<u8> = Vec::new();
    let mut i: usize = 0;
    while i < bytes.len()
        invariant
            i <= bytes@.len(),
            copy@ == bytes@.take(i as int),
        decreases bytes@.len() - i,
    {
        copy.push(bytes[i]);
        i = i + 1;
    }
    assert(copy@ =~= bytes@);
    copy
}

/// Writing a slot and reading it back gives what was written; every other slot
/// reads as before.
pub proof fn law_slot_write_then_read(
    slots: Seq<Option<CapHashOrRef>>,
    idx: SlotIdx,
    other: SlotIdx,
    target: Option<CapHashOrRef>,
)
    requires
        idx.0 < slots.len(),
    ensures
        slot_at(slots_set(slots, idx, target), idx) == target,
        other != idx ==> slot_at(slots_set(slots, idx, target), other) == slot_at(slots, other),
{
}

} // verus!
