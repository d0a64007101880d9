//! What a running instance asks of the kernel.
use vstd::prelude::*;

use std::sync::Arc;

use crate::cap::NUM_REGS;
use crate::hash::{hash_pair_of, Blake2b256, CapHash};
use crate::kernel::caps::{
    DataMem, KernelDirectory, KernelImageCap, KernelMapping, Page, Role, WireCap, WireTarget,
    PAGE_BYTES,
};
use crate::kernel::frame::{
    build_frame, endpoint_at, find_image, from_wire, identity_at, image_at, instance_slots,
    is_from_wire, seeded, starts, wire_cap_at, zero_bytes, zero_hash, CNode, CapMap, FrameOrigin,
    KernelFrame, ResidentInstance, Root, Target, ERR_ENDPOINT_OOB, ERR_INSTANCE_KIND,
    ERR_INSTANCE_NOT_FOUND,
};
use crate::kernel::gas::FrameGas;
use crate::kernel::image_mem::{build_instance_mem, composed, MemCache};
use crate::kernel::key::{ascending, byte_key, has_key, key_seq, reg_key, sorted_set, Key};
use crate::table::{entries_map, keys_distinct, lemma_entries_map, TableKey};

verus! {

/// The slot of a call is empty.
pub const ERR_HOST_CALL_SLOT_EMPTY: u32 = 40;

/// An operand of a yield is not what it should be.
pub const ERR_YIELD_BAD_SENDER: u32 = 71;

/// Every declared gas slot is empty.
pub const ERR_GAS_SLOT_EMPTY: u32 = 72;

/// A declared gas slot does not hold a gas handle.
pub const ERR_GAS_SLOT_INVALID: u32 = 73;

/// The slot whose cap moves with a call and its return.
pub const SCRATCHPAD_SLOT: u8 = 0;

/// Size of a unit of read-only memory.
pub const RO_UNIT_BYTES: u64 = 0x20_0000;

/// What the kernel is set up with: where guest data starts, what a kernel call
/// costs, and which images the handles of the kernel claim to be of.
#[derive(Debug)]
pub struct KernelConfig {
    pub data_base: u32,
    pub ecall_cost: u64,
    pub ecalli_cost: u64,
    pub sender_image: CapHash,
    pub receiver_image: CapHash,
    pub gas_image: CapHash,
    pub quota_image: CapHash,
}

/// The kernel: the published caps, the memories that were composed, and its
/// setup.
#[derive(Debug)]
pub struct Kernel {
    pub directory: KernelDirectory,
    pub mem_cache: MemCache,
    pub config: KernelConfig,
}

/// The meter of the gas handle that a slot leads to.
pub open spec fn gas_meter_at(dir: CapMap, target: Option<Target>) -> Option<Seq<u8>> {
    match identity_at(dir, target) {
        Some(id) => match *id.role {
            Role::Gas(k) => Some(k@),
            _ => None,
        },
        None => None,
    }
}

/// The meters of a frame's gas slots in order, each once; empty slots are passed
/// over.
pub open spec fn gas_meters(dir: CapMap, frame: KernelFrame, slots: Seq<Key>) -> Result<
    Seq<Seq<u8>>,
    u32,
>
    decreases slots.len(),
{
    if slots.len() == 0 {
        Ok(Seq::empty())
    } else {
        match gas_meters(dir, frame, slots.drop_last()) {
            Err(e) => Err(e),
            Ok(meters) => {
                let slot = slots.last()@;
                if frame.is_pending(slot) {
                    Err(ERR_GAS_SLOT_INVALID)
                } else if frame.slot(slot) is None {
                    Ok(meters)
                } else {
                    match gas_meter_at(dir, frame.slot(slot)) {
                        None => Err(ERR_GAS_SLOT_INVALID),
                        Some(k) => Ok(
                            if meters.contains(k) {
                                meters
                            } else {
                                meters.push(k)
                            },
                        ),
                    }
                }
            },
        }
    }
}

/// The meters that fund a frame: none if its image declares no gas slots.
pub open spec fn frame_meters(dir: CapMap, frame: KernelFrame) -> Result<
    Option<Seq<Seq<u8>>>,
    u32,
> {
    match image_at(dir, frame.image_hash) {
        Err(e) => Err(e),
        Ok(img) => if img.gas_slots@.len() == 0 {
            Ok(None)
        } else {
            match gas_meters(dir, frame, img.gas_slots@) {
                Err(e) => Err(e),
                Ok(meters) => if meters.len() == 0 {
                    Err(ERR_GAS_SLOT_EMPTY)
                } else {
                    Ok(Some(meters))
                },
            }
        },
    }
}

/// Whether `gas` draws on `meters` in order, from the first.
pub open spec fn draws_on(gas: FrameGas, meters: Seq<Seq<u8>>) -> bool {
    &&& gas.wf()
    &&& key_seq(gas.meters@) == meters
    &&& gas.active == Some(0usize)
}

/// The meters that fund a frame. No declared gas slots: none. A slot that holds
/// something else than a gas handle is an error, and so are only empty slots.
pub fn resolve_frame_gas(dir: &KernelDirectory, frame: &KernelFrame) -> (gas: Result<
    Option<FrameGas>,
    u32,
>)
    ensures
        match frame_meters(dir@, *frame) {
            Err(e) => gas == Err::<Option<FrameGas>, u32>(e),
            Ok(None) => gas == Ok::<Option<FrameGas>, u32>(None),
            Ok(Some(meters)) => gas matches Ok(Some(g)) && draws_on(g, meters),
        },
{
    let img = match find_image(dir, &frame.image_hash) {
        Ok(img) => img,
        Err(e) => return Err(e),
    };
    if img.gas_slots.len() == 0 {
        return Ok(None);
    }
    let mut meters: Vec<Key> = Vec::new();
    let mut i: usize = 0;
    assert(img.gas_slots@.take(0) =~= Seq::<Key>::empty());
    assert(key_seq(meters@) =~= Seq::<Seq<u8>>::empty());
    while i < img.gas_slots.len()
        invariant
            i <= img.gas_slots@.len(),
            gas_meters(dir@, *frame, img.gas_slots@.take(i as int)) == Ok::<Seq<Seq<u8>>, u32>(
                key_seq(meters@),
            ),
            image_at(dir@, frame.image_hash) == Ok::<KernelImageCap, u32>(*img),
            img.gas_slots@.len() > 0,
        decreases img.gas_slots@.len() - i,
    {
        let slot = &img.gas_slots[i];
        proof {
            let more = img.gas_slots@.take(i + 1);
            assert(more.drop_last() =~= img.gas_slots@.take(i as int));
            assert(more.last() == *slot);
            lemma_gas_meters_prefix(dir@, *frame, img.gas_slots@, i + 1);
        }
        if frame.slot_is_pending(slot) {
            return Err(ERR_GAS_SLOT_INVALID);
        }
        if frame.cnode.get(slot).is_some() {
            match frame.instance_identity(dir, slot) {
                None => return Err(ERR_GAS_SLOT_INVALID),
                Some(id) => match &*id.role {
                    Role::Gas(k) => {
                        proof {
                            lemma_key_seq_contains(meters@, k@);
                        }
                        if !crate::kernel::key::contains_key(meters.as_slice(), k) {
                            let copy = k.duplicate();
                            let ghost longer = key_seq(meters@).push(k@);
                            meters.push(copy);
                            assert(key_seq(meters@) =~= longer);
                        }
                    },
                    _ => return Err(ERR_GAS_SLOT_INVALID),
                },
            }
        }
        i = i + 1;
    }
    assert(img.gas_slots@.take(i as int) =~= img.gas_slots@);
    if meters.len() == 0 {
        Err(ERR_GAS_SLOT_EMPTY)
    } else {
        Ok(Some(FrameGas::declared(meters)))
    }
}

proof fn lemma_key_seq_contains(keys: Seq<Key>, key: Seq<u8>)
    ensures
        key_seq(keys).contains(key) == has_key(keys, key),
{
    if key_seq(keys).contains(key) {
        let i = choose|i: int| 0 <= i < key_seq(keys).len() && key_seq(keys)[i] == key;
        assert(keys[i]@ == key);
    }
    if has_key(keys, key) {
        let i = choose|i: int| 0 <= i < keys.len() && #[trigger] keys[i]@ == key;
        assert(key_seq(keys)[i] == key);
    }
}

/// An error at a gas slot is the error of the whole list.
proof fn lemma_gas_meters_prefix(dir: CapMap, frame: KernelFrame, slots: Seq<Key>, n: int)
    requires
        0 <= n <= slots.len(),
    ensures
        gas_meters(dir, frame, slots.take(n)) is Err ==> gas_meters(dir, frame, slots)
            == gas_meters(dir, frame, slots.take(n)),
    decreases slots.len(),
{
    if n < slots.len() {
        assert(slots.drop_last().take(n) =~= slots.take(n));
        lemma_gas_meters_prefix(dir, frame, slots.drop_last(), n);
    } else {
        assert(slots.take(n) =~= slots);
    }
}

/// The slot that a frame's image names for its yield receiver.
pub open spec fn receiver_slot(dir: CapMap, frame: KernelFrame) -> Option<Seq<u8>> {
    match image_at(dir, frame.image_hash) {
        Ok(img) => match img.yield_receiver_slot {
            Some(k) => Some(k@),
            None => None,
        },
        Err(_) => None,
    }
}

/// Whether a frame catches a yield key from the calls it makes.
pub open spec fn catches(dir: CapMap, frame: KernelFrame, key: Seq<u8>) -> bool {
    match receiver_slot(dir, frame) {
        Some(slot) => match identity_at(dir, frame.slot(slot)) {
            Some(id) => match *id.role {
                Role::YieldReceiver(keys) => has_key(keys@, key),
                _ => false,
            },
            None => false,
        },
        None => false,
    }
}

/// Whether `set` lists what a frame catches.
pub open spec fn is_catch_set(dir: CapMap, frame: KernelFrame, set: Seq<Key>) -> bool {
    &&& ascending(set)
    &&& forall|k: Seq<u8>| #[trigger] has_key(set, k) <==> catches(dir, frame, k)
}

/// What a frame catches from the call it is about to make. `None` if the receiver
/// itself is running.
pub fn snapshot_catch_set(dir: &KernelDirectory, frame: &KernelFrame) -> (set: Option<Vec<Key>>)
    ensures
        set is None <==> (receiver_slot(dir@, *frame) matches Some(s) && frame.is_pending(s)),
        set matches Some(keys) ==> is_catch_set(dir@, *frame, keys@),
{
    let img = match find_image(dir, &frame.image_hash) {
        Ok(img) => img,
        Err(_) => return Some(Vec::new()),
    };
    match &img.yield_receiver_slot {
        None => Some(Vec::new()),
        Some(slot) => {
            if frame.slot_is_pending(slot) {
                return None;
            }
            match frame.instance_identity(dir, slot) {
                None => Some(Vec::new()),
                Some(id) => match &*id.role {
                    Role::YieldReceiver(keys) => Some(sorted_set(keys.as_slice())),
                    _ => Some(Vec::new()),
                },
            }
        },
    }
}

/// How many read-only units `bytes` take.
pub open spec fn units_for(bytes: int) -> int {
    (bytes + RO_UNIT_BYTES - 1) / RO_UNIT_BYTES as int
}

/// The read-only units of the pinned mappings.
pub open spec fn pinned_units(mappings: Seq<KernelMapping>) -> int
    decreases mappings.len(),
{
    if mappings.len() == 0 {
        0
    } else {
        pinned_units(mappings.drop_last()) + if mappings.last().pinned {
            units_for(mappings.last().size as int)
        } else {
            0
        }
    }
}

/// At most `u32::MAX`.
pub open spec fn clamp_u32(n: int) -> u32 {
    if n <= u32::MAX {
        n as u32
    } else {
        u32::MAX
    }
}

/// What the cost of a call to an image depends on: the length of its code, and the
/// read-only units of its code and its pinned mappings.
pub open spec fn image_cost_inputs(img: KernelImageCap) -> (u32, u32) {
    (
        clamp_u32(img.code_len as int),
        clamp_u32(units_for(img.code_len as int) + pinned_units(img.mappings@)),
    )
}

fn count_units(bytes: u64) -> (units: u64)
    ensures
        units == units_for(bytes as int),
{
    let whole: u64 = bytes / RO_UNIT_BYTES;
    if bytes % RO_UNIT_BYTES == 0 {
        whole
    } else {
        whole + 1
    }
}

fn clamp(n: u64) -> (m: u32)
    ensures
        m == clamp_u32(n as int),
{
    if n <= u32::MAX as u64 {
        n as u32
    } else {
        u32::MAX
    }
}

proof fn lemma_pinned_units_nonneg(mappings: Seq<KernelMapping>)
    ensures
        0 <= pinned_units(mappings),
    decreases mappings.len(),
{
    if mappings.len() > 0 {
        lemma_pinned_units_nonneg(mappings.drop_last());
    }
}

proof fn lemma_pinned_units_grow(mappings: Seq<KernelMapping>, n: int)
    requires
        0 <= n <= mappings.len(),
    ensures
        pinned_units(mappings.take(n)) <= pinned_units(mappings),
    decreases mappings.len(),
{
    if n < mappings.len() {
        assert(mappings.drop_last().take(n) =~= mappings.take(n));
        lemma_pinned_units_grow(mappings.drop_last(), n);
    } else {
        assert(mappings.take(n) =~= mappings);
    }
}

/// What the cost of a call to an image depends on.
pub fn call_cost_inputs(img: &KernelImageCap) -> (inputs: (u32, u32))
    ensures
        inputs == image_cost_inputs(*img),
{
    let code_units: u64 = count_units(img.code_len);
    let mut units: u64 = code_units;
    let mut i: usize = 0;
    assert(img.mappings@.take(0) =~= Seq::<KernelMapping>::empty());
    while i < img.mappings.len()
        invariant
            i <= img.mappings@.len(),
            code_units == units_for(img.code_len as int),
            units == code_units + pinned_units(img.mappings@.take(i as int)) || (units == u64::MAX
                && code_units + pinned_units(img.mappings@.take(i as int)) >= u64::MAX),
        decreases img.mappings@.len() - i,
    {
        assert(img.mappings@.take(i + 1).drop_last() =~= img.mappings@.take(i as int));
        if img.mappings[i].pinned {
            let more: u64 = count_units(img.mappings[i].size);
            units = if more <= u64::MAX - units {
                units + more
            } else {
                u64::MAX
            };
        }
        i = i + 1;
    }
    assert(img.mappings@.take(i as int) =~= img.mappings@);
    (clamp(img.code_len), clamp(units))
}

/// The image of the instance that a slot leads to.
pub open spec fn called_image(dir: CapMap, target: Option<Target>) -> Result<CapHash, u32> {
    match target {
        None => Err(ERR_HOST_CALL_SLOT_EMPTY),
        Some(Target::Hash(h)) => if !dir.contains_key(h) {
            Err(ERR_INSTANCE_NOT_FOUND)
        } else {
            match identity_at(dir, target) {
                Some(id) => Ok(id.image_hash),
                None => Err(ERR_INSTANCE_KIND),
            }
        },
        _ => match identity_at(dir, target) {
            Some(id) => Ok(id.image_hash),
            None => Err(ERR_INSTANCE_KIND),
        },
    }
}

/// What the cost of the call that a frame asks for depends on; nothing if the
/// instance of the slot is running.
pub open spec fn host_call_inputs(dir: CapMap, frame: KernelFrame) -> Result<
    Option<(u32, u32)>,
    u32,
> {
    let slot = reg_key(frame.regs@[7]);
    if frame.is_pending(slot) {
        Ok(None)
    } else {
        match called_image(dir, frame.slot(slot)) {
            Err(e) => Err(e),
            Ok(h) => match image_at(dir, h) {
                Err(e) => Err(e),
                Ok(img) => Ok(Some(image_cost_inputs(img))),
            },
        }
    }
}

/// What the cost of the call that `frame` asks for depends on. The slot is only
/// looked at, so that a call that cannot be paid leaves everything as it was.
pub fn host_call_frame_cost(dir: &KernelDirectory, frame: &KernelFrame) -> (inputs: Result<
    Option<(u32, u32)>,
    u32,
>)
    ensures
        inputs == host_call_inputs(dir@, *frame),
{
    let slot = Key::from_reg(frame.regs[7]);
    if frame.slot_is_pending(&slot) {
        return Ok(None);
    }
    match frame.cnode.get(&slot) {
        None => return Err(ERR_HOST_CALL_SLOT_EMPTY),
        Some(Target::Hash(h)) => {
            if dir.get(h).is_none() {
                return Err(ERR_INSTANCE_NOT_FOUND);
            }
        },
        Some(_) => {},
    }
    match frame.instance_identity(dir, &slot) {
        None => Err(ERR_INSTANCE_KIND),
        Some(id) => match find_image(dir, &id.image_hash) {
            Err(e) => Err(e),
            Ok(img) => Ok(Some(call_cost_inputs(img))),
        },
    }
}

/// The image of a spawn: the one in the slot, else that of the frame itself.
pub open spec fn spawned_image(frame: KernelFrame) -> CapHash {
    match frame.slot(reg_key(frame.regs@[7])) {
        Some(Target::Hash(h)) => h,
        _ => frame.image_hash,
    }
}

/// Whether `inst` is a new instance of an image, spawned by `frame`, with the
/// pages given.
pub open spec fn is_spawned(
    inst: ResidentInstance,
    frame: KernelFrame,
    image_hash: CapHash,
    mem: DataMem,
) -> bool {
    &&& inst.image_hash_chain@ == hash_pair_of(frame.image_hash_chain@, image_hash@)
    &&& inst.image_hash == image_hash
    &&& inst.root matches Root::Wire(WireTarget::Hash(h)) && h@ == zero_bytes()
    &&& inst.mem.same_as(&mem)
    &&& inst.regs@ == Seq::new(NUM_REGS as nat, |i: int| 0u64)
    &&& inst.pc == 0
    &&& inst.gas_remaining == 0
    &&& *inst.role == Role::Plain
    &&& inst.runtime is None
}

/// Whether two frames differ in their slots alone.
pub open spec fn same_but_slots(before: KernelFrame, after: KernelFrame) -> bool {
    after == (KernelFrame { cnode: after.cnode, ..before })
}

/// The identity of the type of the cap in a slot: the chain of an instance, the
/// hash of an image. `Ok(None)` if it is neither.
pub open spec fn type_identity(dir: CapMap, target: Option<Target>) -> Result<Option<CapHash>, u32> {
    match target {
        None => Ok(None),
        Some(Target::Hash(h)) => if !dir.contains_key(h) {
            Err(ERR_INSTANCE_NOT_FOUND)
        } else {
            match *dir[h] {
                WireCap::Instance(w) => Ok(Some(w.image_hash_chain)),
                WireCap::Image(_) => Ok(Some(h)),
                _ => Ok(None),
            }
        },
        Some(Target::Wire(c)) => match *c {
            WireCap::Instance(w) => Ok(Some(w.image_hash_chain)),
            WireCap::Image(img) => Ok(Some(img.hash)),
            _ => Ok(None),
        },
        Some(Target::Instance(i)) => Ok(Some(i.image_hash_chain)),
        Some(Target::Bytes(_)) => Ok(None),
    }
}

/// The bytes of a hash, filled up to a page with zeros.
pub open spec fn hash_page(hash: CapHash) -> Seq<u8> {
    Seq::new(
        PAGE_BYTES as nat,
        |i: int|
            if i < 32 {
                hash@[i]
            } else {
                0
            },
    )
}

fn page_of_hash(hash: &CapHash) -> (bytes: Vec<u8>)
    ensures
        bytes@ == hash_page(*hash),
{
    let mut bytes: Vec<u8> = Vec::new();
    let mut i: u64 = 0;
    while i < PAGE_BYTES
        invariant
            i <= PAGE_BYTES,
            bytes@.len() == i,
            forall|j: int| 0 <= j < i ==> bytes@[j] == hash_page(*hash)[j],
        decreases PAGE_BYTES - i,
    {
        bytes.push(
            if i < 32 {
                hash[i as usize]
            } else {
                0
            },
        );
        i = i + 1;
    }
    assert(bytes@ =~= hash_page(*hash));
    bytes
}

/// What spawning comes to. `Ok(true)`: the slot to write is pinned or its instance
/// is running, or the instance of the image slot is.
pub open spec fn spawn_done(
    dir: CapMap,
    cache: Map<CapHash, DataMem>,
    data_base: u32,
    before: KernelFrame,
    after: KernelFrame,
    cache_after: Map<CapHash, DataMem>,
    r: Result<bool, u32>,
) -> bool {
    let dst = reg_key(before.regs@[9]);
    let image_hash = spawned_image(before);
    if before.write_blocked(dst) || before.is_pending(reg_key(before.regs@[7])) {
        r == Ok::<bool, u32>(true) && after == before && cache_after == cache
    } else {
        match image_at(dir, image_hash) {
            Err(e) => r == Err::<bool, u32>(e) && after == before && cache_after == cache,
            Ok(img) => {
                &&& r == Ok::<bool, u32>(false)
                &&& same_but_slots(before, after)
                &&& after.slot(dst) matches Some(Target::Instance(inst)) && {
                    &&& after.cnode@ == before.cnode@.insert(dst, Target::Instance(inst))
                    &&& is_spawned(*inst, before, image_hash, inst.mem)
                    &&& if cache.contains_key(image_hash) {
                        &&& inst.mem.same_as(&cache[image_hash])
                        &&& cache_after == cache
                    } else {
                        &&& inst.mem.overlay@ == Seq::<(u32, Arc<Page>)>::empty()
                        &&& inst.mem.backing@ == composed(dir, img, data_base as int)
                        &&& cache_after.contains_key(image_hash)
                        &&& cache_after == cache.insert(image_hash, cache_after[image_hash])
                        &&& cache_after[image_hash].same_as(&inst.mem)
                    }
                }
            },
        }
    }
}

/// What reading the identity of a type comes to.
pub open spec fn identity_done(
    dir: CapMap,
    before: KernelFrame,
    after: KernelFrame,
    r: Result<bool, u32>,
) -> bool {
    let src = reg_key(before.regs@[7]);
    let dst = reg_key(before.regs@[8]);
    if before.write_blocked(dst) || before.is_pending(src) {
        r == Ok::<bool, u32>(true) && after == before
    } else {
        match type_identity(dir, before.slot(src)) {
            Err(e) => r == Err::<bool, u32>(e) && after == before,
            Ok(None) => r == Ok::<bool, u32>(true) && after == before,
            Ok(Some(hash)) => {
                &&& r == Ok::<bool, u32>(false)
                &&& same_but_slots(before, after)
                &&& after.slot(dst) matches Some(Target::Bytes(bytes)) && bytes@ == hash_page(hash)
                    && after.cnode@ == before.cnode@.insert(dst, Target::Bytes(bytes))
            },
        }
    }
}

impl Kernel {
    /// Spawn: put a new instance of the image in the slot of register 7 into the slot
    /// of register 9. `Ok(true)` traps.
    pub fn dispatch_derive_spawn(&mut self, frame: &mut KernelFrame) -> (r: Result<bool, u32>)
        ensures
            final(self).directory == old(self).directory,
            final(self).config == old(self).config,
            spawn_done(
                old(self).directory@,
                old(self).mem_cache@,
                old(self).config.data_base,
                *old(frame),
                *final(frame),
                final(self).mem_cache@,
                r,
            ),
    {
        let image_slot = Key::from_reg(frame.regs[7]);
        let dst_slot = Key::from_reg(frame.regs[9]);
        if frame.slot_write_blocked(&dst_slot) {
            return Ok(true);
        }
        if frame.slot_is_pending(&image_slot) {
            return Ok(true);
        }
        let image_hash: CapHash = match frame.cnode.get(&image_slot) {
            Some(Target::Hash(h)) => *h,
            _ => frame.image_hash,
        };
        let chain = Blake2b256::hash_pair(&frame.image_hash_chain, &image_hash);
        let img = match find_image(&self.directory, &image_hash) {
            Ok(img) => img,
            Err(e) => return Err(e),
        };
        let mem = build_instance_mem(
            &self.directory,
            &mut self.mem_cache,
            &image_hash,
            img,
            self.config.data_base,
        );
        let regs: [u64; NUM_REGS] = [0u64; NUM_REGS];
        assert(regs@ =~= Seq::new(NUM_REGS as nat, |i: int| 0u64));
        let inst = ResidentInstance {
            image_hash_chain: chain,
            image_hash,
            root: Root::Wire(WireTarget::Hash(zero_hash())),
            mem,
            regs,
            pc: 0,
            gas_remaining: 0,
            role: Arc::new(Role::Plain),
            runtime: None,
        };
        frame.cnode.insert(dst_slot, Target::Instance(Box::new(inst)));
        Ok(false)
    }

    /// Put the identity of the type of the cap in the slot of register 7, as data,
    /// into the slot of register 8. `Ok(true)` traps.
    pub fn dispatch_image_hash_chain(&self, frame: &mut KernelFrame) -> (r: Result<bool, u32>)
        ensures
            identity_done(self.directory@, *old(frame), *final(frame), r),
    {
        let src_slot = Key::from_reg(frame.regs[7]);
        let dst_slot = Key::from_reg(frame.regs[8]);
        if frame.slot_write_blocked(&dst_slot) {
            return Ok(true);
        }
        if frame.slot_is_pending(&src_slot) {
            return Ok(true);
        }
        let identity: Option<CapHash> = match frame.cnode.get(&src_slot) {
            None => None,
            Some(Target::Hash(h)) => match self.directory.get(h) {
                None => return Err(ERR_INSTANCE_NOT_FOUND),
                Some(cap) => match &**cap {
                    WireCap::Instance(w) => Some(w.image_hash_chain),
                    WireCap::Image(_) => Some(*h),
                    _ => None,
                },
            },
            Some(Target::Wire(c)) => match &**c {
                WireCap::Instance(w) => Some(w.image_hash_chain),
                WireCap::Image(img) => Some(img.hash),
                _ => None,
            },
            Some(Target::Instance(i)) => Some(i.image_hash_chain),
            Some(Target::Bytes(_)) => None,
        };
        match identity {
            None => Ok(true),
            Some(hash) => {
                frame.cnode.insert(dst_slot, Target::Bytes(page_of_hash(&hash)));
                Ok(false)
            },
        }
    }
}

/// Whether an instance may be made of the cap in a slot.
pub open spec fn is_called(dir: CapMap, target: Target, inst: ResidentInstance) -> bool {
    match target {
        Target::Instance(i) => inst == *i,
        _ => match wire_cap_at(dir, Some(target)) {
            Some(c) => match *c {
                WireCap::Instance(w) => is_from_wire(inst, w),
                _ => false,
            },
            None => false,
        },
    }
}

/// Whether a called frame inherits a slot of its caller: what is published is
/// copied; what has a single owner is not, nor the scratchpad, which moves.
pub open spec fn inheritable(slots: Map<Seq<u8>, Target>, key: Seq<u8>) -> bool {
    slots.contains_key(key) && key != byte_key(SCRATCHPAD_SLOT) && slots[key] is Hash
}

/// The slots of a called frame with those it inherits where it has none.
pub open spec fn inherited(
    child: Map<Seq<u8>, Target>,
    parent: Map<Seq<u8>, Target>,
) -> Map<Seq<u8>, Target> {
    Map::new(
        |k: Seq<u8>| child.contains_key(k) || inheritable(parent, k),
        |k: Seq<u8>|
            if child.contains_key(k) {
                child[k]
            } else {
                parent[k]
            },
    )
}

/// The arguments of a call: registers 9 and 10 of the caller.
pub open spec fn call_args(regs: Seq<u64>) -> Seq<u64> {
    seq![regs[9], regs[10], 0, 0]
}

/// Whether the caller has given up the instance of a slot, which is reserved until
/// the instance comes back.
pub open spec fn gave_up(before: KernelFrame, after: KernelFrame, key: Seq<u8>) -> bool {
    &&& after.cnode@ == before.cnode@.remove(key)
    &&& after.pending@ == before.pending@.insert(key, ())
    &&& after == (KernelFrame { cnode: after.cnode, pending: after.pending, ..before })
}

/// Whether a call has failed with `e`: what it was to call is gone from its slot.
pub open spec fn call_failed(
    before: KernelFrame,
    after: KernelFrame,
    r: Result<Option<KernelFrame>, u32>,
    e: u32,
) -> bool {
    &&& r == Err::<Option<KernelFrame>, u32>(e)
    &&& same_but_slots(before, after)
    &&& after.cnode@ == before.cnode@.remove(reg_key(before.regs@[7]))
}

/// What a call comes to once its instance was made: the frame of the callee, or
/// the first thing that is missing.
pub open spec fn call_started(
    dir: CapMap,
    before: KernelFrame,
    after: KernelFrame,
    owner: usize,
    inst: ResidentInstance,
    r: Result<Option<KernelFrame>, u32>,
) -> bool {
    let key = reg_key(before.regs@[7]);
    match image_at(dir, inst.image_hash) {
        Err(e) => call_failed(before, after, r, e),
        Ok(img) => match endpoint_at(img.endpoints@, (before.regs@[8] & 0xFF) as u8) {
            None => call_failed(before, after, r, ERR_ENDPOINT_OOB),
            Some(ep) => match instance_slots(dir, inst.root) {
                Err(e) => call_failed(before, after, r, e),
                Ok(slots) => {
                    &&& gave_up(before, after, key)
                    &&& r matches Ok(Some(child)) && starts(
                        child,
                        inst,
                        inherited(seeded(slots, img), after.cnode@),
                        img,
                        ep,
                        call_args(before.regs@),
                        Some((owner, key)),
                    )
                },
            },
        },
    }
}

/// What the call that a frame asks for comes to. `Ok(None)`: the instance of the
/// slot is running already.
pub open spec fn call_done(
    dir: CapMap,
    before: KernelFrame,
    after: KernelFrame,
    owner: usize,
    r: Result<Option<KernelFrame>, u32>,
) -> bool {
    let key = reg_key(before.regs@[7]);
    if before.is_pending(key) {
        r == Ok::<Option<KernelFrame>, u32>(None) && after == before
    } else {
        match called_image(dir, before.slot(key)) {
            Err(e) => call_failed(before, after, r, e),
            Ok(_) => exists|inst: ResidentInstance| #[trigger]
                is_called(dir, before.slot(key)->0, inst) && call_started(
                    dir,
                    before,
                    after,
                    owner,
                    inst,
                    r,
                ),
        }
    }
}

/// Copy the slots of `parent` that a called frame inherits.
fn inherit_slots(child: &mut CNode, parent: &CNode)
    ensures
        final(child)@ == inherited(old(child)@, parent@),
{
    let scratch = Key::from_byte(SCRATCHPAD_SLOT);
    let list = parent.entries();
    let ghost before = child@;
    proof {
        lemma_entries_map(list@);
    }
    let mut i: usize = 0;
    while i < list.len()
        invariant
            i <= list@.len(),
            scratch@ == byte_key(SCRATCHPAD_SLOT),
            keys_distinct(list@),
            entries_map(list@) == parent@,
            forall|j: int|
                0 <= j < list@.len() ==> parent@.contains_key((#[trigger] list@[j]).0@)
                    && parent@[list@[j].0@] == list@[j].1,
            forall|k: Seq<u8>| #[trigger]
                child@.contains_key(k) <==> before.contains_key(k) || (exists|j: int|
                    0 <= j < i && (#[trigger] list@[j]).0@ == k && inheritable(parent@, k)),
            forall|k: Seq<u8>| #[trigger]
                child@.contains_key(k) ==> child@[k] == if before.contains_key(k) {
                    before[k]
                } else {
                    parent@[k]
                },
        decreases list@.len() - i,
    {
        let ghost earlier = child@;
        let ghost key = list@[i as int].0@;
        if !list[i].0.same(&scratch) {
            if let Target::Hash(h) = &list[i].1 {
                if child.get(&list[i].0).is_none() {
                    child.insert(list[i].0.duplicate(), Target::Hash(*h));
                }
            }
        }
        proof {
            assert(parent@.contains_key(key) && parent@[key] == list@[i as int].1);
            assert forall|k: Seq<u8>| #[trigger] child@.contains_key(k) <==> before.contains_key(k)
                || (exists|j: int|
                0 <= j < i + 1 && (#[trigger] list@[j]).0@ == k && inheritable(parent@, k)) by {
                if k == key && inheritable(parent@, k) {
                    assert(list@[i as int].0@ == k);
                } else {
                    assert(child@.contains_key(k) == earlier.contains_key(k));
                    if exists|j: int|
                        0 <= j < i + 1 && (#[trigger] list@[j]).0@ == k && inheritable(
                            parent@,
                            k,
                        ) {
                        let j = choose|j: int|
                            0 <= j < i + 1 && (#[trigger] list@[j]).0@ == k && inheritable(
                                parent@,
                                k,
                            );
                        assert(j < i);
                    }
                }
            }
        }
        i = i + 1;
    }
    assert(child@ =~= inherited(before, parent@)) by {
        assert forall|k: Seq<u8>| inheritable(parent@, k) implies child@.contains_key(k) by {
            assert(entries_map(list@).contains_key(k));
            let j = choose|j: int| 0 <= j < list@.len() && (#[trigger] list@[j]).0.id() == k;
            assert(list@[j].0@ == k);
        }
    }
}

impl Kernel {
    /// Call: move the instance in the slot of register 7 into a frame of its own,
    /// from the endpoint of register 8. The slot stays empty and reserved until the
    /// instance comes back to its owner, the frame at `logical_owner`.
    pub fn dispatch_host_call(&self, parent: &mut KernelFrame, logical_owner: usize) -> (r: Result<
        Option<KernelFrame>,
        u32,
    >)
        ensures
            call_done(self.directory@, *old(parent), *final(parent), logical_owner, r),
    {
        let slot = Key::from_reg(parent.regs[7]);
        let endpoint: u64 = parent.regs[8];
        assert(endpoint & 0xFF <= 0xFF) by (bit_vector);
        let selector: u8 = (endpoint & 0xFF) as u8;
        let args: [u64; 4] = [parent.regs[9], parent.regs[10], 0, 0];
        let ghost before = *parent;
        assert(args@ =~= call_args(before.regs@));
        if parent.slot_is_pending(&slot) {
            return Ok(None);
        }
        let target = match parent.cnode.remove(&slot) {
            Some(t) => t,
            None => return Err(ERR_HOST_CALL_SLOT_EMPTY),
        };
        let ghost taken = target;
        let inst = match target {
            Target::Instance(i) => *i,
            Target::Hash(h) => match self.directory.get(&h) {
                None => return Err(ERR_INSTANCE_NOT_FOUND),
                Some(cap) => match &**cap {
                    WireCap::Instance(w) => from_wire(w),
                    _ => return Err(ERR_INSTANCE_KIND),
                },
            },
            Target::Wire(c) => match &*c {
                WireCap::Instance(w) => from_wire(w),
                _ => return Err(ERR_INSTANCE_KIND),
            },
            Target::Bytes(_) => return Err(ERR_INSTANCE_KIND),
        };
        let ghost called = inst;
        assert(is_called(self.directory@, taken, called));
        let origin = FrameOrigin { owner: logical_owner, slot: slot.duplicate() };
        let mut child = match build_frame(&self.directory, inst, Some(origin), selector, &args) {
            Ok(frame) => frame,
            Err(e) => {
                return Err(e);
            },
        };
        parent.pending.insert(slot, ());
        inherit_slots(&mut child.cnode, &parent.cnode);
        Ok(Some(child))
    }
}

} // verus!
