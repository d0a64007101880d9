//! Frames of the call loop: a running instance with its slots and memory.
use vstd::prelude::*;

use std::sync::Arc;

use crate::cap::{EndpointDef, NUM_REGS};
use crate::hash::CapHash;
use crate::kernel::caps::{
    DataMem, KernelDirectory, KernelImageCap, KeySlotCap, Role, WireCap, WireInstance, WireTarget,
};
use crate::kernel::key::{key_seq, Key, KeyTable};
use crate::kernel::runtime::FrameRuntime;

verus! {

/// Nothing is published under the hash of the instance.
pub const ERR_INSTANCE_NOT_FOUND: u32 = 21;

/// What is there is not an instance.
pub const ERR_INSTANCE_KIND: u32 = 22;

/// Nothing is published under the hash of the image.
pub const ERR_IMAGE_NOT_FOUND: u32 = 23;

/// What is there is not an image.
pub const ERR_IMAGE_KIND: u32 = 24;

/// The image has no such endpoint.
pub const ERR_ENDPOINT_OOB: u32 = 25;

/// The slots of a frame.
pub type CNode = KeyTable<Target>;

/// What a slot of a frame holds.
#[derive(Debug)]
pub enum Target {
    /// A published cap.
    Hash(CapHash),
    /// A cap that came inside a published one.
    Wire(Arc<WireCap>),
    /// An instance with a single owner: this slot.
    Instance(Box<ResidentInstance>),
    /// Data made by the kernel.
    Bytes(Vec<u8>),
}

/// The slots of an instance that is not running.
#[derive(Debug)]
pub enum Root {
    /// As they were published.
    Wire(WireTarget),
    /// As the last run left them.
    Resident(CNode),
}

/// An instance that is not running. Its address space may be kept for the next
/// call.
#[derive(Debug)]
pub struct ResidentInstance {
    pub image_hash_chain: CapHash,
    pub image_hash: CapHash,
    pub root: Root,
    pub mem: DataMem,
    pub regs: [u64; NUM_REGS],
    pub pc: u64,
    pub gas_remaining: u64,
    pub role: Arc<Role>,
    pub runtime: Option<FrameRuntime>,
}

/// Where a running instance was moved from.
#[derive(Debug)]
pub struct FrameOrigin {
    pub owner: usize,
    pub slot: Key,
}

/// A running instance.
#[derive(Debug)]
pub struct KernelFrame {
    pub image_hash_chain: CapHash,
    pub image_hash: CapHash,
    pub cnode: CNode,
    pub mem: DataMem,
    pub regs: [u64; NUM_REGS],
    pub pc: u64,
    pub gas_remaining: u64,
    pub role: Arc<Role>,
    /// Where the instance goes back to.
    pub origin: Option<FrameOrigin>,
    /// Slots whose instances are running in other frames.
    pub pending: KeyTable<()>,
    /// Slots that may not be written.
    pub pinned: Vec<Key>,
    /// For each data page, how far it is materialized.
    pub mat_state: Vec<u8>,
    /// The read-only units that are materialized.
    pub ro_units: Vec<u32>,
    pub runtime: Option<FrameRuntime>,
}

/// The published caps by hash.
pub type CapMap = Map<CapHash, Arc<WireCap>>;

/// The bytes of the hash that stands for no cap.
pub open spec fn zero_bytes() -> Seq<u8> {
    Seq::new(32, |i: int| 0u8)
}

/// The hash that stands for no cap.
pub fn zero_hash() -> (hash: CapHash)
    ensures
        hash@ == zero_bytes(),
{
    let hash: CapHash = [0u8; 32];
    assert(hash@ =~= zero_bytes());
    hash
}

fn is_zero_hash(hash: &CapHash) -> (zero: bool)
    ensures
        zero == (hash@ == zero_bytes()),
{
    let zero = zero_hash();
    crate::hash::same_hash(hash, &zero)
}

/// What a slot of a published cnode becomes in a frame.
pub open spec fn target_of(t: WireTarget) -> Target {
    match t {
        WireTarget::Hash(h) => Target::Hash(h),
        WireTarget::Owned(c) => Target::Wire(c),
    }
}

/// The slots of a published cnode.
pub open spec fn wire_slots(slots: Seq<(Key, WireTarget)>) -> Map<Seq<u8>, Target>
    decreases slots.len(),
{
    if slots.len() == 0 {
        Map::empty()
    } else {
        wire_slots(slots.drop_last()).insert(slots.last().0@, target_of(slots.last().1))
    }
}

/// The slots that a published root stands for.
pub open spec fn root_slots(dir: CapMap, root: WireTarget) -> Result<Map<Seq<u8>, Target>, u32> {
    match root {
        WireTarget::Hash(h) => if h@ == zero_bytes() {
            Ok(Map::empty())
        } else if !dir.contains_key(h) {
            Err(ERR_INSTANCE_NOT_FOUND)
        } else {
            match *dir[h] {
                WireCap::CNode(slots) => Ok(wire_slots(slots@)),
                _ => Err(ERR_INSTANCE_KIND),
            }
        },
        WireTarget::Owned(c) => match *c {
            WireCap::CNode(slots) => Ok(wire_slots(slots@)),
            _ => Err(ERR_INSTANCE_KIND),
        },
    }
}

fn copy_wire_cnode(slots: &Vec<(Key, WireTarget)>) -> (cnode: CNode)
    ensures
        cnode@ == wire_slots(slots@),
{
    let mut cnode: CNode = KeyTable::new();
    let mut i: usize = 0;
    while i < slots.len()
        invariant
            i <= slots@.len(),
            cnode@ == wire_slots(slots@.take(i as int)),
        decreases slots@.len() - i,
    {
        let target = match &slots[i].1 {
            WireTarget::Hash(h) => Target::Hash(*h),
            WireTarget::Owned(c) => Target::Wire(Arc::clone(c)),
        };
        cnode.insert(slots[i].0.duplicate(), target);
        assert(slots@.take(i + 1).drop_last() =~= slots@.take(i as int));
        i = i + 1;
    }
    assert(slots@.take(i as int) =~= slots@);
    cnode
}

/// The slots of a published root.
pub fn materialize_root_cnode(dir: &KernelDirectory, root: &WireTarget) -> (cnode: Result<
    CNode,
    u32,
>)
    ensures
        match root_slots(dir@, *root) {
            Ok(slots) => cnode matches Ok(c) && c@ == slots,
            Err(e) => cnode == Err::<CNode, u32>(e),
        },
{
    match root {
        WireTarget::Hash(h) => {
            if is_zero_hash(h) {
                return Ok(KeyTable::new());
            }
            match dir.get(h) {
                None => Err(ERR_INSTANCE_NOT_FOUND),
                Some(cap) => match &**cap {
                    WireCap::CNode(slots) => Ok(copy_wire_cnode(slots)),
                    _ => Err(ERR_INSTANCE_KIND),
                },
            }
        },
        WireTarget::Owned(c) => match &**c {
            WireCap::CNode(slots) => Ok(copy_wire_cnode(slots)),
            _ => Err(ERR_INSTANCE_KIND),
        },
    }
}

/// The image under a hash.
pub open spec fn image_at(dir: CapMap, hash: CapHash) -> Result<KernelImageCap, u32> {
    if !dir.contains_key(hash) {
        Err(ERR_IMAGE_NOT_FOUND)
    } else {
        match *dir[hash] {
            WireCap::Image(img) => Ok(img),
            _ => Err(ERR_IMAGE_KIND),
        }
    }
}

/// The image under a hash.
pub fn find_image<'a>(dir: &'a KernelDirectory, hash: &CapHash) -> (image: Result<
    &'a KernelImageCap,
    u32,
>)
    ensures
        match image_at(dir@, *hash) {
            Ok(img) => image matches Ok(i) && *i == img,
            Err(e) => image matches Err(c) && c == e,
        },
{
    match dir.get(hash) {
        None => Err(ERR_IMAGE_NOT_FOUND),
        Some(cap) => match &**cap {
            WireCap::Image(img) => Ok(img),
            _ => Err(ERR_IMAGE_KIND),
        },
    }
}

/// The first endpoint with a selector.
pub open spec fn endpoint_at(endpoints: Seq<(u8, EndpointDef)>, selector: u8) -> Option<EndpointDef>
    decreases endpoints.len(),
{
    if endpoints.len() == 0 {
        None
    } else if endpoints[0].0 == selector {
        Some(endpoints[0].1)
    } else {
        endpoint_at(endpoints.drop_first(), selector)
    }
}

/// The place of the endpoint with a selector.
pub fn find_endpoint(endpoints: &Vec<(u8, EndpointDef)>, selector: u8) -> (found: Option<usize>)
    ensures
        match found {
            Some(i) => i < endpoints@.len() && endpoint_at(endpoints@, selector) == Some(
                endpoints@[i as int].1,
            ),
            None => endpoint_at(endpoints@, selector) is None,
        },
{
    let mut i: usize = 0;
    assert(endpoints@.skip(0) =~= endpoints@);
    while i < endpoints.len()
        invariant
            i <= endpoints@.len(),
            endpoint_at(endpoints@, selector) == endpoint_at(endpoints@.skip(i as int), selector),
        decreases endpoints@.len() - i,
    {
        assert(endpoints@.skip(i as int).drop_first() =~= endpoints@.skip(i + 1));
        if endpoints[i].0 == selector {
            return Some(i);
        }
        i = i + 1;
    }
    None
}

/// The registers of a call: those of the endpoint, with the arguments in 7 to 10.
pub open spec fn call_regs(ep: EndpointDef, args: Seq<u64>) -> Seq<u64> {
    Seq::new(
        NUM_REGS as nat,
        |i: int|
            if 7 <= i < 11 {
                args[i - 7]
            } else {
                ep.initial_regs@[i]
            },
    )
}

/// The slots with the pinned caps of an image over them.
pub open spec fn with_pinned(
    slots: Map<Seq<u8>, Target>,
    pinned: Seq<KeySlotCap>,
) -> Map<Seq<u8>, Target>
    decreases pinned.len(),
{
    if pinned.len() == 0 {
        slots
    } else {
        with_pinned(slots, pinned.drop_last()).insert(
            pinned.last().slot@,
            Target::Hash(pinned.last().cap_hash),
        )
    }
}

/// The slots with the initial caps of an image where nothing is.
pub open spec fn with_initial(
    slots: Map<Seq<u8>, Target>,
    initial: Seq<KeySlotCap>,
) -> Map<Seq<u8>, Target>
    decreases initial.len(),
{
    if initial.len() == 0 {
        slots
    } else {
        let before = with_initial(slots, initial.drop_last());
        if before.contains_key(initial.last().slot@) {
            before
        } else {
            before.insert(initial.last().slot@, Target::Hash(initial.last().cap_hash))
        }
    }
}

/// The slots that a run starts with.
pub open spec fn seeded(slots: Map<Seq<u8>, Target>, img: KernelImageCap) -> Map<Seq<u8>, Target> {
    with_initial(with_pinned(slots, img.pinned@), img.initial@)
}

/// The slots of the pinned caps.
pub open spec fn slot_keys(pinned: Seq<KeySlotCap>) -> Seq<Seq<u8>> {
    pinned.map_values(|p: KeySlotCap| p.slot@)
}

fn seed_cnode(cnode: &mut CNode, img: &KernelImageCap)
    ensures
        final(cnode)@ == seeded(old(cnode)@, *img),
{
    let ghost before = cnode@;
    let mut i: usize = 0;
    assert(img.pinned@.take(0) =~= Seq::<KeySlotCap>::empty());
    while i < img.pinned.len()
        invariant
            i <= img.pinned@.len(),
            cnode@ == with_pinned(before, img.pinned@.take(i as int)),
        decreases img.pinned@.len() - i,
    {
        cnode.insert(img.pinned[i].slot.duplicate(), Target::Hash(img.pinned[i].cap_hash));
        assert(img.pinned@.take(i + 1).drop_last() =~= img.pinned@.take(i as int));
        i = i + 1;
    }
    assert(img.pinned@.take(i as int) =~= img.pinned@);
    let ghost pinned = cnode@;
    let mut j: usize = 0;
    assert(img.initial@.take(0) =~= Seq::<KeySlotCap>::empty());
    while j < img.initial.len()
        invariant
            j <= img.initial@.len(),
            cnode@ == with_initial(pinned, img.initial@.take(j as int)),
        decreases img.initial@.len() - j,
    {
        if cnode.get(&img.initial[j].slot).is_none() {
            cnode.insert(img.initial[j].slot.duplicate(), Target::Hash(img.initial[j].cap_hash));
        }
        assert(img.initial@.take(j + 1).drop_last() =~= img.initial@.take(j as int));
        j = j + 1;
    }
    assert(img.initial@.take(j as int) =~= img.initial@);
}

fn pinned_keys(pinned: &Vec<KeySlotCap>) -> (keys: Vec<Key>)
    ensures
        key_seq(keys@) == slot_keys(pinned@),
{
    let mut keys: Vec<Key> = Vec::new();
    let mut i: usize = 0;
    while i < pinned.len()
        invariant
            i <= pinned@.len(),
            keys@.len() == i,
            forall|j: int| 0 <= j < i ==> (#[trigger] keys@[j])@ == pinned@[j].slot@,
        decreases pinned@.len() - i,
    {
        keys.push(pinned[i].slot.duplicate());
        i = i + 1;
    }
    assert(key_seq(keys@) =~= slot_keys(pinned@));
    keys
}

/// The slots that an instance starts a run with, before its image adds its own.
pub open spec fn instance_slots(dir: CapMap, root: Root) -> Result<Map<Seq<u8>, Target>, u32> {
    match root {
        Root::Wire(w) => root_slots(dir, w),
        Root::Resident(c) => Ok(c@),
    }
}

/// The owner and the slot of an origin.
pub open spec fn origin_of(origin: Option<FrameOrigin>) -> Option<(usize, Seq<u8>)> {
    match origin {
        Some(o) => Some((o.owner, o.slot@)),
        None => None,
    }
}

/// Whether `frame` is `inst` with the given slots, about to run from an endpoint of `img`.
pub open spec fn starts(
    frame: KernelFrame,
    inst: ResidentInstance,
    slots: Map<Seq<u8>, Target>,
    img: KernelImageCap,
    ep: EndpointDef,
    args: Seq<u64>,
    origin: Option<(usize, Seq<u8>)>,
) -> bool {
    &&& frame.image_hash_chain == inst.image_hash_chain
    &&& frame.image_hash == inst.image_hash
    &&& frame.cnode@ == slots
    &&& frame.mem == inst.mem
    &&& frame.regs@ == call_regs(ep, args)
    &&& frame.pc == ep.entry_pc
    &&& frame.gas_remaining == 0
    &&& frame.role == inst.role
    &&& origin_of(frame.origin) == origin
    &&& frame.pending@ == Map::<Seq<u8>, ()>::empty()
    &&& key_seq(frame.pinned@) == slot_keys(img.pinned@)
    &&& frame.mat_state@ == Seq::new(inst.mem.backing@.len(), |i: int| 0u8)
    &&& frame.ro_units@ == Seq::<u32>::empty()
    &&& frame.runtime == inst.runtime
}

/// What building a frame comes to: the frame, or the first thing that is missing.
pub open spec fn frame_built(
    dir: CapMap,
    inst: ResidentInstance,
    origin: Option<FrameOrigin>,
    selector: u8,
    args: Seq<u64>,
    built: Result<KernelFrame, u32>,
) -> bool {
    match image_at(dir, inst.image_hash) {
        Err(e) => built == Err::<KernelFrame, u32>(e),
        Ok(img) => match endpoint_at(img.endpoints@, selector) {
            None => built == Err::<KernelFrame, u32>(ERR_ENDPOINT_OOB),
            Some(ep) => match instance_slots(dir, inst.root) {
                Err(e) => built == Err::<KernelFrame, u32>(e),
                Ok(slots) => built matches Ok(frame) && starts(
                    frame,
                    inst,
                    seeded(slots, img),
                    img,
                    ep,
                    args,
                    origin_of(origin),
                ),
            },
        },
    }
}

fn zero_states(count: usize) -> (states: Vec<u8>)
    ensures
        states@ == Seq::new(count as nat, |i: int| 0u8),
{
    let mut states: Vec<u8> = Vec::new();
    let mut i: usize = 0;
    while i < count
        invariant
            i <= count,
            states@ == Seq::new(i as nat, |j: int| 0u8),
        decreases count - i,
    {
        states.push(0);
        assert(states@ =~= Seq::new((i + 1) as nat, |j: int| 0u8));
        i = i + 1;
    }
    states
}

/// Move an instance into a frame that is about to run from the endpoint with the
/// selector. A call is a fresh register file: what the instance had in its
/// registers does not seed it.
pub fn build_frame(
    dir: &KernelDirectory,
    inst: ResidentInstance,
    origin: Option<FrameOrigin>,
    selector: u8,
    args: &[u64; 4],
) -> (built: Result<KernelFrame, u32>)
    ensures
        frame_built(dir@, inst, origin, selector, args@, built),
{
    let img = match find_image(dir, &inst.image_hash) {
        Ok(img) => img,
        Err(e) => return Err(e),
    };
    let at: usize = match find_endpoint(&img.endpoints, selector) {
        Some(i) => i,
        None => return Err(ERR_ENDPOINT_OOB),
    };
    let mut regs: [u64; NUM_REGS] = img.endpoints[at].1.initial_regs;
    regs[7] = args[0];
    regs[8] = args[1];
    regs[9] = args[2];
    regs[10] = args[3];
    let pc: u64 = img.endpoints[at].1.entry_pc as u64;
    assert(regs@ =~= call_regs(img.endpoints@[at as int].1, args@));
    let mut cnode = match inst.root {
        Root::Wire(w) => match materialize_root_cnode(dir, &w) {
            Ok(c) => c,
            Err(e) => return Err(e),
        },
        Root::Resident(c) => c,
    };
    seed_cnode(&mut cnode, img);
    let pages: usize = inst.mem.backing.len();
    Ok(
        KernelFrame {
            image_hash_chain: inst.image_hash_chain,
            image_hash: inst.image_hash,
            cnode,
            mem: inst.mem,
            regs,
            pc,
            gas_remaining: 0,
            role: inst.role,
            origin,
            pending: KeyTable::new(),
            pinned: pinned_keys(&img.pinned),
            mat_state: zero_states(pages),
            ro_units: Vec::new(),
            runtime: inst.runtime,
        },
    )
}

/// Whether `copy` is the published instance `wire`, not running.
pub open spec fn is_from_wire(copy: ResidentInstance, wire: WireInstance) -> bool {
    &&& copy.image_hash_chain == wire.image_hash_chain
    &&& copy.image_hash == wire.image_hash
    &&& copy.root == Root::Wire(wire.root_cnode)
    &&& copy.mem.same_as(&wire.mem)
    &&& copy.regs == wire.regs
    &&& copy.pc == wire.pc
    &&& copy.gas_remaining == wire.gas_remaining
    &&& copy.role == wire.role
    &&& copy.runtime is None
}

/// The published instance, not running.
pub fn from_wire(wire: &WireInstance) -> (copy: ResidentInstance)
    ensures
        is_from_wire(copy, *wire),
{
    ResidentInstance {
        image_hash_chain: wire.image_hash_chain,
        image_hash: wire.image_hash,
        root: Root::Wire(wire.root_cnode.duplicate()),
        mem: wire.mem.duplicate(),
        regs: wire.regs,
        pc: wire.pc,
        gas_remaining: wire.gas_remaining,
        role: Arc::clone(&wire.role),
        runtime: None,
    }
}

/// Whether `copy` is a copy of `inst`: what only the owner of an instance has, its
/// slots since its last run and its address space, is not copied.
pub open spec fn is_copy(copy: ResidentInstance, inst: ResidentInstance) -> bool {
    &&& copy.image_hash_chain == inst.image_hash_chain
    &&& copy.image_hash == inst.image_hash
    &&& match inst.root {
        Root::Wire(w) => copy.root == Root::Wire(w),
        Root::Resident(_) => copy.root matches Root::Wire(WireTarget::Hash(h)) && h@
            == zero_bytes(),
    }
    &&& copy.mem.same_as(&inst.mem)
    &&& copy.regs == inst.regs
    &&& copy.pc == inst.pc
    &&& copy.gas_remaining == inst.gas_remaining
    &&& copy.role == inst.role
    &&& copy.runtime is None
}

fn copy_instance(inst: &ResidentInstance) -> (copy: ResidentInstance)
    ensures
        is_copy(copy, *inst),
{
    let root = match &inst.root {
        Root::Wire(w) => Root::Wire(w.duplicate()),
        Root::Resident(_) => Root::Wire(WireTarget::Hash(zero_hash())),
    };
    ResidentInstance {
        image_hash_chain: inst.image_hash_chain,
        image_hash: inst.image_hash,
        root,
        mem: inst.mem.duplicate(),
        regs: inst.regs,
        pc: inst.pc,
        gas_remaining: inst.gas_remaining,
        role: Arc::clone(&inst.role),
        runtime: None,
    }
}

/// What is known of the instance in a slot without moving it.
pub struct InstanceIdentity {
    pub image_hash_chain: CapHash,
    pub image_hash: CapHash,
    pub role: Arc<Role>,
}

/// The published cap that a slot leads to.
pub open spec fn wire_cap_at(dir: CapMap, target: Option<Target>) -> Option<Arc<WireCap>> {
    match target {
        Some(Target::Hash(h)) => if dir.contains_key(h) {
            Some(dir[h])
        } else {
            None
        },
        Some(Target::Wire(c)) => Some(c),
        _ => None,
    }
}

/// The instance that a slot leads to.
pub open spec fn identity_at(dir: CapMap, target: Option<Target>) -> Option<InstanceIdentity> {
    match target {
        Some(Target::Instance(i)) => Some(
            InstanceIdentity {
                image_hash_chain: i.image_hash_chain,
                image_hash: i.image_hash,
                role: i.role,
            },
        ),
        _ => match wire_cap_at(dir, target) {
            Some(c) => match *c {
                WireCap::Instance(w) => Some(
                    InstanceIdentity {
                        image_hash_chain: w.image_hash_chain,
                        image_hash: w.image_hash,
                        role: w.role,
                    },
                ),
                _ => None,
            },
            None => None,
        },
    }
}

/// Whether `copy` is a copy of the instance that a slot leads to.
pub open spec fn copied_from(
    dir: CapMap,
    target: Option<Target>,
    copy: Option<ResidentInstance>,
) -> bool {
    match target {
        Some(Target::Instance(i)) => copy matches Some(c) && is_copy(c, *i),
        _ => match wire_cap_at(dir, target) {
            Some(c) => match *c {
                WireCap::Instance(w) => copy matches Some(r) && is_from_wire(r, w),
                _ => copy is None,
            },
            None => copy is None,
        },
    }
}

/// What a map holds under a key.
pub open spec fn slot_of(slots: Map<Seq<u8>, Target>, key: Seq<u8>) -> Option<Target> {
    if slots.contains_key(key) {
        Some(slots[key])
    } else {
        None
    }
}

fn wire_identity(cap: &Arc<WireCap>) -> (id: Option<InstanceIdentity>)
    ensures
        id == (match **cap {
            WireCap::Instance(w) => Some(
                InstanceIdentity {
                    image_hash_chain: w.image_hash_chain,
                    image_hash: w.image_hash,
                    role: w.role,
                },
            ),
            _ => None,
        }),
{
    match &**cap {
        WireCap::Instance(w) => Some(
            InstanceIdentity {
                image_hash_chain: w.image_hash_chain,
                image_hash: w.image_hash,
                role: Arc::clone(&w.role),
            },
        ),
        _ => None,
    }
}

impl KernelFrame {
    /// What the frame holds in a slot.
    pub open spec fn slot(&self, key: Seq<u8>) -> Option<Target> {
        slot_of(self.cnode@, key)
    }

    /// Whether the instance of a slot is running.
    pub open spec fn is_pending(&self, key: Seq<u8>) -> bool {
        self.pending@.contains_key(key)
    }

    /// Whether a slot may not be written.
    pub open spec fn write_blocked(&self, key: Seq<u8>) -> bool {
        crate::kernel::key::has_key(self.pinned@, key) || self.is_pending(key)
    }

    /// Whether the instance of a slot is running.
    pub fn slot_is_pending(&self, key: &Key) -> (pending: bool)
        ensures
            pending == self.is_pending(key@),
    {
        self.pending.get(key).is_some()
    }

    /// Whether a slot may not be written.
    pub fn slot_write_blocked(&self, key: &Key) -> (blocked: bool)
        ensures
            blocked == self.write_blocked(key@),
    {
        crate::kernel::key::contains_key(self.pinned.as_slice(), key) || self.slot_is_pending(key)
    }

    /// The instance that a slot leads to.
    pub fn instance_identity(&self, dir: &KernelDirectory, key: &Key) -> (id: Option<
        InstanceIdentity,
    >)
        ensures
            id == identity_at(dir@, self.slot(key@)),
    {
        match self.cnode.get(key) {
            None => None,
            Some(Target::Instance(i)) => Some(
                InstanceIdentity {
                    image_hash_chain: i.image_hash_chain,
                    image_hash: i.image_hash,
                    role: Arc::clone(&i.role),
                },
            ),
            Some(Target::Hash(h)) => match dir.get(h) {
                Some(cap) => wire_identity(cap),
                None => None,
            },
            Some(Target::Wire(c)) => wire_identity(c),
            Some(Target::Bytes(_)) => None,
        }
    }

    /// A copy of the instance that a slot leads to.
    pub fn read_instance(&self, dir: &KernelDirectory, key: &Key) -> (copy: Option<
        ResidentInstance,
    >)
        ensures
            copied_from(dir@, self.slot(key@), copy),
    {
        match self.cnode.get(key) {
            None => None,
            Some(Target::Instance(i)) => Some(copy_instance(i)),
            Some(Target::Hash(h)) => match dir.get(h) {
                Some(cap) => match &**cap {
                    WireCap::Instance(w) => Some(from_wire(w)),
                    _ => None,
                },
                None => None,
            },
            Some(Target::Wire(c)) => match &**c {
                WireCap::Instance(w) => Some(from_wire(w)),
                _ => None,
            },
            Some(Target::Bytes(_)) => None,
        }
    }
}

} // verus!
