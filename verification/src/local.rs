//! Running a published instance in process, without a guest kernel: what the
//! interpreter starts from, and what its end means.
use vstd::prelude::*;

use std::sync::Arc;

use crate::abi::InvocationResult;
use crate::error::MapError;
use crate::exec::{compose_entry_regs, entry_gprs, ExitReason, GasCounter, Regs};
use crate::hash::CapHash;
use crate::kernel::call_loop::SCRATCHPAD_HEAD_LEN;
use crate::kernel::caps::{
    DataMem, KernelDirectory, KernelImageCap, KernelMapping, WireCap, WireInstance, PAGE_BYTES,
};
use crate::kernel::frame::{endpoint_at, find_endpoint, zero_bytes, zero_hash, CapMap};
use crate::mem::{map_check, overlaid, overlay_check, overlay_into, Access, Cell, Mem};

verus! {

/// A part of the memory image that is laid over memory read-only.
#[derive(Clone, Copy, Debug, PartialEq, Eq)]
pub struct RoOverlay {
    pub start: u32,
    pub image_off: usize,
    pub len: usize,
}

/// What the interpreter starts from.
#[derive(Debug)]
pub struct ProgramSpec {
    pub image_hash: CapHash,
    pub code_base: u32,
    pub data_base: u32,
    pub mem_image: Vec<u8>,
    pub ro_overlays: Vec<RoOverlay>,
    pub declared_mem_size: u32,
    pub regs: Regs,
}

/// Why an instance could not be started.
#[derive(Clone, Copy, Debug, PartialEq, Eq)]
pub enum InvokeError {
    InstanceNotPublished,
    NotAnInstance,
    ImageNotCached,
    NotAnImage,
}

impl InvokeError {
    pub open spec fn text(&self) -> Seq<char> {
        match self {
            InvokeError::InstanceNotPublished => "invoke_cached: instance not published"@,
            InvokeError::NotAnInstance => "invoke_cached: cap at hash is not an Instance"@,
            InvokeError::ImageNotCached => "invoke_cached: image not in cache"@,
            InvokeError::NotAnImage => "invoke_cached: cap at image_hash is not an Image"@,
        }
    }

    /// The message.
    pub fn message(&self) -> (message: String)
        ensures
            message@ == self.text(),
    {
        match self {
            InvokeError::InstanceNotPublished => "invoke_cached: instance not published".to_string(),
            InvokeError::NotAnInstance => {
                "invoke_cached: cap at hash is not an Instance".to_string()
            },
            InvokeError::ImageNotCached => "invoke_cached: image not in cache".to_string(),
            InvokeError::NotAnImage => {
                "invoke_cached: cap at image_hash is not an Image".to_string()
            },
        }
    }
}

/// The bytes of a memory.
pub open spec fn image_of(mem: DataMem) -> Seq<u8> {
    Seq::new((mem.backing@.len() * PAGE_BYTES) as nat, |i: int| mem.byte(i))
}

/// The bytes of a memory.
fn memory_image(mem: &DataMem) -> (image: Vec<u8>)
    requires
        mem.backing@.len() * PAGE_BYTES <= u32::MAX,
    ensures
        image@ == image_of(*mem),
{
    let len: u64 = mem.content_len();
    let mut image: Vec<u8> = Vec::new();
    let mut i: u64 = 0;
    while i < len
        invariant
            i <= len,
            len == mem.backing@.len() * PAGE_BYTES,
            len <= u32::MAX,
            image@.len() == i,
            forall|j: int| 0 <= j < i ==> #[trigger] image@[j] == mem.byte(j),
        decreases len - i,
    {
        let page = mem.page_at((i / PAGE_BYTES) as usize);
        let at: u64 = i % PAGE_BYTES;
        let byte: u8 = match &page {
            Some(p) => {
                let n: usize = p.bytes.len();
                if at < n as u64 {
                    p.bytes[at as usize]
                } else {
                    0
                }
            },
            None => 0,
        };
        image.push(byte);
        i = i + 1;
    }
    assert(image@ =~= image_of(*mem));
    image
}

/// The part of the memory image that a mapping lays over memory read-only, if it is
/// pinned, has a source, and is not beyond the image.
pub open spec fn ro_overlay(m: KernelMapping, data_base: u32, image_len: int) -> Option<RoOverlay> {
    let off = if m.start > data_base {
        m.start - data_base
    } else {
        0
    };
    let room = if image_len > off {
        image_len - off
    } else {
        0
    };
    let len = if m.size <= room {
        m.size as int
    } else {
        room
    };
    if m.source is Some && m.pinned && len > 0 {
        Some(
            RoOverlay {
                start: (m.start % 0x1_0000_0000) as u32,
                image_off: off as usize,
                len: len as usize,
            },
        )
    } else {
        None
    }
}

/// The parts of the memory image that mappings lay over memory read-only, in order.
pub open spec fn ro_overlays(mappings: Seq<KernelMapping>, data_base: u32, image_len: int) -> Seq<
    RoOverlay,
>
    decreases mappings.len(),
{
    if mappings.len() == 0 {
        Seq::empty()
    } else {
        let before = ro_overlays(mappings.drop_last(), data_base, image_len);
        match ro_overlay(mappings.last(), data_base, image_len) {
            Some(o) => before.push(o),
            None => before,
        }
    }
}

fn find_ro_overlays(mappings: &Vec<KernelMapping>, data_base: u32, image_len: u32) -> (overlays: Vec<
    RoOverlay,
>)
    ensures
        overlays@ == ro_overlays(mappings@, data_base, image_len as int),
{
    let mut overlays: Vec<RoOverlay> = Vec::new();
    let mut i: usize = 0;
    while i < mappings.len()
        invariant
            i <= mappings@.len(),
            overlays@ == ro_overlays(mappings@.take(i as int), data_base, image_len as int),
        decreases mappings@.len() - i,
    {
        let m = &mappings[i];
        assert(mappings@.take(i + 1).drop_last() =~= mappings@.take(i as int));
        let off: u64 = if m.start > data_base as u64 {
            m.start - data_base as u64
        } else {
            0
        };
        let room: u64 = if image_len as u64 > off {
            image_len as u64 - off
        } else {
            0
        };
        let len: u64 = if m.size <= room {
            m.size
        } else {
            room
        };
        if m.source.is_some() && m.pinned && len > 0 {
            let overlay = RoOverlay {
                start: (m.start % 0x1_0000_0000) as u32,
                image_off: off as usize,
                len: len as usize,
            };
            assert(ro_overlay(mappings@[i as int], data_base, image_len as int) == Some(overlay));
            overlays.push(overlay);
        }
        i = i + 1;
    }
    assert(mappings@.take(i as int) =~= mappings@);
    overlays
}

/// Whether a program is an endpoint of an instance with arguments.
pub open spec fn lowered(
    spec: ProgramSpec,
    instance: WireInstance,
    image: KernelImageCap,
    data_base: u32,
    selector: u8,
    args: Seq<u64>,
) -> bool {
    let extent = instance.mem.backing@.len() * PAGE_BYTES;
    let ep = endpoint_at(image.endpoints@, selector)->0;
    &&& spec.image_hash == instance.image_hash
    &&& spec.code_base == image.code_base
    &&& spec.data_base == data_base
    &&& spec.mem_image@ == image_of(instance.mem)
    &&& spec.ro_overlays@ == ro_overlays(image.mappings@, data_base, extent as int)
    &&& spec.declared_mem_size == if data_base + extent <= u32::MAX {
        data_base + extent
    } else {
        u32::MAX as int
    }
    &&& spec.regs.pc == ep.entry_pc
    &&& spec.regs.gpr@ == entry_gprs(ep.initial_regs@, instance.regs@, args)
}

/// What the interpreter starts from to run an endpoint of an instance: the memory of
/// the instance, its pinned mappings read-only, and registers that the endpoint, the
/// instance and the arguments set, in this order.
pub fn run_instance(
    instance: &WireInstance,
    image: &KernelImageCap,
    data_base: u32,
    selector: u8,
    args: &[u64; 4],
) -> (spec: ProgramSpec)
    requires
        endpoint_at(image.endpoints@, selector) is Some,
        instance.mem.backing@.len() * PAGE_BYTES <= u32::MAX,
    ensures
        lowered(spec, *instance, *image, data_base, selector, args@),
{
    let extent: u32 = instance.mem.content_len() as u32;
    let mem_image = memory_image(&instance.mem);
    let ro_overlays = find_ro_overlays(&image.mappings, data_base, extent);
    let i: usize = match find_endpoint(&image.endpoints, selector) {
        Some(i) => i,
        None => vstd::pervasive::unreached(),
    };
    let ep = &image.endpoints[i].1;
    let regs = compose_entry_regs(ep.entry_pc, &ep.initial_regs, &instance.regs, args);
    ProgramSpec {
        image_hash: instance.image_hash,
        code_base: image.code_base,
        data_base,
        mem_image,
        ro_overlays,
        declared_mem_size: data_base.saturating_add(extent),
        regs,
    }
}

/// What is at `a` after the first `n` read-only parts were laid over memory.
pub open spec fn laid(before: Option<Cell>, spec: ProgramSpec, n: nat, a: int) -> Option<Cell>
    decreases n,
{
    if n == 0 {
        before
    } else {
        let o = spec.ro_overlays@[n - 1];
        overlaid(
            laid(before, spec, (n - 1) as nat, a),
            o.start,
            spec.mem_image@.subrange(o.image_off as int, o.image_off + o.len),
            Access::ReadOnly,
            a,
        )
    }
}

/// What is at `a` in the memory that a program starts with.
pub open spec fn start_cell(spec: ProgramSpec, a: int) -> Option<Cell> {
    let base = if spec.data_base <= a < spec.data_base + spec.mem_image@.len() {
        Some(Cell { access: Access::ReadWrite, byte: spec.mem_image@[a - spec.data_base] })
    } else {
        None
    };
    laid(base, spec, spec.ro_overlays@.len(), a)
}

/// Whether the read-only parts are in the memory image.
pub open spec fn overlays_inside(spec: ProgramSpec) -> bool {
    forall|i: int|
        0 <= i < spec.ro_overlays@.len() ==> (#[trigger] spec.ro_overlays@[i]).image_off
            + spec.ro_overlays@[i].len <= spec.mem_image@.len()
}

/// The read-only parts of a lowered program are in its memory image.
pub proof fn law_overlays_are_inside(
    spec: ProgramSpec,
    instance: WireInstance,
    image: KernelImageCap,
    data_base: u32,
    selector: u8,
    args: Seq<u64>,
)
    requires
        lowered(spec, instance, image, data_base, selector, args),
        instance.mem.backing@.len() * PAGE_BYTES <= u32::MAX,
    ensures
        overlays_inside(spec),
{
    lemma_overlays_inside(image.mappings@, data_base, spec.mem_image@.len() as int);
}

proof fn lemma_overlays_inside(mappings: Seq<KernelMapping>, data_base: u32, len: int)
    requires
        0 <= len <= u32::MAX,
    ensures
        forall|i: int|
            0 <= i < ro_overlays(mappings, data_base, len).len() ==> (#[trigger] ro_overlays(
                mappings,
                data_base,
                len,
            )[i]).image_off + ro_overlays(mappings, data_base, len)[i].len <= len,
    decreases mappings.len(),
{
    if mappings.len() > 0 {
        lemma_overlays_inside(mappings.drop_last(), data_base, len);
        let before = ro_overlays(mappings.drop_last(), data_base, len);
        let all = ro_overlays(mappings, data_base, len);
        assert forall|i: int| 0 <= i < all.len() implies (#[trigger] all[i]).image_off + all[i].len
            <= len by {
            if i < before.len() {
                assert(all[i] == before[i]);
            } else {
                assert(ro_overlay(mappings.last(), data_base, len) == Some(all[i]));
            }
        }
    }
}

/// Whether the memory image and the first `n` read-only parts can be mapped, or why
/// the first that cannot cannot.
pub open spec fn start_check(spec: ProgramSpec, n: nat) -> Result<(), MapError>
    decreases n,
{
    if n == 0 {
        if spec.mem_image@.len() == 0 {
            Ok(())
        } else {
            map_check(
                spec.data_base as u64,
                spec.mem_image@.len() as u64,
                spec.mem_image@.len(),
            )
        }
    } else {
        let o = spec.ro_overlays@[n - 1];
        match start_check(spec, (n - 1) as nat) {
            Err(e) => Err(e),
            Ok(()) => overlay_check(
                o.start,
                spec.mem_image@.subrange(o.image_off as int, o.image_off + o.len),
            ),
        }
    }
}

proof fn lemma_start_check(spec: ProgramSpec, m: nat, n: nat)
    requires
        m <= n,
        start_check(spec, m) is Err,
    ensures
        start_check(spec, n) == start_check(spec, m),
    decreases n,
{
    if m < n {
        lemma_start_check(spec, m, (n - 1) as nat);
    }
}

/// The memory that a program starts with, or why it cannot be mapped.
pub fn local_memory(spec: &ProgramSpec) -> (mem: Result<Mem, MapError>)
    requires
        overlays_inside(*spec),
    ensures
        match start_check(*spec, spec.ro_overlays@.len()) {
            Ok(()) => mem matches Ok(m) && forall|a: int| #[trigger]
                m.cell(a) == start_cell(*spec, a),
            Err(e) => mem == Err::<Mem, MapError>(e),
        },
{
    let mut mem = Mem::new();
    let extent: usize = spec.mem_image.len();
    if extent > 0 {
        match mem.map_region(
            spec.data_base as u64,
            extent as u64,
            Access::ReadWrite,
            Some(spec.mem_image.as_slice()),
        ) {
            Ok(()) => {},
            Err(e) => {
                proof {
                    lemma_start_check(*spec, 0, spec.ro_overlays@.len());
                }
                return Err(e);
            },
        }
    }
    let ghost base = mem;
    let mut i: usize = 0;
    while i < spec.ro_overlays.len()
        invariant
            i <= spec.ro_overlays@.len(),
            overlays_inside(*spec),
            extent == spec.mem_image@.len(),
            start_check(*spec, i as nat) is Ok,
            forall|a: int| #[trigger] mem.cell(a) == laid(base.cell(a), *spec, i as nat, a),
        decreases spec.ro_overlays@.len() - i,
    {
        let o = spec.ro_overlays[i];
        assert(spec.ro_overlays@[i as int].image_off + spec.ro_overlays@[i as int].len <= extent);
        let bytes = vstd::slice::slice_subrange(
            spec.mem_image.as_slice(),
            o.image_off,
            o.image_off + o.len,
        );
        let ghost earlier = mem;
        match overlay_into(&mut mem, o.start, bytes, Access::ReadOnly) {
            Ok(()) => {},
            Err(e) => {
                proof {
                    lemma_start_check(*spec, (i + 1) as nat, spec.ro_overlays@.len());
                }
                return Err(e);
            },
        }
        assert forall|a: int| #[trigger] mem.cell(a) == laid(
            base.cell(a),
            *spec,
            (i + 1) as nat,
            a,
        ) by {
            assert(earlier.cell(a) == laid(base.cell(a), *spec, i as nat, a));
        }
        i = i + 1;
    }
    assert forall|a: int| #[trigger] mem.cell(a) == start_cell(*spec, a) by {
        assert(mem.cell(a) == laid(base.cell(a), *spec, i as nat, a));
    }
    Ok(mem)
}

/// The code and the argument of the end of a run.
pub open spec fn exit_code(exit: ExitReason) -> (u32, u32) {
    match exit {
        ExitReason::Halt => (0, 0),
        ExitReason::Panic => (1, 0),
        ExitReason::OutOfGas => (2, 0),
        ExitReason::PageFault(addr) => (3, addr),
        ExitReason::HostCall(imm) => (4, imm),
        ExitReason::Ecall => (6, 0),
        ExitReason::Trap => (7, 0),
    }
}

/// What is at the start of data; zeros where nothing is mapped.
pub open spec fn head_at(mem: Mem, data_base: u32) -> Seq<u8> {
    Seq::new(
        SCRATCHPAD_HEAD_LEN as nat,
        |i: int|
            match mem.cell(data_base + i) {
                Some(c) => c.byte,
                None => 0,
            },
    )
}

/// The result of a run that ended: why, register 7, the gas that is left, and what
/// the start of data holds.
pub fn finish_run(exit: ExitReason, regs: &Regs, gas: &GasCounter, mem: &Mem, data_base: u32) -> (r:
    InvocationResult)
    requires
        data_base + SCRATCHPAD_HEAD_LEN <= u32::MAX,
    ensures
        (r.exit_reason, r.exit_arg) == exit_code(exit),
        r.return_value == regs.gpr@[7],
        r.gas_remaining == gas.left,
        r.scratchpad_head@ == head_at(*mem, data_base),
{
    let (exit_reason, exit_arg): (u32, u32) = match exit {
        ExitReason::Halt => (0, 0),
        ExitReason::Panic => (1, 0),
        ExitReason::OutOfGas => (2, 0),
        ExitReason::PageFault(addr) => (3, addr),
        ExitReason::HostCall(imm) => (4, imm),
        ExitReason::Ecall => (6, 0),
        ExitReason::Trap => (7, 0),
    };
    let mut scratchpad_head: [u8; SCRATCHPAD_HEAD_LEN] = [0;SCRATCHPAD_HEAD_LEN];
    let mut i: usize = 0;
    while i < SCRATCHPAD_HEAD_LEN
        invariant
            i <= SCRATCHPAD_HEAD_LEN,
            data_base + SCRATCHPAD_HEAD_LEN <= u32::MAX,
            forall|j: int|
                0 <= j < i ==> #[trigger] scratchpad_head@[j] == head_at(*mem, data_base)[j],
        decreases SCRATCHPAD_HEAD_LEN - i,
    {
        scratchpad_head[i] = match mem.read_u8(data_base + i as u32) {
            Some(b) => b,
            None => 0,
        };
        i = i + 1;
    }
    assert(scratchpad_head@ =~= head_at(*mem, data_base));
    InvocationResult {
        exit_reason,
        exit_arg,
        return_value: regs.gpr[7],
        gas_remaining: gas.remaining(),
        scratchpad_head,
    }
}

/// What an invocation came to.
#[derive(Clone, Copy, Debug, PartialEq, Eq)]
pub struct InvokeOutcome {
    pub return_value: u64,
    pub gas_used: u64,
}

/// The machine that a process is. It runs no programs yet: every invocation comes
/// to the same, and none fails.
#[derive(Debug)]
pub struct LocalArch {
    pub state_root: CapHash,
}

impl LocalArch {
    /// A machine with the state root of no state.
    pub fn new() -> (arch: LocalArch)
        ensures
            arch.state_root@ == zero_bytes(),
    {
        LocalArch { state_root: zero_hash() }
    }

    /// Invoke an endpoint of a target.
    pub fn invoke(&mut self, target: u64, endpoint: u16, args: &[u8]) -> (outcome: InvokeOutcome)
        ensures
            outcome == (InvokeOutcome { return_value: 42, gas_used: 0 }),
            *final(self) == *old(self),
    {
        InvokeOutcome { return_value: 42, gas_used: 0 }
    }

    /// The state root.
    pub fn state_root(&self) -> (root: CapHash)
        ensures
            root == self.state_root,
    {
        self.state_root
    }
}

/// The published caps of a process.
pub struct JavmLocal {
    pub cache: KernelDirectory,
    pub state_root: CapHash,
}

/// The instance with a hash and its image, or why it cannot be started.
pub open spec fn startable(caps: CapMap, root: CapHash) -> Result<
    (WireInstance, KernelImageCap),
    InvokeError,
> {
    if !caps.contains_key(root) {
        Err(InvokeError::InstanceNotPublished)
    } else {
        match *caps[root] {
            WireCap::Instance(inst) => if !caps.contains_key(inst.image_hash) {
                Err(InvokeError::ImageNotCached)
            } else {
                match *caps[inst.image_hash] {
                    WireCap::Image(img) => Ok((inst, img)),
                    _ => Err(InvokeError::NotAnImage),
                }
            },
            _ => Err(InvokeError::NotAnInstance),
        }
    }
}

impl JavmLocal {
    /// Nothing is published.
    pub fn new() -> (local: JavmLocal)
        ensures
            local.cache@ == Map::<CapHash, Arc<WireCap>>::empty(),
            local.state_root@ == zero_bytes(),
    {
        JavmLocal { cache: KernelDirectory::new(), state_root: zero_hash() }
    }

    /// Publish a cap under its hash.
    pub fn put_cap_with_hash(&mut self, hash: CapHash, cap: Arc<WireCap>)
        ensures
            final(self).cache@ == old(self).cache@.insert(hash, cap),
            final(self).state_root == old(self).state_root,
    {
        self.cache.insert(hash, cap);
    }

    /// The state root.
    pub fn state_root(&self) -> (root: CapHash)
        ensures
            root == self.state_root,
    {
        self.state_root
    }

    /// Whether an instance can be started at an endpoint.
    pub fn has_endpoint(&self, root: &CapHash, endpoint: u32) -> (has: bool)
        ensures
            has == match startable(self.cache@, *root) {
                Ok(p) => endpoint_at(p.1.endpoints@, selector_of(endpoint)) is Some
                    && p.0.mem.backing@.len() * PAGE_BYTES <= u32::MAX,
                Err(_) => true,
            },
    {
        let inst = match self.cache.get(root) {
            Some(cap) => match &**cap {
                WireCap::Instance(i) => i,
                _ => return true,
            },
            None => return true,
        };
        match self.cache.get(&inst.image_hash) {
            Some(cap) => match &**cap {
                WireCap::Image(img) => find_endpoint(
                    &img.endpoints,
                    (endpoint % 256) as u8,
                ).is_some() && inst.mem.content_len() <= u32::MAX as u64,
                _ => true,
            },
            None => true,
        }
    }

    /// What the interpreter starts from to run an endpoint of a published instance.
    pub fn prepare_invoke(&self, root: &CapHash, endpoint: u32, args: &[u64; 4], data_base: u32) -> (r:
        Result<ProgramSpec, InvokeError>)
        requires
            startable(self.cache@, *root) matches Ok(p) ==> endpoint_at(
                p.1.endpoints@,
                selector_of(endpoint),
            ) is Some && p.0.mem.backing@.len() * PAGE_BYTES <= u32::MAX,
        ensures
            match r {
                Ok(spec) => startable(self.cache@, *root) matches Ok(p) && lowered(
                    spec,
                    p.0,
                    p.1,
                    data_base,
                    selector_of(endpoint),
                    args@,
                ),
                Err(e) => startable(self.cache@, *root) == Err::<
                    (WireInstance, KernelImageCap),
                    InvokeError,
                >(e),
            },
    {
        let inst = match self.cache.get(root) {
            Some(cap) => match &**cap {
                WireCap::Instance(i) => i,
                _ => return Err(InvokeError::NotAnInstance),
            },
            None => return Err(InvokeError::InstanceNotPublished),
        };
        match self.cache.get(&inst.image_hash) {
            Some(cap) => match &**cap {
                WireCap::Image(img) => {
                    Ok(run_instance(inst, img, data_base, (endpoint % 256) as u8, args))
                },
                _ => Err(InvokeError::NotAnImage),
            },
            None => Err(InvokeError::ImageNotCached),
        }
    }
}

/// The selector of an endpoint: its low byte.
pub open spec fn selector_of(endpoint: u32) -> u8 {
    (endpoint % 256) as u8
}

} // verus!
