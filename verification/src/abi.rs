//! What the host and the guest exchange: invocations, results and boot
//! information.
use vstd::bytes::{
    lemma_auto_spec_u32_to_from_le_bytes, lemma_auto_spec_u64_to_from_le_bytes,
    spec_u32_from_le_bytes, spec_u32_to_le_bytes, spec_u64_from_le_bytes, spec_u64_to_le_bytes,
    u32_from_le_bytes, u32_to_le_bytes, u64_from_le_bytes, u64_to_le_bytes,
};
use vstd::prelude::*;
use vstd::slice::slice_subrange;

use crate::hash::CapHash;
use crate::kernel::call_loop::SCRATCHPAD_HEAD_LEN;

verus! {

/// Counters of the guest's heap.
pub const FN_ID_NUB_HEAP_STATS: u32 = 2;

/// Invoke a published instance.
pub const FN_ID_NUB_INVOKE_CACHED: u32 = 3;

/// Publish a cap.
pub const FN_ID_NUB_PUT_CAP: u32 = 4;

/// Read the boot information.
pub const FN_ID_NUB_GET_BOOT_INFO: u32 = 5;

/// Forget all compiled code.
pub const FN_ID_NUB_EVICT_JIT_ALL: u32 = 6;

/// Serve invocations from a slot.
pub const FN_ID_NUB_INVOKE_WORKER: u32 = 7;

/// Probe that answers 42.
pub const FN_ID_TEST_SMOKE: u32 = 100;

/// Probe of the page allocator.
pub const FN_ID_BENCH_ARC_PAGE_ALLOC: u32 = 200;

/// Size of an invocation packet.
pub const INVOKE_PACKET_SIZE: usize = 80;

/// First word of the boot information.
pub const BOOT_INFO_MAGIC: u64 = 0x4A41_525F_424F_4F54;

/// The layout of the published directory.
pub const DIRECTORY_TYPE_ID: u64 = 4;

/// Size of the boot information.
pub const BOOT_INFO_SIZE: usize = 128;

/// An invocation of a published instance.
#[derive(Clone, Copy, Debug, PartialEq, Eq)]
pub struct InvokePacket {
    pub instance_hash: CapHash,
    pub endpoint_idx: u32,
    pub pad: u32,
    pub args: [u64; 4],
    pub initial_gas: u64,
}

/// How an invocation has ended.
#[derive(Clone, Copy, Debug, PartialEq, Eq)]
pub struct InvocationResult {
    pub exit_reason: u32,
    pub exit_arg: u32,
    pub return_value: u64,
    pub gas_remaining: u64,
    pub scratchpad_head: [u8; SCRATCHPAD_HEAD_LEN],
}

/// Where the guest has put its directory.
#[derive(Clone, Copy, Debug, PartialEq, Eq)]
pub struct BootInfo {
    pub magic: u64,
    pub directory_va: u64,
    pub directory_type_id: u64,
    pub guest_va_base: u64,
    pub reserved: [u64; 12],
}

/// A slot that a worker serves invocations from.
#[derive(Clone, Copy, Debug, PartialEq, Eq)]
pub struct ParallelInvokeSlot {
    pub status: u32,
    pub pad0: u32,
    pub job_id: u64,
    pub packet: InvokePacket,
    pub result: InvocationResult,
}

/// Nothing is in the slot.
pub const PARALLEL_INVOKE_STATUS_EMPTY: u32 = 0;

/// The host has put an invocation in.
pub const PARALLEL_INVOKE_STATUS_READY: u32 = 1;

/// The worker runs it.
pub const PARALLEL_INVOKE_STATUS_RUNNING: u32 = 2;

/// The result is there.
pub const PARALLEL_INVOKE_STATUS_DONE: u32 = 3;

/// The worker is to stop.
pub const PARALLEL_INVOKE_STATUS_STOP: u32 = 4;

/// The worker is not there yet.
pub const PARALLEL_INVOKE_STATUS_STARTING: u32 = 5;

/// Size of a slot.
pub const PARALLEL_INVOKE_SLOT_BYTES: usize = 512;

/// The bytes of `words`, each with its lowest byte first.
pub open spec fn word_bytes(words: Seq<u64>) -> Seq<u8>
    decreases words.len(),
{
    if words.len() == 0 {
        Seq::empty()
    } else {
        word_bytes(words.drop_last()) + spec_u64_to_le_bytes(words.last())
    }
}

/// The bytes of an invocation packet.
pub open spec fn packet_bytes(p: InvokePacket) -> Seq<u8> {
    p.instance_hash@ + spec_u32_to_le_bytes(p.endpoint_idx) + spec_u32_to_le_bytes(p.pad)
        + word_bytes(p.args@) + spec_u64_to_le_bytes(p.initial_gas)
}

/// The bytes of the boot information.
pub open spec fn boot_info_bytes(b: BootInfo) -> Seq<u8> {
    spec_u64_to_le_bytes(b.magic) + spec_u64_to_le_bytes(b.directory_va) + spec_u64_to_le_bytes(
        b.directory_type_id,
    ) + spec_u64_to_le_bytes(b.guest_va_base) + word_bytes(b.reserved@)
}

/// Add `more` at the end.
pub fn append_bytes(bytes: &mut Vec<u8>, more: &[u8])
    ensures
        final(bytes)@ == old(bytes)@ + more@,
{
    let ghost before = bytes@;
    let mut i: usize = 0;
    while i < more.len()
        invariant
            i <= more@.len(),
            bytes@ == before + more@.take(i as int),
        decreases more@.len() - i,
    {
        bytes.push(more[i]);
        assert(bytes@ =~= before + more@.take(i + 1));
        i = i + 1;
    }
    assert(bytes@ =~= before + more@);
}

fn append_words(bytes: &mut Vec<u8>, words: &[u64])
    ensures
        final(bytes)@ == old(bytes)@ + word_bytes(words@),
{
    let ghost before = bytes@;
    let mut i: usize = 0;
    assert(words@.take(0) =~= Seq::<u64>::empty());
    assert(bytes@ =~= before + word_bytes(words@.take(0)));
    while i < words.len()
        invariant
            i <= words@.len(),
            bytes@ == before + word_bytes(words@.take(i as int)),
        decreases words@.len() - i,
    {
        let word = u64_to_le_bytes(words[i]);
        append_bytes(bytes, word.as_slice());
        assert(words@.take(i + 1).drop_last() =~= words@.take(i as int));
        assert(bytes@ =~= before + word_bytes(words@.take(i + 1)));
        i = i + 1;
    }
    assert(words@.take(i as int) =~= words@);
}

proof fn lemma_word_bytes_len(words: Seq<u64>)
    ensures
        word_bytes(words).len() == 8 * words.len(),
    decreases words.len(),
{
    lemma_auto_spec_u64_to_from_le_bytes();
    if words.len() > 0 {
        lemma_word_bytes_len(words.drop_last());
    }
}

proof fn lemma_word_bytes_at(words: Seq<u64>, i: int)
    requires
        0 <= i < words.len(),
    ensures
        word_bytes(words).len() == 8 * words.len(),
        word_bytes(words).subrange(8 * i, 8 * i + 8) == spec_u64_to_le_bytes(words[i]),
    decreases words.len(),
{
    lemma_auto_spec_u64_to_from_le_bytes();
    lemma_word_bytes_len(words);
    lemma_word_bytes_len(words.drop_last());
    let init = word_bytes(words.drop_last());
    let last = spec_u64_to_le_bytes(words.last());
    if i < words.len() - 1 {
        lemma_word_bytes_at(words.drop_last(), i);
        assert((init + last).subrange(8 * i, 8 * i + 8) =~= init.subrange(8 * i, 8 * i + 8));
    } else {
        assert((init + last).subrange(8 * i, 8 * i + 8) =~= last);
    }
}

/// The word at an offset.
pub open spec fn word_at(bytes: Seq<u8>, offset: int) -> u64 {
    spec_u64_from_le_bytes(bytes.subrange(offset, offset + 8))
}

/// The half word at an offset.
pub open spec fn half_at(bytes: Seq<u8>, offset: int) -> u32 {
    spec_u32_from_le_bytes(bytes.subrange(offset, offset + 4))
}

fn read_word(bytes: &[u8], offset: usize) -> (word: u64)
    requires
        offset + 8 <= bytes@.len(),
    ensures
        word == word_at(bytes@, offset as int),
{
    let n: usize = bytes.len();
    u64_from_le_bytes(slice_subrange(bytes, offset, offset + 8))
}

fn read_half(bytes: &[u8], offset: usize) -> (half: u32)
    requires
        offset + 4 <= bytes@.len(),
    ensures
        half == half_at(bytes@, offset as int),
{
    let n: usize = bytes.len();
    u32_from_le_bytes(slice_subrange(bytes, offset, offset + 4))
}

impl InvokePacket {
    /// The packet as it is sent.
    pub fn as_bytes(&self) -> (bytes: Vec<u8>)
        ensures
            bytes@ == packet_bytes(*self),
            bytes@.len() == INVOKE_PACKET_SIZE,
    {
        let mut bytes: Vec<u8> = Vec::new();
        append_bytes(&mut bytes, self.instance_hash.as_slice());
        assert(bytes@ =~= self.instance_hash@);
        let endpoint = u32_to_le_bytes(self.endpoint_idx);
        append_bytes(&mut bytes, endpoint.as_slice());
        let pad = u32_to_le_bytes(self.pad);
        append_bytes(&mut bytes, pad.as_slice());
        append_words(&mut bytes, self.args.as_slice());
        let gas = u64_to_le_bytes(self.initial_gas);
        append_bytes(&mut bytes, gas.as_slice());
        proof {
            lemma_word_bytes_len(self.args@);
        }
        bytes
    }

    /// The packet that was sent; none if the size is wrong.
    pub fn from_bytes(bytes: &[u8]) -> (packet: Option<InvokePacket>)
        ensures
            packet is Some <==> bytes@.len() == INVOKE_PACKET_SIZE,
            packet matches Some(p) ==> {
                &&& p.instance_hash@ == bytes@.take(32)
                &&& p.endpoint_idx == half_at(bytes@, 32)
                &&& p.pad == half_at(bytes@, 36)
                &&& forall|i: int| 0 <= i < 4 ==> #[trigger] p.args@[i] == word_at(bytes@, 40 + 8 * i)
                &&& p.initial_gas == word_at(bytes@, 72)
            },
    {
        if bytes.len() != INVOKE_PACKET_SIZE {
            return None;
        }
        let mut instance_hash: CapHash = [0u8; 32];
        let mut i: usize = 0;
        while i < 32
            invariant
                i <= 32,
                bytes@.len() == INVOKE_PACKET_SIZE,
                forall|j: int| 0 <= j < i ==> instance_hash@[j] == bytes@[j],
            decreases 32 - i,
        {
            instance_hash[i] = bytes[i];
            i = i + 1;
        }
        assert(instance_hash@ =~= bytes@.take(32));
        let args: [u64; 4] = [
            read_word(bytes, 40),
            read_word(bytes, 48),
            read_word(bytes, 56),
            read_word(bytes, 64),
        ];
        Some(
            InvokePacket {
                instance_hash,
                endpoint_idx: read_half(bytes, 32),
                pad: read_half(bytes, 36),
                args,
                initial_gas: read_word(bytes, 72),
            },
        )
    }
}

/// What the bytes of a packet are read back as.
pub open spec fn reads_as(bytes: Seq<u8>, p: InvokePacket) -> bool {
    &&& p.instance_hash@ == bytes.take(32)
    &&& p.endpoint_idx == half_at(bytes, 32)
    &&& p.pad == half_at(bytes, 36)
    &&& forall|i: int| 0 <= i < 4 ==> #[trigger] p.args@[i] == word_at(bytes, 40 + 8 * i)
    &&& p.initial_gas == word_at(bytes, 72)
}

/// A packet that is sent arrives: its bytes are read back as the packet, and as
/// no other.
pub proof fn law_packet_round_trip(p: InvokePacket, q: InvokePacket)
    ensures
        packet_bytes(p).len() == INVOKE_PACKET_SIZE,
        reads_as(packet_bytes(p), p),
        reads_as(packet_bytes(p), q) ==> q == p,
{
    lemma_auto_spec_u64_to_from_le_bytes();
    lemma_auto_spec_u32_to_from_le_bytes();
    lemma_word_bytes_len(p.args@);
    let bytes = packet_bytes(p);
    let e = spec_u32_to_le_bytes(p.endpoint_idx);
    let d = spec_u32_to_le_bytes(p.pad);
    let a = word_bytes(p.args@);
    let g = spec_u64_to_le_bytes(p.initial_gas);
    assert(e.len() == 4 && d.len() == 4 && g.len() == 8);
    assert(bytes.take(32) =~= p.instance_hash@);
    assert(bytes.subrange(32, 36) =~= e);
    assert(bytes.subrange(36, 40) =~= d);
    assert(bytes.subrange(72, 80) =~= g);
    assert forall|i: int| 0 <= i < 4 implies #[trigger] p.args@[i] == word_at(
        bytes,
        40 + 8 * i,
    ) by {
        lemma_word_bytes_at(p.args@, i);
        assert(bytes.subrange(40 + 8 * i, 40 + 8 * i + 8) =~= a.subrange(8 * i, 8 * i + 8));
    }
    if reads_as(bytes, q) {
        assert(q.instance_hash =~= p.instance_hash);
        assert forall|i: int| 0 <= i < 4 implies p.args@[i] == q.args@[i] by {
            assert(q.args@[i] == word_at(bytes, 40 + 8 * i));
        }
        assert(q.args =~= p.args);
    }
}

impl BootInfo {
    /// The boot information before the guest has booted.
    pub fn initial() -> (info: BootInfo)
        ensures
            info.magic == BOOT_INFO_MAGIC,
            info.directory_va == 0,
            info.directory_type_id == DIRECTORY_TYPE_ID,
            info.guest_va_base == 0,
            forall|i: int| 0 <= i < 12 ==> info.reserved@[i] == 0,
    {
        BootInfo {
            magic: BOOT_INFO_MAGIC,
            directory_va: 0,
            directory_type_id: DIRECTORY_TYPE_ID,
            guest_va_base: 0,
            reserved: [0u64; 12],
        }
    }

    /// Note where the directory and the guest are. Only the first call counts.
    pub fn init_directory_va(&mut self, initialised: &mut bool, directory_va: u64, kernel_base: u64,
        kernel_offset: u64)
        requires
            kernel_offset <= kernel_base,
        ensures
            *final(initialised),
            *final(self) == if *old(initialised) {
                *old(self)
            } else {
                BootInfo {
                    directory_va,
                    guest_va_base: (kernel_base - kernel_offset) as u64,
                    ..*old(self)
                }
            },
    {
        if *initialised {
            return;
        }
        *initialised = true;
        self.directory_va = directory_va;
        self.guest_va_base = kernel_base - kernel_offset;
    }

    /// The boot information as it is sent.
    pub fn as_bytes(&self) -> (bytes: Vec<u8>)
        ensures
            bytes@ == boot_info_bytes(*self),
            bytes@.len() == BOOT_INFO_SIZE,
    {
        let mut bytes: Vec<u8> = u64_to_le_bytes(self.magic);
        let directory = u64_to_le_bytes(self.directory_va);
        append_bytes(&mut bytes, directory.as_slice());
        let type_id = u64_to_le_bytes(self.directory_type_id);
        append_bytes(&mut bytes, type_id.as_slice());
        let base = u64_to_le_bytes(self.guest_va_base);
        append_bytes(&mut bytes, base.as_slice());
        append_words(&mut bytes, self.reserved.as_slice());
        proof {
            lemma_word_bytes_len(self.reserved@);
        }
        bytes
    }
}

} // verus!
