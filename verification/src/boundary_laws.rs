//! What crosses the boundary to the host and comes back.
use vstd::prelude::*;

use vstd::bytes::*;

use crate::abi::{boot_info_bytes, word_at, word_bytes, BootInfo};
use crate::guest_build::joined;
use crate::hash::CapHash;
use crate::kernel::caps::{KernelImageCap, WireCap, WireInstance};
use crate::kernel::frame::CapMap;
use crate::kernel::segments::{is_user_gate, IdtEntry};
use crate::local::{head_at, startable, InvokeError};
use crate::mem::Mem;
use crate::rpc::{decimal_text, digit_char, function_at};

verus! {

/// A request goes to the first function that is registered under its id, and to none
/// only if none is.
pub proof fn law_request_goes_to_the_first_function(ids: Seq<u32>, fn_id: u32)
    ensures
        match function_at(ids, fn_id) {
            Some(i) => {
                &&& 0 <= i < ids.len()
                &&& ids[i] == fn_id
                &&& forall|j: int| 0 <= j < i ==> #[trigger] ids[j] != fn_id
            },
            None => forall|j: int| 0 <= j < ids.len() ==> #[trigger] ids[j] != fn_id,
        },
    decreases ids.len(),
{
    if ids.len() > 0 && ids[0] != fn_id {
        let rest = ids.drop_first();
        law_request_goes_to_the_first_function(rest, fn_id);
        match function_at(rest, fn_id) {
            Some(i) => {
                assert(rest[i] == ids[i + 1]);
                assert forall|j: int| 0 <= j < i + 1 implies #[trigger] ids[j] != fn_id by {
                    if j > 0 {
                        assert(rest[j - 1] == ids[j]);
                    }
                }
            },
            None => {
                assert forall|j: int| 0 <= j < ids.len() implies #[trigger] ids[j] != fn_id by {
                    if j > 0 {
                        assert(rest[j - 1] == ids[j]);
                    }
                }
            },
        }
    }
}

/// The number that decimal digits stand for.
pub open spec fn number_of(text: Seq<char>) -> int
    decreases text.len(),
{
    if text.len() == 0 {
        0
    } else {
        number_of(text.drop_last()) * 10 + (text.last() as int - '0' as int)
    }
}

/// A number in digits stands for the number, and does not begin with a zero unless it
/// is zero.
pub proof fn law_digits_stand_for_the_number(n: nat)
    ensures
        number_of(decimal_text(n)) == n,
        decimal_text(n).len() > 0,
        n > 0 ==> decimal_text(n)[0] != '0',
        forall|i: int|
            0 <= i < decimal_text(n).len() ==> '0' as int <= #[trigger] decimal_text(n)[i] as int
                <= '9' as int,
    decreases n,
{
    let last = digit_char(n % 10);
    assert(last as int == '0' as int + n % 10);
    if n < 10 {
        let text = decimal_text(n);
        assert(text.drop_last() =~= Seq::<char>::empty());
        assert(number_of(text.drop_last()) == 0);
    } else {
        law_digits_stand_for_the_number(n / 10);
        let before = decimal_text(n / 10);
        let text = decimal_text(n);
        assert(text.drop_last() =~= before);
        assert(text.last() == last);
        assert(text[0] == before[0]);
        assert forall|i: int| 0 <= i < text.len() implies '0' as int <= #[trigger] text[i] as int
            <= '9' as int by {
            if i < before.len() {
                assert(text[i] == before[i]);
            }
        }
    }
}

/// Words are joined in their order, with the separator between two of them and nowhere
/// else.
pub proof fn law_words_are_joined_in_order(
    left: Seq<Seq<char>>,
    right: Seq<Seq<char>>,
    sep: Seq<char>,
)
    requires
        left.len() > 0,
        right.len() > 0,
    ensures
        joined(left + right, sep) == joined(left, sep) + sep + joined(right, sep),
        right.len() == 1 ==> joined(right, sep) == right[0],
    decreases right.len(),
{
    let all = left + right;
    assert(all.last() == right.last());
    if right.len() == 1 {
        assert(all.drop_last() =~= left);
        assert(joined(all, sep) =~= joined(left, sep) + sep + right[0]);
    } else {
        let rest = right.drop_last();
        assert(all.drop_last() =~= left + rest);
        law_words_are_joined_in_order(left, rest, sep);
        assert(joined(all, sep) =~= joined(left, sep) + sep + joined(right, sep));
    }
}

/// The parts of a gate's address are the low, the middle and the high part of the
/// address of its handler, and user code may call it.
pub proof fn law_gate_leads_to_its_handler(entry: IdtEntry, handler_va: u64, ist: u8)
    requires
        is_user_gate(entry, handler_va, ist),
    ensures
        entry.offset_lo == handler_va % 0x1_0000,
        entry.offset_mid == (handler_va / 0x1_0000) % 0x1_0000,
        entry.offset_hi == handler_va / 0x1_0000_0000,
        entry.ist == ist,
        entry.type_attr == 0xEE,
{
}

/// The first bytes of data are those that are mapped from the data on, and zeros where
/// nothing is.
pub proof fn law_head_is_the_start_of_data(mem: Mem, data_base: u32, i: int)
    requires
        0 <= i < 128,
    ensures
        head_at(mem, data_base).len() == 128,
        mem.cell(data_base + i) matches Some(c) ==> head_at(mem, data_base)[i] == c.byte,
        mem.cell(data_base + i) is None ==> head_at(mem, data_base)[i] == 0,
{
}

/// What can be started is a published instance whose image is published; of anything
/// else it is said what is missing.
pub proof fn law_only_instances_can_be_started(caps: CapMap, root: CapHash)
    ensures
        startable(caps, root) matches Ok(p) ==> {
            &&& caps.contains_key(root)
            &&& *caps[root] == WireCap::Instance(p.0)
            &&& caps.contains_key(p.0.image_hash)
            &&& *caps[p.0.image_hash] == WireCap::Image(p.1)
        },
        !caps.contains_key(root) <==> startable(caps, root) == Err::<
            (WireInstance, KernelImageCap),
            InvokeError,
        >(InvokeError::InstanceNotPublished),
        caps.contains_key(root) && !(*caps[root] is Instance) <==> startable(caps, root) == Err::<
            (WireInstance, KernelImageCap),
            InvokeError,
        >(InvokeError::NotAnInstance),
        caps.contains_key(root) && (*caps[root] matches WireCap::Instance(w)
            && !caps.contains_key(w.image_hash)) <==> startable(caps, root) == Err::<
            (WireInstance, KernelImageCap),
            InvokeError,
        >(InvokeError::ImageNotCached),
{
}

/// The words of the boot information are read back in their order.
pub proof fn law_boot_info_reads_back(b: BootInfo, i: int)
    requires
        0 <= i < b.reserved@.len(),
    ensures
        word_at(boot_info_bytes(b), 0) == b.magic,
        word_at(boot_info_bytes(b), 8) == b.directory_va,
        word_at(boot_info_bytes(b), 16) == b.directory_type_id,
        word_at(boot_info_bytes(b), 24) == b.guest_va_base,
        word_at(boot_info_bytes(b), 32 + 8 * i) == b.reserved@[i],
{
    lemma_auto_spec_u64_to_from_le_bytes();
    let bytes = boot_info_bytes(b);
    let m = spec_u64_to_le_bytes(b.magic);
    let d = spec_u64_to_le_bytes(b.directory_va);
    let t = spec_u64_to_le_bytes(b.directory_type_id);
    let g = spec_u64_to_le_bytes(b.guest_va_base);
    assert(m.len() == 8 && d.len() == 8 && t.len() == 8 && g.len() == 8);
    assert(bytes.subrange(0, 8) =~= m);
    assert(bytes.subrange(8, 16) =~= d);
    assert(bytes.subrange(16, 24) =~= t);
    assert(bytes.subrange(24, 32) =~= g);
    lemma_word_reads_back(b.reserved@, i);
    let w = word_bytes(b.reserved@);
    assert(bytes.subrange(32 + 8 * i, 32 + 8 * i + 8) =~= w.subrange(8 * i, 8 * i + 8));
}

proof fn lemma_word_count(words: Seq<u64>)
    ensures
        word_bytes(words).len() == 8 * words.len(),
    decreases words.len(),
{
    lemma_auto_spec_u64_to_from_le_bytes();
    if words.len() > 0 {
        lemma_word_count(words.drop_last());
        assert(spec_u64_to_le_bytes(words.last()).len() == 8);
    }
}

proof fn lemma_word_reads_back(words: Seq<u64>, i: int)
    requires
        0 <= i < words.len(),
    ensures
        word_bytes(words).len() == 8 * words.len(),
        word_bytes(words).subrange(8 * i, 8 * i + 8) == spec_u64_to_le_bytes(words[i]),
    decreases words.len(),
{
    lemma_auto_spec_u64_to_from_le_bytes();
    let rest = words.drop_last();
    let last = spec_u64_to_le_bytes(words.last());
    let all = word_bytes(words);
    lemma_word_count(words);
    lemma_word_count(rest);
    assert(last.len() == 8);
    assert(all == word_bytes(rest) + last);
    if i < rest.len() {
        lemma_word_reads_back(rest, i);
        assert(rest[i] == words[i]);
        assert(all.subrange(8 * i, 8 * i + 8) =~= word_bytes(rest).subrange(8 * i, 8 * i + 8));
    } else {
        assert(all.subrange(8 * i, 8 * i + 8) =~= last);
    }
}

/// The value of a hexadecimal digit.
pub open spec fn hex_value(c: char) -> int {
    if c as int <= '9' as int {
        c as int - '0' as int
    } else {
        c as int - 'a' as int + 10
    }
}

/// Two digits in lower case stand for each byte, in order.
pub proof fn law_hex_digits_stand_for_the_bytes(bytes: Seq<u8>, i: int)
    requires
        0 <= i < bytes.len(),
    ensures
        crate::callstack::hex_of(bytes).len() == 2 * bytes.len(),
        hex_value(crate::callstack::hex_of(bytes)[2 * i]) * 16 + hex_value(
            crate::callstack::hex_of(bytes)[2 * i + 1],
        ) == bytes[i],
    decreases bytes.len(),
{
    let rest = bytes.drop_last();
    let b = bytes.last();
    let text = crate::callstack::hex_of(bytes);
    let before = crate::callstack::hex_of(rest);
    if rest.len() > 0 {
        let at = if i < rest.len() {
            i
        } else {
            0
        };
        law_hex_digits_stand_for_the_bytes(rest, at);
    }
    if i < rest.len() {
        assert(rest[i] == bytes[i]);
        assert(text[2 * i] == before[2 * i]);
        assert(text[2 * i + 1] == before[2 * i + 1]);
    } else {
        let hi = (b / 16) as u8;
        let lo = (b % 16) as u8;
        assert(text[2 * i] == crate::callstack::hex_char(hi));
        assert(text[2 * i + 1] == crate::callstack::hex_char(lo));
        assert(hex_value(crate::callstack::hex_char(hi)) == hi);
        assert(hex_value(crate::callstack::hex_char(lo)) == lo);
    }
}

/// A call with its number in a register is the call with that number.
pub proof fn law_both_forms_of_a_call_agree(regs: crate::exec::Regs, op: u32)
    requires
        regs.gpr@[11] == op,
    ensures
        crate::ecall::op_of(crate::exec::EcallKind::Ecall, regs) == op,
        crate::ecall::op_of(crate::exec::EcallKind::Ecalli(op), regs) == op,
{
    assert(regs.gpr@[11] as u32 == op);
}

/// A page of paged data is found at its place; one that is not loaded reads as zeros.
pub proof fn law_paged_data_is_its_pages(d: crate::cap::DataCap, p: int, o: int)
    requires
        d.content matches crate::cap::DataContent::Paged { page_size, pages } && 0 <= p
            < pages@.len() && 0 <= o < page_size,
    ensures
        d.content matches crate::cap::DataContent::Paged { page_size, pages } && {
            &&& d.bytes().len() == page_size * pages@.len()
            &&& p * page_size + o < d.bytes().len()
            &&& pages@[p] matches crate::cap::PageSlot::Loaded(b) ==> d.bytes()[p * page_size + o]
                == b@[o]
            &&& pages@[p] is Missing ==> d.bytes()[p * page_size + o] == 0
        },
{
    if let crate::cap::DataContent::Paged { page_size, pages } = d.content {
        let n = page_size as int;
        let i = p * n + o;
        assert(0 <= i < n * pages@.len() && i / n == p && i % n == o) by (nonlinear_arith)
            requires
                0 <= p < pages@.len(),
                0 <= o < n,
                i == p * n + o,
        ;
    }
}

/// An overlay that holds something can be laid down exactly where it begins at a page
/// and its last page is in the address space.
pub proof fn law_overlay_fits_in_the_address_space(start: u32, data: Seq<u8>)
    ensures
        crate::mem::overlay_check(start, data) is Ok <==> (data.len() == 0 || (start % 4096 == 0
            && start + crate::mem::page_round_up(data.len() as int) <= 0x1_0000_0000)),
{
}

/// A region can be mapped exactly where it is made of whole pages of the address space
/// and its data fits.
pub proof fn law_region_fits_in_the_address_space(start: u64, size: u64, data_len: nat)
    ensures
        crate::mem::map_check(start, size, data_len) is Ok <==> (start % 4096 == 0 && size % 4096
            == 0 && start + size <= 0x1_0000_0000 && data_len <= size),
{
}

/// The names of the kernel's images, from which their hashes are made.
pub proof fn law_kernel_image_is_its_name(kind: crate::kernel_assist::KernelImage)
    ensures
        crate::kernel_assist::kernel_hash(kind) == crate::hash::blake2b256(
            vstd::utf8::encode_utf8(
                match kind {
                    crate::kernel_assist::KernelImage::GasMeter => "kernel:gasmeter"@,
                    crate::kernel_assist::KernelImage::StorageQuota => "kernel:storagequota"@,
                    crate::kernel_assist::KernelImage::YieldCatcher => "kernel:yieldcatcher"@,
                    crate::kernel_assist::KernelImage::Gas => "kernel:gas"@,
                    crate::kernel_assist::KernelImage::Quota => "kernel:quota"@,
                    crate::kernel_assist::KernelImage::SetGasMeter => "kernel:set_gas_meter"@,
                    crate::kernel_assist::KernelImage::SetStorageQuota => "kernel:set_storage_quota"@,
                    crate::kernel_assist::KernelImage::MintGas => "kernel:mint_gas"@,
                    crate::kernel_assist::KernelImage::MintQuota => "kernel:mint_quota"@,
                    crate::kernel_assist::KernelImage::CreateYieldCatcher => "kernel:create_yield_catcher"@,
                    crate::kernel_assist::KernelImage::OogMarker => "kernel:oog_marker"@,
                    crate::kernel_assist::KernelImage::StorageExhaustedMarker => "kernel:storage_exhausted_marker"@,
                    crate::kernel_assist::KernelImage::File => "kernel:file"@,
                    crate::kernel_assist::KernelImage::HostOpen => "kernel:host_open"@,
                    crate::kernel_assist::KernelImage::HostSave => "kernel:host_save"@,
                },
            ),
        ),
{
}

/// The last message of a buffer can be taken exactly where there is a buffer, its stack
/// pointer leaves room for a message with its pointers, and the back pointer is inside;
/// taking it leaves zeros where it was and the bytes below as they were.
pub proof fn law_message_is_taken_where_it_is(ring: Seq<u8>, i: int)
    requires
        crate::ring::pop_error(ring) is None,
        ring.len() <= u64::MAX,
        0 <= i < ring.len(),
    ensures
        ({
            let sp = word_at(ring, 0);
            let back = word_at(ring, sp - 8);
            &&& 16 <= sp <= ring.len()
            &&& 8 <= back <= sp - 8
            &&& crate::ring::last_message(ring) == ring.subrange(back as int, sp - 8)
            &&& word_at(crate::ring::popped(ring), 0) == back
            &&& crate::ring::popped(ring).len() == ring.len()
            &&& 8 <= i < back ==> crate::ring::popped(ring)[i] == ring[i]
            &&& back <= i < sp ==> crate::ring::popped(ring)[i] == 0
            &&& sp <= i ==> crate::ring::popped(ring)[i] == ring[i]
        }),
{
    lemma_auto_spec_u64_to_from_le_bytes();
    let sp = crate::ring::stack_ptr(ring);
    let back = crate::ring::back_ptr(ring);
    let after = crate::ring::popped(ring);
    let bytes = spec_u64_to_le_bytes(back);
    assert(bytes.len() == 8);
    assert(after.subrange(0, 8) =~= bytes);
    assert(spec_u64_from_le_bytes(bytes) == back);
}

} // verus!
