//! What the probes of a guest compute: the address spaces that they switch to, and
//! the words that they report in.
use vstd::prelude::*;

use crate::kernel::bump::{aligned_up, BumpArena};
use crate::kernel::paging::{
    copy_pages, lemma_space_fits, lemma_space_left, parts_leaf, space_fits, space_left, MapPart, PageTable,
    ENTRIES,
};

verus! {

/// Where probes put user code and data.
pub const PROBE_VA: u64 = 0x1000_0000_0000;

/// Where the memory probe puts a program.
pub const PROBE_MEM_VA: u64 = 0x1080_0000_0000;

/// Size of a page.
pub const PROBE_PAGE: u64 = 4096;

/// There is no arena for page tables.
pub const PROBE_NO_ARENA: u64 = 0xDEAD_0001;

/// A physical page is not in kernel memory.
pub const PROBE_NO_STAGE: u64 = 0xDEAD_0002;

/// There is no page for the table.
pub const PROBE_NO_TABLE: u64 = 0xDEAD_0003;

/// The first mapping failed; the codes of the others follow.
pub const PROBE_NO_MAPPING: u64 = 0xDEAD_0004;

/// The address space with the parts of a probe, or the code of the step that failed;
/// its pages are free again then.
pub fn probe_space(kernel_entries: &[u64; ENTRIES], parts: &Vec<MapPart>, frames: &mut Vec<u64>) -> (r:
    Result<PageTable, u64>)
    requires
        forall|i: int| 0 <= i < parts@.len() ==> (#[trigger] parts@[i]).wf(),
        parts@.len() <= 4,
    ensures
        r is Ok <==> space_fits(kernel_entries@, parts@, parts@.len(), old(frames)@.len()),
        match r {
            Ok(pt) => {
                &&& forall|v: u64| #[trigger]
                    pt.leaf(v) == parts_leaf(None, v, parts@, parts@.len())
                &&& final(frames)@ == space_left(old(frames)@, parts@)
            },
            Err(code) => if old(frames)@.len() == 0 {
                code == PROBE_NO_TABLE
            } else {
                let i = code - PROBE_NO_MAPPING;
                &&& 0 <= i < parts@.len()
                &&& space_fits(kernel_entries@, parts@, i as nat, old(frames)@.len())
                &&& !space_fits(kernel_entries@, parts@, (i + 1) as nat, old(frames)@.len())
            },
        },
        r is Err ==> final(frames)@ == old(frames)@,
{
    let ghost taken = frames@;
    let ghost free = frames@.len();
    let mut left = copy_pages(frames);
    let mut pt = match PageTable::new(kernel_entries, &mut left) {
        None => return Err(PROBE_NO_TABLE),
        Some(pt) => pt,
    };
    proof {
        lemma_space_fits(pt, kernel_entries@, parts@, parts@.len(), free);
    }
    let ghost empty = pt;
    match pt.map_parts(parts, &mut left) {
        Err(i) => {
            proof {
                lemma_space_fits(empty, kernel_entries@, parts@, i as nat, free);
                lemma_space_fits(empty, kernel_entries@, parts@, i as nat + 1, free);
            }
            Err(PROBE_NO_MAPPING + i as u64)
        },
        Ok(_) => {
            proof {
                lemma_space_left(empty, taken, parts@);
            }
            assert forall|v: u64| #[trigger] pt.leaf(v) == parts_leaf(
                None,
                v,
                parts@,
                parts@.len(),
            ) by {
                assert(empty.leaf(v) is None);
            }
            *frames = left;
            Ok(pt)
        },
    }
}

/// Probe an arena: whether what it hands out is aligned, in bit 8, and whether it
/// hands out the same again once it is reset, in bit 0; zero if it is too small.
pub fn bump_smoke(arena: &mut BumpArena) -> (report: u64)
    ensures
        final(arena).start() == old(arena).start(),
        final(arena).size() == old(arena).size(),
        ({
            let first = aligned_up(old(arena).mark(), 16) + 0x100;
            final(arena).mark() == if first > old(arena).size() {
                old(arena).mark()
            } else if aligned_up(first, 16) + 0x100 > old(arena).size() {
                first
            } else {
                0x100
            }
        }),
        ({
            let first = aligned_up(old(arena).mark(), 16);
            let second = aligned_up(first + 0x100, 16);
            let a = old(arena).start() + first;
            report == if second + 0x100 > old(arena).size() {
                0
            } else {
                (if a % 16 == 0 {
                    0x100int
                } else {
                    0int
                }) + (if first == 0 {
                    1int
                } else {
                    0int
                })
            }
        }),
{
    let ghost first = aligned_up(arena.mark(), 16);
    proof {
        crate::kernel::bump::lemma_arena(arena);
        crate::kernel::bump::lemma_aligned_up(arena.mark(), 16);
        crate::kernel::bump::lemma_aligned_up(first + 0x100, 16);
        crate::kernel::bump::lemma_aligned_up(0, 16);
    }
    let a: u64 = match arena.alloc_bytes(0x100, 0x10) {
        None => return 0,
        Some(a) => a,
    };
    match arena.alloc_bytes(0x100, 0x10) {
        None => return 0,
        Some(_) => {},
    }
    arena.reset();
    let c: u64 = match arena.alloc_bytes(0x100, 0x10) {
        None => return 0,
        Some(c) => c,
    };
    let aligned: u64 = if a % 16 == 0 {
        0x100
    } else {
        0
    };
    let reuses: u64 = if c == a {
        1
    } else {
        0
    };
    aligned + reuses
}

/// Why a run ended and with what, in one word.
pub fn exit_word(exit_reason: u32, exit_arg: u32) -> (word: u64)
    ensures
        word == exit_reason * 0x1_0000_0000 + exit_arg,
{
    exit_reason as u64 * 0x1_0000_0000 + exit_arg as u64
}

/// Length and pages of native code, in one word.
pub fn native_word(len: u64) -> (word: u64)
    requires
        len < 0x1_0000_0000_0000,
        ((len + PROBE_PAGE - 1) / PROBE_PAGE as int) < 0x1_0000,
    ensures
        word == len * 0x1_0000 + (len + PROBE_PAGE - 1) / PROBE_PAGE as int,
{
    let pages: u64 = (len + (PROBE_PAGE - 1)) / PROBE_PAGE;
    len * 0x1_0000 + pages
}

/// A count of faults and the low 48 bits of a count of cycles, in one word.
pub fn fault_word(count: u64, cycles: u64) -> (word: u64)
    requires
        count < 0x1_0000,
    ensures
        word == count * 0x1_0000_0000_0000 + cycles % 0x1_0000_0000_0000,
{
    count * 0x1_0000_0000_0000 + cycles % 0x1_0000_0000_0000
}

/// The control registers, in one word: 16 bits of each, and of the first the paging
/// bit after them.
pub fn control_word(cr0: u64, cr4: u64, efer: u64) -> (word: u64)
    ensures
        word == (cr0 % 0x1_0000) + (cr0 / 0x8000_0000 % 2) * 0x1_0000 + (cr4 % 0x1_0000)
            * 0x100_0000 + (efer % 0x1_0000) * 0x100_0000_0000,
{
    (cr0 % 0x1_0000) + (cr0 / 0x8000_0000 % 2) * 0x1_0000 + (cr4 % 0x1_0000) * 0x100_0000 + (efer
        % 0x1_0000) * 0x100_0000_0000
}

/// The privilege level in a code segment selector.
pub fn privilege_level(cs: u64) -> (level: u64)
    ensures
        level == cs % 4,
{
    cs % 4
}

/// The first address of the page of an address.
pub fn faulting_page(gva: u64) -> (va: u64)
    ensures
        va % PROBE_PAGE == 0,
        va <= gva < va + PROBE_PAGE,
{
    gva - gva % PROBE_PAGE
}

} // verus!
