//! What a page fault in compiled code comes to.
use vstd::prelude::*;

use crate::kernel::caps::DataMem;
use crate::kernel::materialize::{
    access_pages, data_pages, materialized, trap_at, trap_lookup, try_materialize, MatCosts,
    Materialized, Pages,
};
use crate::kernel::runtime::FrameRuntime;

verus! {

/// Left by a page fault.
pub const EXIT_PAGE_FAULT: u32 = 3;

/// Bit of the error code of a fault that says that it was a write.
pub const FAULT_WRITE: u64 = 2;

/// A page fault: where it happened, what was being done, which address, and the gas
/// that is left.
#[derive(Clone, Copy, Debug, PartialEq, Eq)]
pub struct Fault {
    pub rip: u64,
    pub error_code: u64,
    pub gva: u64,
    pub gas: u64,
}

impl Fault {
    /// Whether it was a write.
    pub open spec fn is_write(&self) -> bool {
        self.error_code & FAULT_WRITE != 0
    }
}

/// What to do about a page fault.
#[derive(Debug)]
pub enum FaultAction {
    /// It is not the guest's.
    Decline,
    /// Forget the translations of the `flush` pages and go on, with `gas` left.
    Retry { gas: u64, flush: Vec<u64> },
    /// Leave the guest at `rip` with the fault.
    Exit { exit_reason: u32, exit_arg: u32, pc: u32, rip: u64 },
}

/// The low half of a word.
pub open spec fn low_half(word: u64) -> u32 {
    (word % 0x1_0000_0000) as u32
}

/// Whether an address is in the compiled code.
pub open spec fn in_window(code_base: u64, code_len: u64, rip: u64) -> bool {
    code_base <= rip && rip < code_base + code_len
}

/// The access that faulted: its guest address in the program, and its width.
pub open spec fn faulting_access(rt: FrameRuntime, rip: u64) -> (u32, u32) {
    trap_at(rt.trap_table@, low_half((rip - rt.jit_va) as u64))
}

/// The fault that the guest is left with.
pub open spec fn guest_fault(rt: FrameRuntime, fault: Fault) -> FaultAction {
    FaultAction::Exit {
        exit_reason: EXIT_PAGE_FAULT,
        exit_arg: low_half(fault.gva),
        pc: faulting_access(rt, fault.rip).0,
        rip: rt.exit_label_va,
    }
}

/// What a fault comes to: not ours outside the compiled code; else the pages of the
/// access are materialized and paid for, or the guest is left.
pub open spec fn fault_done(
    rt: FrameRuntime,
    before: Pages,
    after: Pages,
    zero_pa: u64,
    costs: MatCosts,
    fault: Fault,
    action: FaultAction,
) -> bool {
    let access = faulting_access(rt, fault.rip);
    let is_write = fault.is_write();
    if !in_window(rt.jit_va, rt.jit_size, fault.rip) {
        action == FaultAction::Decline && after == before
    } else if access.1 == 0 {
        action == guest_fault(rt, fault) && after == before
    } else {
        let pages = access_pages(low_half(fault.gva), access.1);
        match action {
            FaultAction::Decline => false,
            FaultAction::Retry { gas, flush } => exists|m: Materialized|
                {
                    &&& #[trigger] materialized(
                        rt,
                        before,
                        after,
                        zero_pa,
                        pages,
                        is_write,
                        costs,
                        Some(m),
                    )
                    &&& flush == m.flush
                    &&& gas == (if fault.gas >= m.charge {
                        fault.gas - m.charge
                    } else {
                        fault.gas - m.charge + 0x1_0000_0000_0000_0000
                    })
                },
            FaultAction::Exit { .. } => {
                &&& action == guest_fault(rt, fault)
                &&& materialized(
                    rt,
                    before,
                    after,
                    zero_pa,
                    pages,
                    is_write,
                    costs,
                    None,
                )
            },
        }
    }
}

/// Whether an address is in the compiled code.
pub fn in_jit_window(code_base: u64, code_len: u64, rip: u64) -> (inside: bool)
    ensures
        inside == in_window(code_base, code_len, rip),
{
    code_len != 0 && rip >= code_base && rip - code_base < code_len
}

/// Decide about a page fault of a guest.
pub fn jit_pf_handler(
    rt: &mut FrameRuntime,
    mem: &mut DataMem,
    mat_state: &mut Vec<u8>,
    ro_units: &mut Vec<u32>,
    frames: &mut Vec<u64>,
    zero_pa: u64,
    costs: &MatCosts,
    fault: &Fault,
) -> (action: FaultAction)
    requires
        data_pages(*old(rt)) <= old(mat_state)@.len(),
    ensures
        *final(rt) == (FrameRuntime { pt: final(rt).pt, ..*old(rt) }),
        fault_done(
            *old(rt),
            (Pages {
                pt: old(rt).pt,
                mem: *old(mem),
                states: old(mat_state)@,
                units: old(ro_units)@,
                frames: old(frames)@,
            }),
            (Pages {
                pt: final(rt).pt,
                mem: *final(mem),
                states: final(mat_state)@,
                units: final(ro_units)@,
                frames: final(frames)@,
            }),
            zero_pa,
            *costs,
            *fault,
            action,
        ),
{
    if !in_jit_window(rt.jit_va, rt.jit_size, fault.rip) {
        return FaultAction::Decline;
    }
    let offset: u32 = ((fault.rip - rt.jit_va) % 0x1_0000_0000) as u32;
    let (pc, width): (u32, u32) = trap_lookup(&rt.trap_table, offset);
    let gva: u32 = (fault.gva % 0x1_0000_0000) as u32;
    let is_write: bool = fault.error_code & FAULT_WRITE != 0;
    if width != 0 {
        match try_materialize(
            rt,
            mem,
            mat_state,
            ro_units,
            frames,
            zero_pa,
            gva,
            width,
            is_write,
            costs,
        ) {
            Some(m) => {
                let ghost done = m;
                assert(fault.is_write() == is_write);
                let Materialized { charge, flush } = m;
                let gas: u64 = fault.gas.wrapping_sub(charge);
                let action = FaultAction::Retry { gas, flush };
                assert(done.flush == flush);
                return action;
            },
            None => {},
        }
    }
    FaultAction::Exit { exit_reason: EXIT_PAGE_FAULT, exit_arg: gva, pc, rip: rt.exit_label_va }
}

} // verus!
