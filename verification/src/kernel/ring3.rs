//! What a lane keeps while user code runs on it.
use vstd::prelude::*;

use crate::kernel::lane::{ExecutionLane, MAX_EXECUTION_LANES};

verus! {

/// Vector through which user code leaves.
pub const RING3_EXIT_VECTOR: u8 = 0x81;

/// Interrupt stack that it leaves on.
pub const RING3_EXIT_IST: u8 = 1;

/// Register of the base of the lane's state.
pub const IA32_GS_BASE: u32 = 0xC000_0101;

/// Register of the base that it is swapped with.
pub const IA32_KERNEL_GS_BASE: u32 = 0xC000_0102;

/// Offsets in the lane's state.
pub const LANE_INDEX_OFFSET: u64 = 0;

pub const KERNEL_RESUME_RSP_OFFSET: u64 = 8;

pub const SAVED_CR3_OFFSET: u64 = 16;

pub const USER_EXIT_RAX_OFFSET: u64 = 24;

/// Size of the lane's state, a cache line.
pub const LANE_STATE_BYTES: u64 = 64;

/// What a lane keeps while user code runs on it: which lane it is, where the kernel
/// goes on, its page table, and what user code left with.
#[derive(Clone, Copy, Debug, PartialEq, Eq)]
pub struct Ring3LaneState {
    pub lane_index: u64,
    pub kernel_resume_rsp: u64,
    pub saved_cr3: u64,
    pub user_exit_rax: u64,
}

impl Ring3LaneState {
    /// The state of no lane.
    pub fn new() -> (state: Ring3LaneState)
        ensures
            state == (Ring3LaneState {
                lane_index: u64::MAX,
                kernel_resume_rsp: 0,
                saved_cr3: 0,
                user_exit_rax: 0,
            }),
    {
        Ring3LaneState {
            lane_index: u64::MAX,
            kernel_resume_rsp: 0,
            saved_cr3: 0,
            user_exit_rax: 0,
        }
    }

    /// Make it the fresh state of a lane.
    pub fn reset_for_entry(&mut self, lane: ExecutionLane)
        ensures
            *final(self) == (Ring3LaneState {
                lane_index: lane.index as u64,
                kernel_resume_rsp: 0,
                saved_cr3: 0,
                user_exit_rax: 0,
            }),
    {
        self.lane_index = lane.index() as u64;
        self.kernel_resume_rsp = 0;
        self.saved_cr3 = 0;
        self.user_exit_rax = 0;
    }
}

/// The states of the lanes, in an array at `base`, and whether the exit gate is
/// installed.
#[derive(Debug)]
pub struct Ring3Lanes {
    pub base: u64,
    pub lanes: Vec<Ring3LaneState>,
    pub gate_installed: bool,
}

/// What has to be done before user code is entered: install the exit gate, unless it
/// is, and have both bases point to the state of the lane.
#[derive(Clone, Copy, Debug, PartialEq, Eq)]
pub struct Ring3Entry {
    pub install_gate: bool,
    pub gs_base: u64,
}

impl Ring3Lanes {
    pub open spec fn wf(&self) -> bool {
        &&& self.lanes@.len() == MAX_EXECUTION_LANES
        &&& self.base + MAX_EXECUTION_LANES * LANE_STATE_BYTES <= u64::MAX
    }

    /// The states of lanes on which nothing has run.
    pub fn new(base: u64) -> (lanes: Ring3Lanes)
        requires
            base + MAX_EXECUTION_LANES * LANE_STATE_BYTES <= u64::MAX,
        ensures
            lanes.wf(),
            lanes.base == base,
            !lanes.gate_installed,
            forall|i: int|
                0 <= i < MAX_EXECUTION_LANES ==> #[trigger] lanes.lanes@[i] == (Ring3LaneState {
                    lane_index: u64::MAX,
                    kernel_resume_rsp: 0,
                    saved_cr3: 0,
                    user_exit_rax: 0,
                }),
    {
        let mut lanes: Vec<Ring3LaneState> = Vec::new();
        while lanes.len() < MAX_EXECUTION_LANES
            invariant
                lanes@.len() <= MAX_EXECUTION_LANES,
                forall|i: int|
                    0 <= i < lanes@.len() ==> #[trigger] lanes@[i] == (Ring3LaneState {
                        lane_index: u64::MAX,
                        kernel_resume_rsp: 0,
                        saved_cr3: 0,
                        user_exit_rax: 0,
                    }),
            decreases MAX_EXECUTION_LANES - lanes@.len(),
        {
            lanes.push(Ring3LaneState::new());
        }
        Ring3Lanes { base, lanes, gate_installed: false }
    }

    /// The address of the state of a lane.
    pub fn ptr(&self, lane: ExecutionLane) -> (va: u64)
        requires
            self.wf(),
            lane.index < MAX_EXECUTION_LANES,
        ensures
            va == self.base + lane.index * LANE_STATE_BYTES,
    {
        self.base + lane.index() as u64 * LANE_STATE_BYTES
    }

    /// Get ready to enter user code on a lane.
    pub fn prepare_ring3_entry(&mut self, lane: ExecutionLane) -> (entry: Ring3Entry)
        requires
            old(self).wf(),
            lane.index < MAX_EXECUTION_LANES,
        ensures
            final(self).wf(),
            final(self).base == old(self).base,
            final(self).gate_installed,
            final(self).lanes@ == old(self).lanes@.update(
                lane.index as int,
                Ring3LaneState {
                    lane_index: lane.index as u64,
                    kernel_resume_rsp: 0,
                    saved_cr3: 0,
                    user_exit_rax: 0,
                },
            ),
            entry.install_gate == !old(self).gate_installed,
            entry.gs_base == old(self).base + lane.index * LANE_STATE_BYTES,
    {
        lane.assert_in_range();
        let install_gate = !self.gate_installed;
        self.gate_installed = true;
        let gs_base: u64 = self.ptr(lane);
        let mut state = Ring3LaneState::new();
        state.reset_for_entry(lane);
        self.lanes.set(lane.index(), state);
        Ring3Entry { install_gate, gs_base }
    }
}

/// The lane that a state is of.
pub fn current_execution_lane(state: &Ring3LaneState) -> (lane: ExecutionLane)
    requires
        state.lane_index <= usize::MAX,
    ensures
        lane.index == state.lane_index,
{
    ExecutionLane::new(state.lane_index as usize)
}

/// The low and the high half of a value, as they are written to a model-specific
/// register.
pub fn msr_halves(value: u64) -> (halves: (u32, u32))
    ensures
        value == halves.0 + halves.1 * 0x1_0000_0000,
{
    ((value % 0x1_0000_0000) as u32, (value / 0x1_0000_0000) as u32)
}

} // verus!
