//! Register file, gas counter and the reasons for which a run ends.
use vstd::prelude::*;

use crate::cap::NUM_REGS;

verus! {

/// Width of the live register file: the persisted registers, then two that
/// start at zero on every entry.
pub const NUM_GPRS: usize = 15;

/// The live registers of a run.
#[derive(Clone, Copy, Debug)]
pub struct Regs {
    pub gpr: [u64; NUM_GPRS],
    pub pc: u32,
}

impl Regs {
    /// All registers zero.
    pub fn new() -> (regs: Regs)
        ensures
            regs.gpr@ == zero_gprs(),
            regs.pc == 0,
    {
        let regs = Regs { gpr: [0;NUM_GPRS], pc: 0 };
        assert(regs.gpr@ =~= zero_gprs());
        regs
    }

    /// The persisted part of the register file.
    pub fn persisted(&self) -> (file: [u64; NUM_REGS])
        ensures
            file@ == self.gpr@.take(NUM_REGS as int),
    {
        let mut file: [u64; NUM_REGS] = [0;NUM_REGS];
        let mut i: usize = 0;
        while i < NUM_REGS
            invariant
                i <= NUM_REGS,
                forall|j: int| 0 <= j < i ==> file@[j] == self.gpr@[j],
            decreases NUM_REGS - i,
        {
            file[i] = self.gpr[i];
            i = i + 1;
        }
        assert(file@ =~= self.gpr@.take(NUM_REGS as int));
        file
    }
}

/// `NUM_GPRS` zeros.
pub open spec fn zero_gprs() -> Seq<u64> {
    Seq::new(NUM_GPRS as nat, |i: int| 0u64)
}

/// Gas left to a run.
#[derive(Clone, Copy, Debug)]
pub struct GasCounter {
    pub left: u64,
}

impl GasCounter {
    pub fn new(budget: u64) -> (gas: GasCounter)
        ensures
            gas.left == budget,
    {
        GasCounter { left: budget }
    }

    pub fn remaining(&self) -> (left: u64)
        ensures
            left == self.left,
    {
        self.left
    }
}

/// Why a run ended.
#[derive(Clone, Copy, Debug, PartialEq, Eq, Structural)]
pub enum ExitReason {
    Halt,
    Panic,
    OutOfGas,
    PageFault(u32),
    HostCall(u32),
    Ecall,
    Trap,
}

/// The two forms of the environment call.
#[derive(Clone, Copy, Debug, PartialEq, Eq, Structural)]
pub enum EcallKind {
    Ecalli(u32),
    Ecall,
}

/// What the machine does after an environment call.
#[derive(Clone, Copy, Debug, PartialEq, Eq, Structural)]
pub enum EcallResult {
    Continue,
    Exit(ExitReason),
}

/// A program ready to be decoded: code bytes and the address they start at.
#[derive(Debug)]
pub struct Program {
    pub code: Vec<u8>,
    pub code_base: u32,
}

impl Program {
    pub fn new(code: Vec<u8>, code_base: u32) -> (program: Program)
        ensures
            program.code == code,
            program.code_base == code_base,
    {
        Program { code, code_base }
    }
}

/// The registers of a fresh invocation: the endpoint's registers, then every
/// non-zero persisted register, then the arguments in registers 7 to 10. The
/// registers past the persisted file are zero.
pub open spec fn entry_gprs(
    initial: Seq<u64>,
    persisted: Seq<u64>,
    args: Seq<u64>,
) -> Seq<u64> {
    Seq::new(
        NUM_GPRS as nat,
        |i: int|
            if 7 <= i <= 10 {
                args[i - 7]
            } else if i < NUM_REGS {
                if persisted[i] != 0 {
                    persisted[i]
                } else {
                    initial[i]
                }
            } else {
                0
            },
    )
}

/// Compose the registers of a fresh invocation.
pub fn compose_entry_regs(
    entry_pc: u32,
    initial: &[u64; NUM_REGS],
    persisted: &[u64; NUM_REGS],
    args: &[u64; 4],
) -> (regs: Regs)
    ensures
        regs.pc == entry_pc,
        regs.gpr@ == entry_gprs(initial@, persisted@, args@),
{
    let mut gpr: [u64; NUM_GPRS] = [0;NUM_GPRS];
    let mut i: usize = 0;
    while i < NUM_REGS
        invariant
            i <= NUM_REGS,
            forall|j: int|
                0 <= j < i ==> gpr@[j] == if persisted@[j] != 0 {
                    persisted@[j]
                } else {
                    initial@[j]
                },
            forall|j: int| i <= j < NUM_GPRS ==> gpr@[j] == 0,
        decreases NUM_REGS - i,
    {
        gpr[i] = if persisted[i] != 0 {
            persisted[i]
        } else {
            initial[i]
        };
        i = i + 1;
    }
    gpr[7] = args[0];
    gpr[8] = args[1];
    gpr[9] = args[2];
    gpr[10] = args[3];
    assert(gpr@ =~= entry_gprs(initial@, persisted@, args@));
    Regs { gpr, pc: entry_pc }
}

/// Whatever an endpoint and an instance declare, the arguments of the call are
/// what the program finds in registers 7 to 10.
pub proof fn law_arguments_win(initial: Seq<u64>, persisted: Seq<u64>, args: Seq<u64>, i: int)
    requires
        args.len() == 4,
        0 <= i < 4,
    ensures
        entry_gprs(initial, persisted, args)[7 + i] == args[i],
{
}

} // verus!
