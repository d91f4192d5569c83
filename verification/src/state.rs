use vstd::prelude::*;

use crate::memory::MemoryState;

verus! {

/// A snapshot of the engine's register file: one identifier/value pair per
/// defined register, in the architecture's enumeration order.
pub struct RegisterState {
    pub entries: Vec<(u32, u64)>,
}

impl View for RegisterState {
    type V = Seq<(u32, u64)>;

    open spec fn view(&self) -> Seq<(u32, u64)> {
        self.entries@
    }
}

/// One observed memory operation of a traced instruction, in occurrence
/// order.
#[derive(Clone, Copy, Debug, PartialEq, Eq, Structural)]
pub struct MemAccess {
    /// `false` for a read, `true` for a write.
    pub write: bool,
    pub addr: u64,
    pub size: usize,
    pub value: i64,
}

/// An immutable capture of register file, sparse memory image and step count
/// at one instruction boundary.
pub struct EmulatorState {
    pub regs: RegisterState,
    pub memories: MemoryState,
    pub steps: u64,
}

impl EmulatorState {
    pub open spec fn wf(&self) -> bool {
        self.memories.wf()
    }
}

/// The provable effect of one traced instruction: the states on both sides of
/// it and the ordered memory operations it performed.
pub struct StateChange {
    pub state_before: EmulatorState,
    pub state_after: EmulatorState,
    /// The step index after which the access log was captured.
    pub step: u64,
    pub access: Vec<MemAccess>,
}

/// The numeric value of four big-endian bytes.
pub open spec fn be32_value(s: Seq<u8>) -> int {
    s[0] * 0x100_0000 + s[1] * 0x1_0000 + s[2] * 0x100 + s[3]
}

/// The synthetic first log entry of a traced step: the instruction fetch at
/// the current program counter, with the big-endian instruction word as its
/// value.
pub open spec fn fetch_access(pc: u64, instruction: Seq<u8>) -> MemAccess {
    MemAccess { write: false, addr: pc, size: 4, value: be32_value(instruction) as i64 }
}

} // verus!
