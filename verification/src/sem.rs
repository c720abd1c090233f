//! The mathematical semantics of the machine: its state as sequences, one
//! fetch-decode-execute step as a total function on that state, and bounded
//! iteration of steps. The executable machine in [`crate::vm`] is proved to
//! follow `step` exactly.

use vstd::prelude::*;
use crate::isa::{
    Shape, spec_opcode_shape, first_reg, second_reg, be16_val, be32_val, be16_bytes, be32_bytes,
    OP_BRK, OP_CPY, OP_LD8, OP_LD16, OP_LD32, OP_RD8, OP_RD16, OP_RD32, OP_WR8, OP_WR16, OP_WR32,
    OP_ADD, OP_SUB, OP_MUL, OP_DIV, OP_SHL, OP_SHR, OP_EQ, OP_NEQ, OP_LT, OP_LEQ, OP_GT, OP_GEQ,
    OP_NOT, OP_JMP, OP_JMPIF, OP_PRINT,
};

verus! {

/// Number of registers in the register file.
pub const REG_COUNT: usize = 16;

/// Index of the instruction pointer register. It is never nameable as an
/// instruction operand; operand fields can only select registers 0-7.
pub const REG_IP: usize = 15;

/// The memory offset where execution begins.
pub const ENTRY_ADDR: u32 = 0x100;

/// Largest allowed memory size: every address must fit the 32-bit
/// instruction pointer.
pub const MEM_LIMIT: usize = 0xFFFF_FFFF;

/// An unrecoverable runtime condition; it stops the run immediately.
#[derive(Clone, Copy, PartialEq, Eq, Structural, Debug)]
pub enum Fault {
    /// A fetch found the instruction pointer at or past the end of memory.
    InstructionPointerOutOfBounds,
    /// The fetched opcode byte matches no instruction.
    UnknownOpcode(u8),
    /// A division instruction's divisor register held zero.
    DivisionByZero,
    /// A memory read or write reached past the end of memory.
    MemoryAccessOutOfBounds,
}

/// The machine's state as mathematics: the memory bytes, the sixteen
/// registers, and the values printed so far.
#[verifier::ext_equal]
pub struct VmState {
    pub mem: Seq<u8>,
    pub regs: Seq<u32>,
    pub out: Seq<u32>,
}

impl VmState {
    pub open spec fn wf(self) -> bool {
        &&& self.regs.len() == REG_COUNT
        &&& self.mem.len() <= MEM_LIMIT
    }

    /// The instruction pointer: register 15.
    pub open spec fn ip(self) -> u32 {
        self.regs[REG_IP as int]
    }

    /// The state with register `r` set to `v`.
    pub open spec fn with_reg(self, r: int, v: u32) -> VmState {
        VmState { regs: self.regs.update(r, v), ..self }
    }

    /// The state with the instruction pointer advanced by one.
    pub open spec fn bump_ip(self) -> VmState {
        self.with_reg(REG_IP as int, (self.ip() + 1) as u32)
    }
}

/// Memory with `bytes` written starting at `addr`.
pub open spec fn store_bytes(mem: Seq<u8>, addr: int, bytes: Seq<u8>) -> Seq<u8> {
    Seq::new(mem.len(), |i: int| if addr <= i && i - addr < bytes.len() {
        bytes[i - addr]
    } else {
        mem[i]
    })
}

/// Fetch one byte at the instruction pointer and advance the pointer;
/// `Err` gives the unchanged state when the pointer is at or past the end
/// of memory.
pub open spec fn fetch1(s: VmState) -> Result<(u8, VmState), VmState> {
    if (s.ip() as int) < s.mem.len() {
        Ok((s.mem[s.ip() as int], s.bump_ip()))
    } else {
        Err(s)
    }
}

/// Fetch two consecutive bytes; `Err` gives the state at the failing fetch.
pub open spec fn fetch2(s: VmState) -> Result<((u8, u8), VmState), VmState> {
    match fetch1(s) {
        Ok((b0, s1)) => match fetch1(s1) {
            Ok((b1, s2)) => Ok(((b0, b1), s2)),
            Err(sf) => Err(sf),
        },
        Err(sf) => Err(sf),
    }
}

/// Fetch four consecutive bytes; `Err` gives the state at the failing fetch.
pub open spec fn fetch4(s: VmState) -> Result<((u8, u8, u8, u8), VmState), VmState> {
    match fetch2(s) {
        Ok(((b0, b1), s1)) => match fetch2(s1) {
            Ok(((b2, b3), s2)) => Ok(((b0, b1, b2, b3), s2)),
            Err(sf) => Err(sf),
        },
        Err(sf) => Err(sf),
    }
}

/// Fetch and decode the operand bytes of one instruction of the given
/// shape: up to two register indices (always 0-7) and an immediate,
/// zero-extended to 32 bits. Fields a shape does not use are zero.
pub open spec fn fetch_operands(shape: Shape, s: VmState) -> Result<
    (u8, u8, u32, VmState),
    VmState,
> {
    match shape {
        Shape::Bare => Ok((0u8, 0u8, 0u32, s)),
        Shape::OneReg => match fetch1(s) {
            Ok((b, s1)) => Ok(((b & 7) as u8, 0u8, 0u32, s1)),
            Err(sf) => Err(sf),
        },
        Shape::TwoReg => match fetch1(s) {
            Ok((b, s1)) => Ok((first_reg(b), second_reg(b), 0u32, s1)),
            Err(sf) => Err(sf),
        },
        Shape::RegImm1 => match fetch2(s) {
            Ok(((rb, b0), s1)) => Ok(((rb & 7) as u8, 0u8, b0 as u32, s1)),
            Err(sf) => Err(sf),
        },
        Shape::RegImm2 => match fetch1(s) {
            Ok((rb, s1)) => match fetch2(s1) {
                Ok(((b0, b1), s2)) => Ok(((rb & 7) as u8, 0u8, be16_val(b0, b1), s2)),
                Err(sf) => Err(sf),
            },
            Err(sf) => Err(sf),
        },
        Shape::RegImm4 => match fetch1(s) {
            Ok((rb, s1)) => match fetch4(s1) {
                Ok(((b0, b1, b2, b3), s2)) => Ok(
                    ((rb & 7) as u8, 0u8, be32_val(b0, b1, b2, b3), s2),
                ),
                Err(sf) => Err(sf),
            },
            Err(sf) => Err(sf),
        },
        Shape::Imm4 => match fetch4(s) {
            Ok(((b0, b1, b2, b3), s1)) => Ok((0u8, 0u8, be32_val(b0, b1, b2, b3), s1)),
            Err(sf) => Err(sf),
        },
    }
}

/// 32-bit wrapping addition.
pub open spec fn wrap_add(a: u32, b: u32) -> u32 {
    ((a + b) % 0x100000000) as u32
}

/// 32-bit wrapping subtraction.
pub open spec fn wrap_sub(a: u32, b: u32) -> u32 {
    ((a - b) % 0x100000000) as u32
}

/// 32-bit wrapping multiplication.
pub open spec fn wrap_mul(a: u32, b: u32) -> u32 {
    ((a * b) % 0x100000000) as u32
}

/// The 0-or-1 result of a comparison opcode on two register values,
/// unsigned.
pub open spec fn cmp_value(op: u8, a: u32, b: u32) -> u32 {
    if op == OP_EQ {
        if a == b { 1u32 } else { 0u32 }
    } else if op == OP_NEQ {
        if a != b { 1u32 } else { 0u32 }
    } else if op == OP_LT {
        if a < b { 1u32 } else { 0u32 }
    } else if op == OP_LEQ {
        if a <= b { 1u32 } else { 0u32 }
    } else if op == OP_GT {
        if a > b { 1u32 } else { 0u32 }
    } else {
        if a >= b { 1u32 } else { 0u32 }
    }
}

/// What one step of the machine does.
pub enum StepRes {
    /// The program halted cleanly; the final state.
    Halted(VmState),
    /// The run stopped with a fault; the state at the fault.
    Faulted(VmState, Fault),
    /// Execution goes on from the new state.
    Next(VmState),
}

/// Execute one already-decoded instruction. `s` is the state with the
/// instruction pointer already past the instruction's bytes; `r1`, `r2`
/// and `imm` are the decoded operands, zero where the shape has none.
pub open spec fn exec_op(op: u8, r1: u8, r2: u8, imm: u32, s: VmState) -> StepRes {
    let a = s.regs[r1 as int];
    let b = s.regs[r2 as int];
    if op == OP_BRK {
        StepRes::Halted(s)
    } else if op == OP_CPY {
        StepRes::Next(s.with_reg(r1 as int, b))
    } else if op == OP_LD8 || op == OP_LD16 || op == OP_LD32 {
        StepRes::Next(s.with_reg(r1 as int, imm))
    } else if op == OP_RD8 {
        let addr = b as int;
        if addr + 1 <= s.mem.len() {
            StepRes::Next(s.with_reg(r1 as int, s.mem[addr] as u32))
        } else {
            StepRes::Faulted(s, Fault::MemoryAccessOutOfBounds)
        }
    } else if op == OP_RD16 {
        let addr = b as int;
        if addr + 2 <= s.mem.len() {
            StepRes::Next(s.with_reg(r1 as int, be16_val(s.mem[addr], s.mem[addr + 1])))
        } else {
            StepRes::Faulted(s, Fault::MemoryAccessOutOfBounds)
        }
    } else if op == OP_RD32 {
        let addr = b as int;
        if addr + 4 <= s.mem.len() {
            StepRes::Next(
                s.with_reg(
                    r1 as int,
                    be32_val(s.mem[addr], s.mem[addr + 1], s.mem[addr + 2], s.mem[addr + 3]),
                ),
            )
        } else {
            StepRes::Faulted(s, Fault::MemoryAccessOutOfBounds)
        }
    } else if op == OP_WR8 {
        let addr = a as int;
        if addr + 1 <= s.mem.len() {
            StepRes::Next(
                VmState { mem: store_bytes(s.mem, addr, seq![(b % 0x100) as u8]), ..s },
            )
        } else {
            StepRes::Faulted(s, Fault::MemoryAccessOutOfBounds)
        }
    } else if op == OP_WR16 {
        let addr = a as int;
        if addr + 2 <= s.mem.len() {
            StepRes::Next(VmState { mem: store_bytes(s.mem, addr, be16_bytes(b)), ..s })
        } else {
            StepRes::Faulted(s, Fault::MemoryAccessOutOfBounds)
        }
    } else if op == OP_WR32 {
        let addr = a as int;
        if addr + 4 <= s.mem.len() {
            StepRes::Next(VmState { mem: store_bytes(s.mem, addr, be32_bytes(b)), ..s })
        } else {
            StepRes::Faulted(s, Fault::MemoryAccessOutOfBounds)
        }
    } else if op == OP_ADD {
        StepRes::Next(s.with_reg(r1 as int, wrap_add(a, b)))
    } else if op == OP_SUB {
        StepRes::Next(s.with_reg(r1 as int, wrap_sub(a, b)))
    } else if op == OP_MUL {
        StepRes::Next(s.with_reg(r1 as int, wrap_mul(a, b)))
    } else if op == OP_DIV {
        if b == 0 {
            StepRes::Faulted(s, Fault::DivisionByZero)
        } else {
            StepRes::Next(s.with_reg(r1 as int, (a as int / b as int) as u32))
        }
    } else if op == OP_SHL {
        StepRes::Next(s.with_reg(r1 as int, a << (b % 32)))
    } else if op == OP_SHR {
        StepRes::Next(s.with_reg(r1 as int, a >> (b % 32)))
    } else if OP_EQ <= op && op <= OP_GEQ {
        StepRes::Next(s.with_reg(r1 as int, cmp_value(op, a, b)))
    } else if op == OP_NOT {
        StepRes::Next(s.with_reg(r1 as int, if a == 0 { 1u32 } else { 0u32 }))
    } else if op == OP_JMP {
        StepRes::Next(s.with_reg(REG_IP as int, imm))
    } else if op == OP_JMPIF {
        if a != 0 {
            StepRes::Next(s.with_reg(REG_IP as int, imm))
        } else {
            StepRes::Next(s)
        }
    } else if op == OP_PRINT {
        StepRes::Next(VmState { out: s.out.push(a), ..s })
    } else {
        StepRes::Faulted(s, Fault::UnknownOpcode(op))
    }
}

/// One full fetch-decode-execute step of the machine. Opaque so that
/// callers reasoning about whole runs need not expand it; reveal it to
/// reason about a single instruction.
#[verifier::opaque]
pub open spec fn step(s: VmState) -> StepRes {
    match fetch1(s) {
        Err(sf) => StepRes::Faulted(sf, Fault::InstructionPointerOutOfBounds),
        Ok((op, s1)) => match spec_opcode_shape(op) {
            None => StepRes::Faulted(s1, Fault::UnknownOpcode(op)),
            Some(shape) => match fetch_operands(shape, s1) {
                Err(sf) => StepRes::Faulted(sf, Fault::InstructionPointerOutOfBounds),
                Ok((r1, r2, imm, s2)) => exec_op(op, r1, r2, imm, s2),
            },
        },
    }
}

/// Where the machine stands after at most `fuel` steps.
pub enum RunOutcome {
    /// `BRK` was reached; the final state.
    Halted(VmState),
    /// A fault stopped the run; the state at the fault.
    Faulted(VmState, Fault),
    /// The step budget ran out with the program still going.
    Running(VmState),
}

/// Run the machine for at most `fuel` steps.
pub open spec fn run_fuel(s: VmState, fuel: nat) -> RunOutcome
    decreases fuel,
{
    if fuel == 0 {
        RunOutcome::Running(s)
    } else {
        match step(s) {
            StepRes::Halted(s2) => RunOutcome::Halted(s2),
            StepRes::Faulted(s2, f) => RunOutcome::Faulted(s2, f),
            StepRes::Next(s2) => run_fuel(s2, (fuel - 1) as nat),
        }
    }
}

/// Decoded register operands always lie in 0-7, and fetching operands
/// touches nothing but the instruction pointer.
pub proof fn lemma_operands_bounded(shape: Shape, s: VmState)
    requires
        s.wf(),
    ensures
        match fetch_operands(shape, s) {
            Ok((r1, r2, imm, s2)) => r1 < 8 && r2 < 8 && s2.wf() && s2.mem == s.mem && s2.out
                == s.out,
            Err(sf) => sf.wf() && sf.mem == s.mem && sf.out == s.out,
        },
{
    assert forall|b: u8| first_reg(b) < 8 && second_reg(b) < 8 && (b & 7) < 8 by {
        crate::isa::lemma_unpack_bounded(b);
    }
}

/// One unfolding of `run_fuel`: with budget left, the outcome follows the
/// first step.
pub proof fn lemma_run_fuel_unfold(s: VmState, fuel: nat)
    requires
        fuel > 0,
    ensures
        run_fuel(s, fuel) == (match step(s) {
            StepRes::Halted(s2) => RunOutcome::Halted(s2),
            StepRes::Faulted(s2, f) => RunOutcome::Faulted(s2, f),
            StepRes::Next(s2) => run_fuel(s2, (fuel - 1) as nat),
        }),
{
}

/// A step never changes the number of registers or the size of memory.
pub proof fn lemma_step_wf(s: VmState)
    requires
        s.wf(),
    ensures
        match step(s) {
            StepRes::Halted(s2) => s2.wf(),
            StepRes::Faulted(s2, _) => s2.wf(),
            StepRes::Next(s2) => s2.wf(),
        },
{
    reveal(step);
    match fetch1(s) {
        Err(_) => {},
        Ok((op, s1)) => {
            match spec_opcode_shape(op) {
                None => {},
                Some(shape) => {
                    lemma_operands_bounded(shape, s1);
                },
            }
        },
    }
}

} // verus!
