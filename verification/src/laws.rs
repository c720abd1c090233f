//! What the instruction set promises, proved of the semantics: decoding an
//! encoded instruction has exactly the intended effect, `BRK` halts at
//! once, a zero divisor faults without touching the destination, a fetch
//! at or past the end of memory faults, and comparisons only ever write 0
//! or 1.

use vstd::prelude::*;
use crate::isa::{
    Shape, spec_opcode_shape, pack_regs, be16_val, be32_val, be16_bytes, be32_bytes,
    lemma_pack_unpack, lemma_be_round_trip,
    OP_BRK, OP_CPY, OP_LD8, OP_LD16, OP_LD32, OP_RD8, OP_RD16, OP_RD32, OP_WR8, OP_WR16, OP_WR32,
    OP_ADD, OP_SUB, OP_MUL, OP_DIV, OP_SHL, OP_SHR, OP_EQ, OP_NEQ, OP_LT, OP_LEQ, OP_GT, OP_GEQ,
    OP_NOT, OP_JMP, OP_JMPIF, OP_PRINT,
};
use crate::sem::{
    Fault, VmState, StepRes, RunOutcome, step, run_fuel, exec_op, cmp_value, wrap_add, wrap_sub,
    wrap_mul, store_bytes, lemma_run_fuel_unfold, REG_IP,
};

verus! {

/// One instruction of the set, with its operands as values: the form a
/// programmer means, independent of the byte encoding.
pub enum Ins {
    Brk,
    Cpy(u8, u8),
    Ld8(u8, u8),
    Ld16(u8, u16),
    Ld32(u8, u32),
    Rd8(u8, u8),
    Rd16(u8, u8),
    Rd32(u8, u8),
    Wr8(u8, u8),
    Wr16(u8, u8),
    Wr32(u8, u8),
    Add(u8, u8),
    Sub(u8, u8),
    Mul(u8, u8),
    Div(u8, u8),
    Shl(u8, u8),
    Shr(u8, u8),
    CmpEq(u8, u8),
    CmpNeq(u8, u8),
    CmpLt(u8, u8),
    CmpLeq(u8, u8),
    CmpGt(u8, u8),
    CmpGeq(u8, u8),
    LogicNot(u8),
    Jmp(u32),
    JmpIf(u8, u32),
    Print(u8),
}

/// Every register operand names one of the eight general registers.
pub open spec fn ins_wf(ins: Ins) -> bool {
    match ins {
        Ins::Brk => true,
        Ins::Cpy(d, r) => d < 8 && r < 8,
        Ins::Ld8(d, _) => d < 8,
        Ins::Ld16(d, _) => d < 8,
        Ins::Ld32(d, _) => d < 8,
        Ins::Rd8(d, r) => d < 8 && r < 8,
        Ins::Rd16(d, r) => d < 8 && r < 8,
        Ins::Rd32(d, r) => d < 8 && r < 8,
        Ins::Wr8(d, r) => d < 8 && r < 8,
        Ins::Wr16(d, r) => d < 8 && r < 8,
        Ins::Wr32(d, r) => d < 8 && r < 8,
        Ins::Add(d, r) => d < 8 && r < 8,
        Ins::Sub(d, r) => d < 8 && r < 8,
        Ins::Mul(d, r) => d < 8 && r < 8,
        Ins::Div(d, r) => d < 8 && r < 8,
        Ins::Shl(d, r) => d < 8 && r < 8,
        Ins::Shr(d, r) => d < 8 && r < 8,
        Ins::CmpEq(d, r) => d < 8 && r < 8,
        Ins::CmpNeq(d, r) => d < 8 && r < 8,
        Ins::CmpLt(d, r) => d < 8 && r < 8,
        Ins::CmpLeq(d, r) => d < 8 && r < 8,
        Ins::CmpGt(d, r) => d < 8 && r < 8,
        Ins::CmpGeq(d, r) => d < 8 && r < 8,
        Ins::LogicNot(r) => r < 8,
        Ins::Jmp(_) => true,
        Ins::JmpIf(c, _) => c < 8,
        Ins::Print(r) => r < 8,
    }
}

/// The bytes an instruction assembles to.
pub open spec fn encode(ins: Ins) -> Seq<u8> {
    match ins {
        Ins::Brk => seq![OP_BRK],
        Ins::Cpy(d, r) => seq![OP_CPY, pack_regs(d, r)],
        Ins::Ld8(d, b) => seq![OP_LD8, d, b],
        Ins::Ld16(d, v) => seq![OP_LD16, d] + be16_bytes(v as u32),
        Ins::Ld32(d, v) => seq![OP_LD32, d] + be32_bytes(v),
        Ins::Rd8(d, r) => seq![OP_RD8, pack_regs(d, r)],
        Ins::Rd16(d, r) => seq![OP_RD16, pack_regs(d, r)],
        Ins::Rd32(d, r) => seq![OP_RD32, pack_regs(d, r)],
        Ins::Wr8(d, r) => seq![OP_WR8, pack_regs(d, r)],
        Ins::Wr16(d, r) => seq![OP_WR16, pack_regs(d, r)],
        Ins::Wr32(d, r) => seq![OP_WR32, pack_regs(d, r)],
        Ins::Add(d, r) => seq![OP_ADD, pack_regs(d, r)],
        Ins::Sub(d, r) => seq![OP_SUB, pack_regs(d, r)],
        Ins::Mul(d, r) => seq![OP_MUL, pack_regs(d, r)],
        Ins::Div(d, r) => seq![OP_DIV, pack_regs(d, r)],
        Ins::Shl(d, r) => seq![OP_SHL, pack_regs(d, r)],
        Ins::Shr(d, r) => seq![OP_SHR, pack_regs(d, r)],
        Ins::CmpEq(d, r) => seq![OP_EQ, pack_regs(d, r)],
        Ins::CmpNeq(d, r) => seq![OP_NEQ, pack_regs(d, r)],
        Ins::CmpLt(d, r) => seq![OP_LT, pack_regs(d, r)],
        Ins::CmpLeq(d, r) => seq![OP_LEQ, pack_regs(d, r)],
        Ins::CmpGt(d, r) => seq![OP_GT, pack_regs(d, r)],
        Ins::CmpGeq(d, r) => seq![OP_GEQ, pack_regs(d, r)],
        Ins::LogicNot(r) => seq![OP_NOT, r],
        Ins::Jmp(a) => seq![OP_JMP] + be32_bytes(a),
        Ins::JmpIf(c, a) => seq![OP_JMPIF, c] + be32_bytes(a),
        Ins::Print(r) => seq![OP_PRINT, r],
    }
}

/// The state with the instruction pointer moved `n` bytes on.
pub open spec fn advance_ip(s: VmState, n: int) -> VmState {
    s.with_reg(REG_IP as int, (s.ip() + n) as u32)
}

/// What an instruction is meant to do, per the instruction table: `t` is
/// the state with the instruction pointer already past the instruction.
pub open spec fn effect(ins: Ins, t: VmState) -> StepRes {
    match ins {
        Ins::Brk => StepRes::Halted(t),
        Ins::Cpy(d, r) => StepRes::Next(t.with_reg(d as int, t.regs[r as int])),
        Ins::Ld8(d, b) => StepRes::Next(t.with_reg(d as int, b as u32)),
        Ins::Ld16(d, v) => StepRes::Next(t.with_reg(d as int, v as u32)),
        Ins::Ld32(d, v) => StepRes::Next(t.with_reg(d as int, v)),
        Ins::Rd8(d, r) => {
            let addr = t.regs[r as int] as int;
            if addr + 1 <= t.mem.len() {
                StepRes::Next(t.with_reg(d as int, t.mem[addr] as u32))
            } else {
                StepRes::Faulted(t, Fault::MemoryAccessOutOfBounds)
            }
        },
        Ins::Rd16(d, r) => {
            let addr = t.regs[r as int] as int;
            if addr + 2 <= t.mem.len() {
                StepRes::Next(t.with_reg(d as int, be16_val(t.mem[addr], t.mem[addr + 1])))
            } else {
                StepRes::Faulted(t, Fault::MemoryAccessOutOfBounds)
            }
        },
        Ins::Rd32(d, r) => {
            let addr = t.regs[r as int] as int;
            if addr + 4 <= t.mem.len() {
                StepRes::Next(
                    t.with_reg(
                        d as int,
                        be32_val(t.mem[addr], t.mem[addr + 1], t.mem[addr + 2], t.mem[addr + 3]),
                    ),
                )
            } else {
                StepRes::Faulted(t, Fault::MemoryAccessOutOfBounds)
            }
        },
        Ins::Wr8(d, r) => {
            let addr = t.regs[d as int] as int;
            if addr + 1 <= t.mem.len() {
                StepRes::Next(
                    VmState {
                        mem: store_bytes(t.mem, addr, seq![(t.regs[r as int] % 0x100) as u8]),
                        ..t
                    },
                )
            } else {
                StepRes::Faulted(t, Fault::MemoryAccessOutOfBounds)
            }
        },
        Ins::Wr16(d, r) => {
            let addr = t.regs[d as int] as int;
            if addr + 2 <= t.mem.len() {
                StepRes::Next(
                    VmState { mem: store_bytes(t.mem, addr, be16_bytes(t.regs[r as int])), ..t },
                )
            } else {
                StepRes::Faulted(t, Fault::MemoryAccessOutOfBounds)
            }
        },
        Ins::Wr32(d, r) => {
            let addr = t.regs[d as int] as int;
            if addr + 4 <= t.mem.len() {
                StepRes::Next(
                    VmState { mem: store_bytes(t.mem, addr, be32_bytes(t.regs[r as int])), ..t },
                )
            } else {
                StepRes::Faulted(t, Fault::MemoryAccessOutOfBounds)
            }
        },
        Ins::Add(d, r) => StepRes::Next(
            t.with_reg(d as int, wrap_add(t.regs[d as int], t.regs[r as int])),
        ),
        Ins::Sub(d, r) => StepRes::Next(
            t.with_reg(d as int, wrap_sub(t.regs[d as int], t.regs[r as int])),
        ),
        Ins::Mul(d, r) => StepRes::Next(
            t.with_reg(d as int, wrap_mul(t.regs[d as int], t.regs[r as int])),
        ),
        Ins::Div(d, r) => {
            if t.regs[r as int] == 0 {
                StepRes::Faulted(t, Fault::DivisionByZero)
            } else {
                StepRes::Next(
                    t.with_reg(d as int, (t.regs[d as int] as int / t.regs[r as int] as int) as u32),
                )
            }
        },
        Ins::Shl(d, r) => StepRes::Next(
            t.with_reg(d as int, t.regs[d as int] << (t.regs[r as int] % 32)),
        ),
        Ins::Shr(d, r) => StepRes::Next(
            t.with_reg(d as int, t.regs[d as int] >> (t.regs[r as int] % 32)),
        ),
        Ins::CmpEq(d, r) => StepRes::Next(
            t.with_reg(d as int, if t.regs[d as int] == t.regs[r as int] { 1u32 } else { 0u32 }),
        ),
        Ins::CmpNeq(d, r) => StepRes::Next(
            t.with_reg(d as int, if t.regs[d as int] != t.regs[r as int] { 1u32 } else { 0u32 }),
        ),
        Ins::CmpLt(d, r) => StepRes::Next(
            t.with_reg(d as int, if t.regs[d as int] < t.regs[r as int] { 1u32 } else { 0u32 }),
        ),
        Ins::CmpLeq(d, r) => StepRes::Next(
            t.with_reg(d as int, if t.regs[d as int] <= t.regs[r as int] { 1u32 } else { 0u32 }),
        ),
        Ins::CmpGt(d, r) => StepRes::Next(
            t.with_reg(d as int, if t.regs[d as int] > t.regs[r as int] { 1u32 } else { 0u32 }),
        ),
        Ins::CmpGeq(d, r) => StepRes::Next(
            t.with_reg(d as int, if t.regs[d as int] >= t.regs[r as int] { 1u32 } else { 0u32 }),
        ),
        Ins::LogicNot(r) => StepRes::Next(
            t.with_reg(r as int, if t.regs[r as int] == 0 { 1u32 } else { 0u32 }),
        ),
        Ins::Jmp(a) => StepRes::Next(t.with_reg(REG_IP as int, a)),
        Ins::JmpIf(c, a) => {
            if t.regs[c as int] != 0 {
                StepRes::Next(t.with_reg(REG_IP as int, a))
            } else {
                StepRes::Next(t)
            }
        },
        Ins::Print(r) => StepRes::Next(VmState { out: t.out.push(t.regs[r as int]), ..t }),
    }
}

/// Masking an index below eight changes nothing.
proof fn lemma_mask_small(d: u8)
    requires
        d < 8,
    ensures
        d & 7 == d,
{
    assert(d < 8 ==> d & 7 == d) by (bit_vector);
}

proof fn lemma_step_bare(s: VmState, op: u8)
    requires
        s.wf(),
        spec_opcode_shape(op) == Some(Shape::Bare),
        s.ip() as int + 1 <= s.mem.len(),
        s.mem[s.ip() as int] == op,
    ensures
        step(s) == exec_op(op, 0, 0, 0, advance_ip(s, 1)),
{
    reveal(step);
    assert(s.bump_ip() =~= advance_ip(s, 1));
}

proof fn lemma_step_one_reg(s: VmState, op: u8, r: u8)
    requires
        s.wf(),
        r < 8,
        spec_opcode_shape(op) == Some(Shape::OneReg),
        s.ip() as int + 2 <= s.mem.len(),
        s.mem[s.ip() as int] == op,
        s.mem[s.ip() as int + 1] == r,
    ensures
        step(s) == exec_op(op, r, 0, 0, advance_ip(s, 2)),
{
    reveal(step);
    lemma_mask_small(r);
    assert(s.bump_ip().bump_ip() =~= advance_ip(s, 2));
}

proof fn lemma_step_two_reg(s: VmState, op: u8, d: u8, r: u8)
    requires
        s.wf(),
        d < 8,
        r < 8,
        spec_opcode_shape(op) == Some(Shape::TwoReg),
        s.ip() as int + 2 <= s.mem.len(),
        s.mem[s.ip() as int] == op,
        s.mem[s.ip() as int + 1] == pack_regs(d, r),
    ensures
        step(s) == exec_op(op, d, r, 0, advance_ip(s, 2)),
{
    reveal(step);
    lemma_pack_unpack(d, r);
    assert(s.bump_ip().bump_ip() =~= advance_ip(s, 2));
}

proof fn lemma_step_reg_imm1(s: VmState, op: u8, d: u8, b: u8)
    requires
        s.wf(),
        d < 8,
        spec_opcode_shape(op) == Some(Shape::RegImm1),
        s.ip() as int + 3 <= s.mem.len(),
        s.mem[s.ip() as int] == op,
        s.mem[s.ip() as int + 1] == d,
        s.mem[s.ip() as int + 2] == b,
    ensures
        step(s) == exec_op(op, d, 0, b as u32, advance_ip(s, 3)),
{
    reveal(step);
    lemma_mask_small(d);
    assert(s.bump_ip().bump_ip().bump_ip() =~= advance_ip(s, 3));
}

proof fn lemma_step_reg_imm2(s: VmState, op: u8, d: u8, v: u32)
    requires
        s.wf(),
        d < 8,
        spec_opcode_shape(op) == Some(Shape::RegImm2),
        s.ip() as int + 4 <= s.mem.len(),
        s.mem[s.ip() as int] == op,
        s.mem[s.ip() as int + 1] == d,
        s.mem[s.ip() as int + 2] == be16_bytes(v)[0],
        s.mem[s.ip() as int + 3] == be16_bytes(v)[1],
    ensures
        step(s) == exec_op(op, d, 0, (v as int % 0x10000) as u32, advance_ip(s, 4)),
{
    reveal(step);
    lemma_mask_small(d);
    lemma_be_round_trip(v);
    assert(s.bump_ip().bump_ip().bump_ip().bump_ip() =~= advance_ip(s, 4));
}

proof fn lemma_step_reg_imm4(s: VmState, op: u8, d: u8, v: u32)
    requires
        s.wf(),
        d < 8,
        spec_opcode_shape(op) == Some(Shape::RegImm4),
        s.ip() as int + 6 <= s.mem.len(),
        s.mem[s.ip() as int] == op,
        s.mem[s.ip() as int + 1] == d,
        s.mem[s.ip() as int + 2] == be32_bytes(v)[0],
        s.mem[s.ip() as int + 3] == be32_bytes(v)[1],
        s.mem[s.ip() as int + 4] == be32_bytes(v)[2],
        s.mem[s.ip() as int + 5] == be32_bytes(v)[3],
    ensures
        step(s) == exec_op(op, d, 0, v, advance_ip(s, 6)),
{
    reveal(step);
    lemma_mask_small(d);
    lemma_be_round_trip(v);
    assert(s.bump_ip().bump_ip().bump_ip().bump_ip().bump_ip().bump_ip() =~= advance_ip(s, 6));
}

proof fn lemma_step_imm4(s: VmState, op: u8, v: u32)
    requires
        s.wf(),
        spec_opcode_shape(op) == Some(Shape::Imm4),
        s.ip() as int + 5 <= s.mem.len(),
        s.mem[s.ip() as int] == op,
        s.mem[s.ip() as int + 1] == be32_bytes(v)[0],
        s.mem[s.ip() as int + 2] == be32_bytes(v)[1],
        s.mem[s.ip() as int + 3] == be32_bytes(v)[2],
        s.mem[s.ip() as int + 4] == be32_bytes(v)[3],
    ensures
        step(s) == exec_op(op, 0, 0, v, advance_ip(s, 5)),
{
    reveal(step);
    lemma_be_round_trip(v);
    assert(s.bump_ip().bump_ip().bump_ip().bump_ip().bump_ip() =~= advance_ip(s, 5));
}

/// The opcode, register operands and immediate of an instruction, as the
/// decoder hands them to `exec_op`; fields a shape has none of are zero.
pub open spec fn ins_fields(ins: Ins) -> (u8, u8, u8, u32) {
    match ins {
        Ins::Brk => (OP_BRK, 0u8, 0u8, 0u32),
        Ins::Cpy(d, r) => (OP_CPY, d, r, 0u32),
        Ins::Ld8(d, b) => (OP_LD8, d, 0u8, b as u32),
        Ins::Ld16(d, v) => (OP_LD16, d, 0u8, v as u32),
        Ins::Ld32(d, v) => (OP_LD32, d, 0u8, v),
        Ins::Rd8(d, r) => (OP_RD8, d, r, 0u32),
        Ins::Rd16(d, r) => (OP_RD16, d, r, 0u32),
        Ins::Rd32(d, r) => (OP_RD32, d, r, 0u32),
        Ins::Wr8(d, r) => (OP_WR8, d, r, 0u32),
        Ins::Wr16(d, r) => (OP_WR16, d, r, 0u32),
        Ins::Wr32(d, r) => (OP_WR32, d, r, 0u32),
        Ins::Add(d, r) => (OP_ADD, d, r, 0u32),
        Ins::Sub(d, r) => (OP_SUB, d, r, 0u32),
        Ins::Mul(d, r) => (OP_MUL, d, r, 0u32),
        Ins::Div(d, r) => (OP_DIV, d, r, 0u32),
        Ins::Shl(d, r) => (OP_SHL, d, r, 0u32),
        Ins::Shr(d, r) => (OP_SHR, d, r, 0u32),
        Ins::CmpEq(d, r) => (OP_EQ, d, r, 0u32),
        Ins::CmpNeq(d, r) => (OP_NEQ, d, r, 0u32),
        Ins::CmpLt(d, r) => (OP_LT, d, r, 0u32),
        Ins::CmpLeq(d, r) => (OP_LEQ, d, r, 0u32),
        Ins::CmpGt(d, r) => (OP_GT, d, r, 0u32),
        Ins::CmpGeq(d, r) => (OP_GEQ, d, r, 0u32),
        Ins::LogicNot(r) => (OP_NOT, r, 0u8, 0u32),
        Ins::Jmp(a) => (OP_JMP, 0u8, 0u8, a),
        Ins::JmpIf(c, a) => (OP_JMPIF, c, 0u8, a),
        Ins::Print(r) => (OP_PRINT, r, 0u8, 0u32),
    }
}

/// Executing the decoded fields of an instruction is the instruction's
/// intended effect.
#[verifier::rlimit(100)]
proof fn lemma_exec_effect(ins: Ins, t: VmState)
    requires
        ins_wf(ins),
    ensures
        exec_op(
            ins_fields(ins).0,
            ins_fields(ins).1,
            ins_fields(ins).2,
            ins_fields(ins).3,
            t,
        ) == effect(ins, t),
{
}

/// Round trip of the instruction set: wherever the encoding of a
/// well-formed instruction sits in memory with the instruction pointer on
/// its first byte, one step of the machine does exactly what the
/// instruction table intends, with the pointer moved past the encoding.
#[verifier::rlimit(100)]
pub proof fn lemma_encode_decode(ins: Ins, s: VmState)
    requires
        s.wf(),
        ins_wf(ins),
        s.ip() as int + encode(ins).len() <= s.mem.len(),
        s.mem.subrange(s.ip() as int, s.ip() as int + encode(ins).len() as int) == encode(ins),
    ensures
        step(s) == effect(ins, advance_ip(s, encode(ins).len() as int)),
{
    let ip = s.ip() as int;
    let e = encode(ins);
    assert forall|k: int| 0 <= k < e.len() implies s.mem[ip + k] == e[k] by {
        assert(s.mem.subrange(ip, ip + e.len() as int)[k] == s.mem[ip + k]);
    }
    assert(s.mem[ip] == e[0]) by {
        assert(s.mem[ip + 0] == e[0]);
    }
    if e.len() >= 2 {
        assert(s.mem[ip + 1] == e[1]);
    }
    if e.len() >= 3 {
        assert(s.mem[ip + 2] == e[2]);
    }
    if e.len() >= 4 {
        assert(s.mem[ip + 3] == e[3]);
    }
    if e.len() >= 5 {
        assert(s.mem[ip + 4] == e[4]);
    }
    if e.len() >= 6 {
        assert(s.mem[ip + 5] == e[5]);
    }
    lemma_exec_effect(ins, advance_ip(s, e.len() as int));
    match ins {
        Ins::Brk => lemma_step_bare(s, OP_BRK),
        Ins::Cpy(d, r) => lemma_step_two_reg(s, OP_CPY, d, r),
        Ins::Ld8(d, b) => lemma_step_reg_imm1(s, OP_LD8, d, b),
        Ins::Ld16(d, v) => {
            lemma_step_reg_imm2(s, OP_LD16, d, v as u32);
            assert((v as u32 as int % 0x10000) as u32 == v as u32);
        },
        Ins::Ld32(d, v) => lemma_step_reg_imm4(s, OP_LD32, d, v),
        Ins::Rd8(d, r) => lemma_step_two_reg(s, OP_RD8, d, r),
        Ins::Rd16(d, r) => lemma_step_two_reg(s, OP_RD16, d, r),
        Ins::Rd32(d, r) => lemma_step_two_reg(s, OP_RD32, d, r),
        Ins::Wr8(d, r) => lemma_step_two_reg(s, OP_WR8, d, r),
        Ins::Wr16(d, r) => lemma_step_two_reg(s, OP_WR16, d, r),
        Ins::Wr32(d, r) => lemma_step_two_reg(s, OP_WR32, d, r),
        Ins::Add(d, r) => lemma_step_two_reg(s, OP_ADD, d, r),
        Ins::Sub(d, r) => lemma_step_two_reg(s, OP_SUB, d, r),
        Ins::Mul(d, r) => lemma_step_two_reg(s, OP_MUL, d, r),
        Ins::Div(d, r) => lemma_step_two_reg(s, OP_DIV, d, r),
        Ins::Shl(d, r) => lemma_step_two_reg(s, OP_SHL, d, r),
        Ins::Shr(d, r) => lemma_step_two_reg(s, OP_SHR, d, r),
        Ins::CmpEq(d, r) => lemma_step_two_reg(s, OP_EQ, d, r),
        Ins::CmpNeq(d, r) => lemma_step_two_reg(s, OP_NEQ, d, r),
        Ins::CmpLt(d, r) => lemma_step_two_reg(s, OP_LT, d, r),
        Ins::CmpLeq(d, r) => lemma_step_two_reg(s, OP_LEQ, d, r),
        Ins::CmpGt(d, r) => lemma_step_two_reg(s, OP_GT, d, r),
        Ins::CmpGeq(d, r) => lemma_step_two_reg(s, OP_GEQ, d, r),
        Ins::LogicNot(r) => lemma_step_one_reg(s, OP_NOT, r),
        Ins::Jmp(a) => lemma_step_imm4(s, OP_JMP, a),
        Ins::JmpIf(c, a) => lemma_step_reg_imm4(s, OP_JMPIF, c, a),
        Ins::Print(r) => lemma_step_one_reg(s, OP_PRINT, r),
    }
}

/// The instruction a defined opcode byte and its decoded operands mean.
pub open spec fn ins_of(op: u8, d: u8, r: u8, v: u32) -> Ins {
    if op == OP_BRK {
        Ins::Brk
    } else if op == OP_CPY {
        Ins::Cpy(d, r)
    } else if op == OP_LD8 {
        Ins::Ld8(d, (v % 0x100) as u8)
    } else if op == OP_LD16 {
        Ins::Ld16(d, (v % 0x10000) as u16)
    } else if op == OP_LD32 {
        Ins::Ld32(d, v)
    } else if op == OP_RD8 {
        Ins::Rd8(d, r)
    } else if op == OP_RD16 {
        Ins::Rd16(d, r)
    } else if op == OP_RD32 {
        Ins::Rd32(d, r)
    } else if op == OP_WR8 {
        Ins::Wr8(d, r)
    } else if op == OP_WR16 {
        Ins::Wr16(d, r)
    } else if op == OP_WR32 {
        Ins::Wr32(d, r)
    } else if op == OP_ADD {
        Ins::Add(d, r)
    } else if op == OP_SUB {
        Ins::Sub(d, r)
    } else if op == OP_MUL {
        Ins::Mul(d, r)
    } else if op == OP_DIV {
        Ins::Div(d, r)
    } else if op == OP_SHL {
        Ins::Shl(d, r)
    } else if op == OP_SHR {
        Ins::Shr(d, r)
    } else if op == OP_EQ {
        Ins::CmpEq(d, r)
    } else if op == OP_NEQ {
        Ins::CmpNeq(d, r)
    } else if op == OP_LT {
        Ins::CmpLt(d, r)
    } else if op == OP_LEQ {
        Ins::CmpLeq(d, r)
    } else if op == OP_GT {
        Ins::CmpGt(d, r)
    } else if op == OP_GEQ {
        Ins::CmpGeq(d, r)
    } else if op == OP_NOT {
        Ins::LogicNot(d)
    } else if op == OP_JMP {
        Ins::Jmp(v)
    } else if op == OP_JMPIF {
        Ins::JmpIf(d, v)
    } else {
        Ins::Print(d)
    }
}

/// The assembler's side of the round trip: the bytes it emits for a
/// mnemonic — the opcode byte followed by the operand bytes its shape
/// packs, as `asm_operands` builds them — are exactly the encoding of the
/// instruction those operands mean. With `lemma_encode_decode`, assembling
/// an instruction and running it therefore has the intended effect.
#[verifier::rlimit(100)]
pub proof fn lemma_asm_encodes(op: u8, shape: Shape, d: u8, r: u8, v: u32)
    requires
        spec_opcode_shape(op) == Some(shape),
        d < 8,
        r < 8,
    ensures
        ins_wf(ins_of(op, d, r, v)),
        shape == Shape::Bare ==> encode(ins_of(op, d, r, v)) == seq![op],
        shape == Shape::OneReg ==> encode(ins_of(op, d, r, v)) == seq![op, d],
        shape == Shape::TwoReg ==> encode(ins_of(op, d, r, v)) == seq![op, pack_regs(d, r)],
        shape == Shape::RegImm1 ==> encode(ins_of(op, d, r, v)) == seq![op, d, (v % 0x100) as u8],
        shape == Shape::RegImm2 ==> encode(ins_of(op, d, r, v)) == seq![op, d] + be16_bytes(v),
        shape == Shape::RegImm4 ==> encode(ins_of(op, d, r, v)) == seq![op, d] + be32_bytes(v),
        shape == Shape::Imm4 ==> encode(ins_of(op, d, r, v)) == seq![op] + be32_bytes(v),
{
    if shape == Shape::RegImm2 {
        let x = (v % 0x10000) as u32;
        assert((x as int / 0x100) % 0x100 == (v as int / 0x100) % 0x100 && x as int % 0x100
            == v as int % 0x100) by (nonlinear_arith)
            requires
                x == v % 0x10000,
        ;
        assert(be16_bytes(x) =~= be16_bytes(v));
        assert(encode(ins_of(op, d, r, v)) =~= seq![op, d] + be16_bytes(v));
    }
    if shape == Shape::Bare {
        assert(encode(ins_of(op, d, r, v)) =~= seq![op]);
    }
    if shape == Shape::OneReg {
        assert(encode(ins_of(op, d, r, v)) =~= seq![op, d]);
    }
    if shape == Shape::TwoReg {
        assert(encode(ins_of(op, d, r, v)) =~= seq![op, pack_regs(d, r)]);
    }
    if shape == Shape::RegImm1 {
        assert(encode(ins_of(op, d, r, v)) =~= seq![op, d, (v % 0x100) as u8]);
    }
    if shape == Shape::RegImm4 {
        assert(encode(ins_of(op, d, r, v)) =~= seq![op, d] + be32_bytes(v));
    }
    if shape == Shape::Imm4 {
        assert(encode(ins_of(op, d, r, v)) =~= seq![op] + be32_bytes(v));
    }
}

/// `BRK` halts at once, wherever it stands: the step after fetching its
/// opcode byte is `Halted`, and a whole run from here ends there too, so
/// no byte after it is ever fetched.
pub proof fn lemma_brk_halts(s: VmState)
    requires
        s.wf(),
        (s.ip() as int) < s.mem.len(),
        s.mem[s.ip() as int] == OP_BRK,
    ensures
        step(s) == StepRes::Halted(s.bump_ip()),
        forall|fuel: nat| fuel >= 1 ==> run_fuel(s, fuel) == RunOutcome::Halted(s.bump_ip()),
{
    reveal(step);
    assert forall|fuel: nat| fuel >= 1 implies run_fuel(s, fuel) == RunOutcome::Halted(
        s.bump_ip(),
    ) by {
        lemma_run_fuel_unfold(s, fuel);
    }
}

/// `DIV` with a zero-valued divisor register faults with `DivisionByZero`
/// and leaves every register but the instruction pointer unchanged — the
/// destination keeps its value.
pub proof fn lemma_div_by_zero_faults(s: VmState, d: u8, r: u8)
    requires
        s.wf(),
        d < 8,
        r < 8,
        s.ip() as int + 2 <= s.mem.len(),
        s.mem[s.ip() as int] == OP_DIV,
        s.mem[s.ip() as int + 1] == pack_regs(d, r),
        s.regs[r as int] == 0,
    ensures
        step(s) == StepRes::Faulted(advance_ip(s, 2), Fault::DivisionByZero),
        advance_ip(s, 2).regs[d as int] == s.regs[d as int],
        advance_ip(s, 2).mem == s.mem,
        advance_ip(s, 2).out == s.out,
{
    lemma_step_two_reg(s, OP_DIV, d, r);
}

/// Fetching with the instruction pointer at or past the end of memory —
/// the exact boundary included — faults with
/// `InstructionPointerOutOfBounds` and changes nothing.
pub proof fn lemma_fetch_out_of_bounds(s: VmState)
    requires
        s.wf(),
        s.ip() as int >= s.mem.len(),
    ensures
        step(s) == StepRes::Faulted(s, Fault::InstructionPointerOutOfBounds),
{
    reveal(step);
}

/// A comparison writes exactly 0 or 1, for every pair of unsigned 32-bit
/// values, with strict and non-strict semantics as named: equality for
/// `EQ`, strict order for `LT` and `GT`, non-strict for `LEQ` and `GEQ`.
pub proof fn lemma_cmp_zero_or_one(op: u8, a: u32, b: u32)
    requires
        OP_EQ <= op <= OP_GEQ,
    ensures
        cmp_value(op, a, b) == 0 || cmp_value(op, a, b) == 1,
        op == OP_EQ ==> (cmp_value(op, a, b) == 1 <==> a == b),
        op == OP_NEQ ==> (cmp_value(op, a, b) == 1 <==> a != b),
        op == OP_LT ==> (cmp_value(op, a, b) == 1 <==> a < b),
        op == OP_LEQ ==> (cmp_value(op, a, b) == 1 <==> a <= b),
        op == OP_GT ==> (cmp_value(op, a, b) == 1 <==> a > b),
        op == OP_GEQ ==> (cmp_value(op, a, b) == 1 <==> a >= b),
{
}

} // verus!
