//! The instruction set: opcode byte values, the operand shape each opcode
//! expects, the mnemonic table, and the binary encoding of operands.
//!
//! Two-register operands pack into one byte: bits 7-5 name the first
//! register, bits 4-2 the second, bits 1-0 are reserved. One-register
//! operands occupy a full byte. Multi-byte immediates are big-endian.

use vstd::prelude::*;
use crate::text::str_eq;

verus! {

pub const OP_BRK: u8 = 0;
pub const OP_CPY: u8 = 1;
pub const OP_LD8: u8 = 2;
pub const OP_LD16: u8 = 3;
pub const OP_LD32: u8 = 4;
pub const OP_RD8: u8 = 5;
pub const OP_RD16: u8 = 6;
pub const OP_RD32: u8 = 7;
pub const OP_WR8: u8 = 8;
pub const OP_WR16: u8 = 9;
pub const OP_WR32: u8 = 10;
pub const OP_ADD: u8 = 11;
pub const OP_SUB: u8 = 12;
pub const OP_MUL: u8 = 13;
pub const OP_DIV: u8 = 14;
pub const OP_SHL: u8 = 15;
pub const OP_SHR: u8 = 16;
pub const OP_EQ: u8 = 17;
pub const OP_NEQ: u8 = 18;
pub const OP_LT: u8 = 19;
pub const OP_LEQ: u8 = 20;
pub const OP_GT: u8 = 21;
pub const OP_GEQ: u8 = 22;
pub const OP_NOT: u8 = 23;
pub const OP_JMP: u8 = 24;
pub const OP_JMPIF: u8 = 25;
pub const OP_PRINT: u8 = 26;

/// The operand bytes an opcode expects after its opcode byte.
#[derive(Clone, Copy, PartialEq, Eq, Structural, Debug)]
pub enum Shape {
    /// No operands.
    Bare,
    /// One register index in a full byte.
    OneReg,
    /// Two register indices packed into one byte.
    TwoReg,
    /// A register byte, then a 1-byte immediate.
    RegImm1,
    /// A register byte, then a 2-byte big-endian immediate.
    RegImm2,
    /// A register byte, then a 4-byte big-endian immediate.
    RegImm4,
    /// A 4-byte big-endian immediate and nothing else.
    Imm4,
}

/// The operand shape of each defined opcode; `None` for a byte that is no
/// opcode.
pub open spec fn spec_opcode_shape(op: u8) -> Option<Shape> {
    if op == OP_BRK {
        Some(Shape::Bare)
    } else if op == OP_CPY {
        Some(Shape::TwoReg)
    } else if op == OP_LD8 {
        Some(Shape::RegImm1)
    } else if op == OP_LD16 {
        Some(Shape::RegImm2)
    } else if op == OP_LD32 {
        Some(Shape::RegImm4)
    } else if OP_RD8 <= op && op <= OP_GEQ {
        Some(Shape::TwoReg)
    } else if op == OP_NOT || op == OP_PRINT {
        Some(Shape::OneReg)
    } else if op == OP_JMP {
        Some(Shape::Imm4)
    } else if op == OP_JMPIF {
        Some(Shape::RegImm4)
    } else {
        None
    }
}

pub fn opcode_shape(op: u8) -> (r: Option<Shape>)
    ensures
        r == spec_opcode_shape(op),
{
    if op == OP_BRK {
        Some(Shape::Bare)
    } else if op == OP_CPY {
        Some(Shape::TwoReg)
    } else if op == OP_LD8 {
        Some(Shape::RegImm1)
    } else if op == OP_LD16 {
        Some(Shape::RegImm2)
    } else if op == OP_LD32 {
        Some(Shape::RegImm4)
    } else if OP_RD8 <= op && op <= OP_GEQ {
        Some(Shape::TwoReg)
    } else if op == OP_NOT || op == OP_PRINT {
        Some(Shape::OneReg)
    } else if op == OP_JMP {
        Some(Shape::Imm4)
    } else if op == OP_JMPIF {
        Some(Shape::RegImm4)
    } else {
        None
    }
}

/// The opcode and operand shape of a mnemonic word; `None` for a word that
/// is no mnemonic. Mnemonics are case-sensitive.
pub open spec fn mnemonic_spec(w: Seq<char>) -> Option<(u8, Shape)> {
    if w == "BRK"@ {
        Some((OP_BRK, Shape::Bare))
    } else if w == "CPY"@ {
        Some((OP_CPY, Shape::TwoReg))
    } else if w == "LD8"@ {
        Some((OP_LD8, Shape::RegImm1))
    } else if w == "LD16"@ {
        Some((OP_LD16, Shape::RegImm2))
    } else if w == "LD32"@ {
        Some((OP_LD32, Shape::RegImm4))
    } else if w == "RD8"@ {
        Some((OP_RD8, Shape::TwoReg))
    } else if w == "RD16"@ {
        Some((OP_RD16, Shape::TwoReg))
    } else if w == "RD32"@ {
        Some((OP_RD32, Shape::TwoReg))
    } else if w == "WR8"@ {
        Some((OP_WR8, Shape::TwoReg))
    } else if w == "WR16"@ {
        Some((OP_WR16, Shape::TwoReg))
    } else if w == "WR32"@ {
        Some((OP_WR32, Shape::TwoReg))
    } else if w == "ADD"@ {
        Some((OP_ADD, Shape::TwoReg))
    } else if w == "SUB"@ {
        Some((OP_SUB, Shape::TwoReg))
    } else if w == "MUL"@ {
        Some((OP_MUL, Shape::TwoReg))
    } else if w == "DIV"@ {
        Some((OP_DIV, Shape::TwoReg))
    } else if w == "SHL"@ {
        Some((OP_SHL, Shape::TwoReg))
    } else if w == "SHR"@ {
        Some((OP_SHR, Shape::TwoReg))
    } else if w == "EQ"@ {
        Some((OP_EQ, Shape::TwoReg))
    } else if w == "NEQ"@ {
        Some((OP_NEQ, Shape::TwoReg))
    } else if w == "LT"@ {
        Some((OP_LT, Shape::TwoReg))
    } else if w == "LEQ"@ {
        Some((OP_LEQ, Shape::TwoReg))
    } else if w == "GT"@ {
        Some((OP_GT, Shape::TwoReg))
    } else if w == "GEQ"@ {
        Some((OP_GEQ, Shape::TwoReg))
    } else if w == "NOT"@ {
        Some((OP_NOT, Shape::OneReg))
    } else if w == "JMP"@ {
        Some((OP_JMP, Shape::Imm4))
    } else if w == "JMPIF"@ {
        Some((OP_JMPIF, Shape::RegImm4))
    } else if w == "PRINT"@ {
        Some((OP_PRINT, Shape::OneReg))
    } else {
        None
    }
}

pub fn lookup_mnemonic(w: &str) -> (r: Option<(u8, Shape)>)
    ensures
        r == mnemonic_spec(w@),
{
    if str_eq(w, "BRK") {
        Some((OP_BRK, Shape::Bare))
    } else if str_eq(w, "CPY") {
        Some((OP_CPY, Shape::TwoReg))
    } else if str_eq(w, "LD8") {
        Some((OP_LD8, Shape::RegImm1))
    } else if str_eq(w, "LD16") {
        Some((OP_LD16, Shape::RegImm2))
    } else if str_eq(w, "LD32") {
        Some((OP_LD32, Shape::RegImm4))
    } else if str_eq(w, "RD8") {
        Some((OP_RD8, Shape::TwoReg))
    } else if str_eq(w, "RD16") {
        Some((OP_RD16, Shape::TwoReg))
    } else if str_eq(w, "RD32") {
        Some((OP_RD32, Shape::TwoReg))
    } else if str_eq(w, "WR8") {
        Some((OP_WR8, Shape::TwoReg))
    } else if str_eq(w, "WR16") {
        Some((OP_WR16, Shape::TwoReg))
    } else if str_eq(w, "WR32") {
        Some((OP_WR32, Shape::TwoReg))
    } else if str_eq(w, "ADD") {
        Some((OP_ADD, Shape::TwoReg))
    } else if str_eq(w, "SUB") {
        Some((OP_SUB, Shape::TwoReg))
    } else if str_eq(w, "MUL") {
        Some((OP_MUL, Shape::TwoReg))
    } else if str_eq(w, "DIV") {
        Some((OP_DIV, Shape::TwoReg))
    } else if str_eq(w, "SHL") {
        Some((OP_SHL, Shape::TwoReg))
    } else if str_eq(w, "SHR") {
        Some((OP_SHR, Shape::TwoReg))
    } else if str_eq(w, "EQ") {
        Some((OP_EQ, Shape::TwoReg))
    } else if str_eq(w, "NEQ") {
        Some((OP_NEQ, Shape::TwoReg))
    } else if str_eq(w, "LT") {
        Some((OP_LT, Shape::TwoReg))
    } else if str_eq(w, "LEQ") {
        Some((OP_LEQ, Shape::TwoReg))
    } else if str_eq(w, "GT") {
        Some((OP_GT, Shape::TwoReg))
    } else if str_eq(w, "GEQ") {
        Some((OP_GEQ, Shape::TwoReg))
    } else if str_eq(w, "NOT") {
        Some((OP_NOT, Shape::OneReg))
    } else if str_eq(w, "JMP") {
        Some((OP_JMP, Shape::Imm4))
    } else if str_eq(w, "JMPIF") {
        Some((OP_JMPIF, Shape::RegImm4))
    } else if str_eq(w, "PRINT") {
        Some((OP_PRINT, Shape::OneReg))
    } else {
        None
    }
}

/// A mnemonic's opcode decodes back to the mnemonic's own operand shape.
pub proof fn lemma_mnemonic_shape_agrees(w: Seq<char>)
    ensures
        match mnemonic_spec(w) {
            Some((op, shape)) => spec_opcode_shape(op) == Some(shape),
            None => true,
        },
{
}

/// Two register indices packed into one operand byte: bits 7-5 and 4-2.
pub open spec fn pack_regs(r1: u8, r2: u8) -> u8 {
    (r1 << 5) | (r2 << 2)
}

/// The register index in bits 7-5 of a packed operand byte.
pub open spec fn first_reg(b: u8) -> u8 {
    b >> 5
}

/// The register index in bits 4-2 of a packed operand byte.
pub open spec fn second_reg(b: u8) -> u8 {
    (b >> 2) & 7
}

/// Unpacking recovers what was packed, for register indices 0-7; and an
/// unpacked index can only name registers 0-7, whatever the byte.
pub proof fn lemma_pack_unpack(r1: u8, r2: u8)
    requires
        r1 < 8,
        r2 < 8,
    ensures
        first_reg(pack_regs(r1, r2)) == r1,
        second_reg(pack_regs(r1, r2)) == r2,
{
    assert(((r1 << 5) | (r2 << 2)) >> 5 == r1) by (bit_vector)
        requires
            r1 < 8 && r2 < 8,
    ;
    assert(((((r1 << 5) | (r2 << 2)) >> 2) & 7) == r2) by (bit_vector)
        requires
            r1 < 8 && r2 < 8,
    ;
}

/// Every decoded register index lies in 0-7.
pub proof fn lemma_unpack_bounded(b: u8)
    ensures
        first_reg(b) < 8,
        second_reg(b) < 8,
        (b & 7) < 8,
{
    assert(b >> 5 < 8) by (bit_vector);
    assert(((b >> 2) & 7) < 8) by (bit_vector);
    assert((b & 7) < 8) by (bit_vector);
}

/// The value of a 2-byte big-endian immediate, zero-extended.
pub open spec fn be16_val(b0: u8, b1: u8) -> u32 {
    ((b0 as int) * 0x100 + (b1 as int)) as u32
}

/// The value of a 4-byte big-endian immediate.
pub open spec fn be32_val(b0: u8, b1: u8, b2: u8, b3: u8) -> u32 {
    ((b0 as int) * 0x1000000 + (b1 as int) * 0x10000 + (b2 as int) * 0x100 + (b3 as int)) as u32
}

/// The low two bytes of `v`, big-endian.
pub open spec fn be16_bytes(v: u32) -> Seq<u8> {
    seq![((v as int / 0x100) % 0x100) as u8, ((v as int) % 0x100) as u8]
}

/// The four bytes of `v`, big-endian.
pub open spec fn be32_bytes(v: u32) -> Seq<u8> {
    seq![
        ((v as int / 0x1000000) % 0x100) as u8,
        ((v as int / 0x10000) % 0x100) as u8,
        ((v as int / 0x100) % 0x100) as u8,
        ((v as int) % 0x100) as u8,
    ]
}

/// Reading back the big-endian bytes of a value gives the value: the low
/// two bytes for the 2-byte form, everything for the 4-byte form.
pub proof fn lemma_be_round_trip(v: u32)
    ensures
        be16_val(be16_bytes(v)[0], be16_bytes(v)[1]) == v as int % 0x10000,
        be32_val(be32_bytes(v)[0], be32_bytes(v)[1], be32_bytes(v)[2], be32_bytes(v)[3]) == v,
{
    let n = v as int;
    assert((n / 0x100) % 0x100 * 0x100 + n % 0x100 == n % 0x10000) by (nonlinear_arith)
        requires
            0 <= n < 0x100000000,
    ;
    assert((n / 0x1000000) % 0x100 * 0x1000000 + (n / 0x10000) % 0x100 * 0x10000 + (n / 0x100)
        % 0x100 * 0x100 + n % 0x100 == n) by (nonlinear_arith)
        requires
            0 <= n < 0x100000000,
    ;
}

} // verus!
