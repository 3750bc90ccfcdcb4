//! Encoding of the two-operand instructions.

use vstd::prelude::*;
use crate::emit::{encode_reg, le_bytes32, mem_operand, modrm, push_le32, push_mem_operand, rex};
use crate::error::CompileError;
use crate::x86::Arg;

verus! {

/// The opcodes of one two-operand instruction.
#[derive(Clone, Copy, Debug, PartialEq, Eq)]
pub struct BinaryOpInfo {
    /// Opcode when the source is a register and the destination a register
    /// or memory.
    pub r_rm: u8,
    /// Opcode when the source is memory and the destination a register.
    pub rm_r: u8,
    /// Opcode when the source is an immediate.
    pub i_rm: u8,
    /// What stands in the register field of ModR/M when the source is an
    /// immediate.
    pub pad: u8,
}

impl BinaryOpInfo {
    /// `pad` fits the three bits of the field it goes into.
    pub open spec fn wf(self) -> bool {
        self.pad < 8
    }
}

/// The opcodes of `Add`.
pub fn addq_info() -> (info: BinaryOpInfo)
    ensures
        info == (BinaryOpInfo { r_rm: 0x01, rm_r: 0x03, i_rm: 0x81, pad: 0x00 }),
        info.wf(),
{
    BinaryOpInfo { r_rm: 0x01, rm_r: 0x03, i_rm: 0x81, pad: 0x00 }
}

/// The opcodes of `Sub`.
pub fn subq_info() -> (info: BinaryOpInfo)
    ensures
        info == (BinaryOpInfo { r_rm: 0x29, rm_r: 0x2B, i_rm: 0x81, pad: 0x05 }),
        info.wf(),
{
    BinaryOpInfo { r_rm: 0x29, rm_r: 0x2B, i_rm: 0x81, pad: 0x05 }
}

/// The opcodes of `Cmp`.
pub fn compare_info() -> (info: BinaryOpInfo)
    ensures
        info == (BinaryOpInfo { r_rm: 0x39, rm_r: 0x3B, i_rm: 0x81, pad: 0x07 }),
        info.wf(),
{
    BinaryOpInfo { r_rm: 0x39, rm_r: 0x3B, i_rm: 0x81, pad: 0x07 }
}

/// The opcodes of `And`.
pub fn andq_info() -> (info: BinaryOpInfo)
    ensures
        info == (BinaryOpInfo { r_rm: 0x21, rm_r: 0x23, i_rm: 0x81, pad: 0x04 }),
        info.wf(),
{
    BinaryOpInfo { r_rm: 0x21, rm_r: 0x23, i_rm: 0x81, pad: 0x04 }
}

/// The opcodes of `Or`.
pub fn orq_info() -> (info: BinaryOpInfo)
    ensures
        info == (BinaryOpInfo { r_rm: 0x09, rm_r: 0x0B, i_rm: 0x81, pad: 0x01 }),
        info.wf(),
{
    BinaryOpInfo { r_rm: 0x09, rm_r: 0x0B, i_rm: 0x81, pad: 0x01 }
}

/// The opcodes of `Xor`.
pub fn xorq_info() -> (info: BinaryOpInfo)
    ensures
        info == (BinaryOpInfo { r_rm: 0x31, rm_r: 0x33, i_rm: 0x81, pad: 0x06 }),
        info.wf(),
{
    BinaryOpInfo { r_rm: 0x31, rm_r: 0x33, i_rm: 0x81, pad: 0x06 }
}

/// The opcodes of `Mov`.
pub fn movq_info() -> (info: BinaryOpInfo)
    ensures
        info == (BinaryOpInfo { r_rm: 0x89, rm_r: 0x8B, i_rm: 0xC7, pad: 0x00 }),
        info.wf(),
{
    BinaryOpInfo { r_rm: 0x89, rm_r: 0x8B, i_rm: 0xC7, pad: 0x00 }
}

/// The bytes of a two-operand instruction, or `None` for the operand pairs
/// that the processor has no form for: memory to memory, and anything into
/// an immediate.
pub open spec fn binary_encoding(info: BinaryOpInfo, src: Arg, dst: Arg) -> Option<Seq<u8>> {
    match (src, dst) {
        (Arg::Reg(s), Arg::Reg(d)) => Some(
            seq![
                rex(1, s.number() / 8, 0, d.number() / 8),
                info.r_rm,
                modrm(3, s.number() % 8, d.number() % 8),
            ],
        ),
        (Arg::Deref { reg: s, off }, Arg::Reg(d)) => Some(
            seq![rex(1, d.number() / 8, 0, s.number() / 8), info.rm_r] + mem_operand(
                d.number() % 8,
                s,
                off as int,
            ),
        ),
        (Arg::Reg(s), Arg::Deref { reg: d, off }) => Some(
            seq![rex(1, s.number() / 8, 0, d.number() / 8), info.r_rm] + mem_operand(
                s.number() % 8,
                d,
                off as int,
            ),
        ),
        (Arg::Imm(imm), Arg::Reg(d)) => Some(
            seq![rex(1, 0, 0, d.number() / 8), info.i_rm, modrm(3, info.pad as int, d.number() % 8)]
                + le_bytes32(imm as int),
        ),
        (Arg::Imm(imm), Arg::Deref { reg: d, off }) => Some(
            seq![rex(1, 0, 0, d.number() / 8), info.i_rm] + mem_operand(
                info.pad as int,
                d,
                off as int,
            ) + le_bytes32(imm as int),
        ),
        (Arg::Deref { .. }, Arg::Deref { .. }) => None,
        (_, Arg::Imm(_)) => None,
    }
}

/// Encodes the instruction that `op_info` describes, applied to `src` and `dst`.
pub fn encode_binary_instr(op_info: BinaryOpInfo, src: &Arg, dst: &Arg) -> (r: Result<
    Vec<u8>,
    CompileError,
>)
    requires
        op_info.wf(),
    ensures
        match binary_encoding(op_info, *src, *dst) {
            Some(bytes) => r is Ok && r->Ok_0@ == bytes,
            None => r == Err::<Vec<u8>, CompileError>(CompileError::Unreachable),
        },
{
    let mut v: Vec<u8> = Vec::new();
    match (src, dst) {
        (Arg::Reg(src), Arg::Reg(dst)) => {
            let (s, sss) = encode_reg(src);
            let (d, ddd) = encode_reg(dst);
            v.push(0x48 + 4 * s + d);
            v.push(op_info.r_rm);
            v.push(0xC0 + 8 * sss + ddd);
        },
        (Arg::Deref { reg: src, off }, Arg::Reg(dst)) => {
            let (s, _) = encode_reg(src);
            let (d, ddd) = encode_reg(dst);
            v.push(0x48 + 4 * d + s);
            v.push(op_info.rm_r);
            push_mem_operand(&mut v, ddd, src, *off);
        },
        (Arg::Reg(src), Arg::Deref { reg: dst, off }) => {
            let (s, sss) = encode_reg(src);
            let (d, _) = encode_reg(dst);
            v.push(0x48 + 4 * s + d);
            v.push(op_info.r_rm);
            push_mem_operand(&mut v, sss, dst, *off);
        },
        (Arg::Imm(imm), Arg::Reg(dst)) => {
            let (d, ddd) = encode_reg(dst);
            v.push(0x48 + d);
            v.push(op_info.i_rm);
            v.push(0xC0 + 8 * op_info.pad + ddd);
            push_le32(&mut v, *imm);
        },
        (Arg::Imm(imm), Arg::Deref { reg: dst, off }) => {
            let (d, _) = encode_reg(dst);
            v.push(0x48 + d);
            v.push(op_info.i_rm);
            push_mem_operand(&mut v, op_info.pad, dst, *off);
            push_le32(&mut v, *imm);
        },
        (Arg::Deref { .. }, Arg::Deref { .. }) => {
            return Err(CompileError::Unreachable);
        },
        (_, Arg::Imm(_)) => {
            return Err(CompileError::Unreachable);
        },
    }
    assert(v@ =~= binary_encoding(op_info, *src, *dst)->Some_0);
    Ok(v)
}

} // verus!
