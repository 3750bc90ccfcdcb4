//! Encoding of `Push` and `Pop`.

use vstd::prelude::*;
use crate::emit::{encode_reg, le_bytes32, mem_operand, push_le32, push_mem_operand};
use crate::x86::Arg;

verus! {

/// The opcodes of `Push` or of `Pop`.
#[derive(Clone, Copy, Debug, PartialEq, Eq)]
pub struct PushPopInfo {
    /// Opcode of the register form; the register's code is added to it.
    pub op_reg: u8,
    /// Opcode of the memory form.
    pub op_deref: u8,
    /// Opcode of the immediate form.
    pub op_imm: u8,
    /// What stands in the register field of ModR/M in the memory form.
    pub imm_as_src: u8,
}

impl PushPopInfo {
    /// The register opcode leaves its low three bits to the register, and
    /// `imm_as_src` fits the three bits of the field it goes into.
    pub open spec fn wf(self) -> bool {
        self.op_reg % 8 == 0 && self.imm_as_src < 8
    }
}

/// The opcodes of `Push`.
pub fn pushq_info() -> (info: PushPopInfo)
    ensures
        info == (PushPopInfo { op_reg: 0x50, op_deref: 0xFF, op_imm: 0x68, imm_as_src: 6 }),
        info.wf(),
{
    PushPopInfo { op_reg: 0x50, op_deref: 0xFF, op_imm: 0x68, imm_as_src: 6 }
}

/// The opcodes of `Pop`. There is no pop into an immediate, so `op_imm`
/// is never emitted.
pub fn popq_info() -> (info: PushPopInfo)
    ensures
        info == (PushPopInfo { op_reg: 0x58, op_deref: 0x8F, op_imm: 0x00, imm_as_src: 0 }),
        info.wf(),
{
    PushPopInfo { op_reg: 0x58, op_deref: 0x8F, op_imm: 0x00, imm_as_src: 0 }
}

/// The prefix that a one-operand instruction needs for a register numbered
/// eight or higher.
pub open spec fn rex_b_prefix(ext: int) -> Seq<u8> {
    if ext == 0 {
        Seq::<u8>::empty()
    } else {
        seq![0x41u8]
    }
}

/// The bytes of a push or pop of `arg`.
pub open spec fn push_pop_encoding(info: PushPopInfo, arg: Arg) -> Seq<u8> {
    match arg {
        Arg::Imm(val) => seq![info.op_imm] + le_bytes32(val as int),
        Arg::Reg(reg) => rex_b_prefix(reg.number() / 8) + seq![
            (info.op_reg + reg.number() % 8) as u8,
        ],
        Arg::Deref { reg, off } => rex_b_prefix(reg.number() / 8) + seq![info.op_deref]
            + mem_operand(info.imm_as_src as int, reg, off as int),
    }
}

/// Encodes the push or pop that `op_info` describes, applied to `reg`.
pub fn encode_push_pop(op_info: PushPopInfo, reg: &Arg) -> (v: Vec<u8>)
    requires
        op_info.wf(),
    ensures
        v@ == push_pop_encoding(op_info, *reg),
{
    let mut v: Vec<u8> = Vec::new();
    match reg {
        Arg::Imm(val) => {
            v.push(op_info.op_imm);
            push_le32(&mut v, *val);
        },
        Arg::Reg(reg) => {
            let (r, rrr) = encode_reg(reg);
            if r != 0 {
                v.push(0x41);
            }
            v.push(op_info.op_reg + rrr);
        },
        Arg::Deref { reg, off } => {
            let (r, _) = encode_reg(reg);
            if r != 0 {
                v.push(0x41);
            }
            v.push(op_info.op_deref);
            push_mem_operand(&mut v, op_info.imm_as_src, reg, *off);
        },
    }
    assert(v@ =~= push_pop_encoding(op_info, *reg));
    v
}

} // verus!
