//! Encoding of single instructions.

use vstd::prelude::*;
use crate::emit::binary::{
    addq_info,
    andq_info,
    binary_encoding,
    compare_info,
    encode_binary_instr,
    movq_info,
    orq_info,
    subq_info,
    xorq_info,
    BinaryOpInfo,
};
use crate::emit::push_pop::{
    encode_push_pop,
    popq_info,
    push_pop_encoding,
    pushq_info,
    rex_b_prefix,
    PushPopInfo,
};
use crate::emit::{encode_reg, le_bytes32, mem_operand, modrm, push_le32, push_mem_operand, rex};
use crate::error::CompileError;
use crate::x86::{Arg, Cnd, Instr, Reg};

verus! {

impl Cnd {
    /// The four bits that stand for the condition in the opcodes of `Jcc`
    /// and `Setcc`.
    pub open spec fn code(self) -> u8 {
        match self {
            Cnd::Overflow => 0x0,
            Cnd::NotOverflow => 0x1,
            Cnd::Below | Cnd::Carry => 0x2,
            Cnd::AboveOrEqual | Cnd::NotCarry => 0x3,
            Cnd::EQ => 0x4,
            Cnd::NE => 0x5,
            Cnd::BelowOrEqual => 0x6,
            Cnd::Above => 0x7,
            Cnd::Sign => 0x8,
            Cnd::NotSign => 0x9,
            Cnd::ParityEven => 0xA,
            Cnd::ParityOdd => 0xB,
            Cnd::LT => 0xC,
            Cnd::GE => 0xD,
            Cnd::LE => 0xE,
            Cnd::GT => 0xF,
        }
    }

    /// Computes [`Cnd::code`].
    pub fn encode(self) -> (c: u8)
        ensures
            c == self.code(),
            c < 16,
    {
        match self {
            Cnd::Overflow => 0x0,
            Cnd::NotOverflow => 0x1,
            Cnd::Below | Cnd::Carry => 0x2,
            Cnd::AboveOrEqual | Cnd::NotCarry => 0x3,
            Cnd::EQ => 0x4,
            Cnd::NE => 0x5,
            Cnd::BelowOrEqual => 0x6,
            Cnd::Above => 0x7,
            Cnd::Sign => 0x8,
            Cnd::NotSign => 0x9,
            Cnd::ParityEven => 0xA,
            Cnd::ParityOdd => 0xB,
            Cnd::LT => 0xC,
            Cnd::GE => 0xD,
            Cnd::LE => 0xE,
            Cnd::GT => 0xF,
        }
    }
}

/// The bytes of an instruction of the group with opcode `0xF7`, which
/// `digit` picks the member of, applied to `arg`; `None` for an immediate,
/// which these instructions have no form for.
pub open spec fn unary_encoding(digit: int, arg: Arg) -> Option<Seq<u8>> {
    match arg {
        Arg::Imm(_) => None,
        Arg::Reg(reg) => Some(
            seq![rex(1, 0, 0, reg.number() / 8), 0xF7u8, modrm(3, digit, reg.number() % 8)],
        ),
        Arg::Deref { reg, off } => Some(
            seq![rex(1, 0, 0, reg.number() / 8), 0xF7u8] + mem_operand(digit, reg, off as int),
        ),
    }
}

/// Encodes an instruction of the group with opcode `0xF7`.
pub fn encode_unary_instr(digit: u8, arg: &Arg) -> (r: Result<Vec<u8>, CompileError>)
    requires
        digit < 8,
    ensures
        match unary_encoding(digit as int, *arg) {
            Some(bytes) => r is Ok && r->Ok_0@ == bytes,
            None => r == Err::<Vec<u8>, CompileError>(CompileError::Unreachable),
        },
{
    let mut v: Vec<u8> = Vec::new();
    match arg {
        Arg::Imm(_) => {
            return Err(CompileError::Unreachable);
        },
        Arg::Reg(reg) => {
            let (r, rrr) = encode_reg(reg);
            v.push(0x48 + r);
            v.push(0xF7);
            v.push(0xC0 + 8 * digit + rrr);
        },
        Arg::Deref { reg, off } => {
            let (r, _) = encode_reg(reg);
            v.push(0x48 + r);
            v.push(0xF7);
            push_mem_operand(&mut v, digit, reg, *off);
        },
    }
    assert(v@ =~= unary_encoding(digit as int, *arg)->Some_0);
    Ok(v)
}

/// The bytes of an indirect call through `arg`; `None` for an immediate.
pub open spec fn call_indirect_encoding(arg: Arg) -> Option<Seq<u8>> {
    match arg {
        Arg::Imm(_) => None,
        Arg::Reg(reg) => Some(
            rex_b_prefix(reg.number() / 8) + seq![0xFFu8, modrm(3, 2, reg.number() % 8)],
        ),
        Arg::Deref { reg, off } => Some(
            rex_b_prefix(reg.number() / 8) + seq![0xFFu8] + mem_operand(2, reg, off as int),
        ),
    }
}

/// The bytes of the instruction that loads into `dst` the address that lies
/// `rel` bytes after the instruction; `None` unless `dst` is a register.
pub open spec fn load_encoding(dst: Arg, rel: int) -> Option<Seq<u8>> {
    match dst {
        Arg::Reg(reg) => Some(
            seq![rex(1, reg.number() / 8, 0, 0), 0x8Du8, modrm(0, reg.number() % 8, 5)]
                + le_bytes32(rel),
        ),
        _ => None,
    }
}

/// The opcodes of the two-operand instruction that `instr` is.
pub open spec fn binary_info<'p>(instr: Instr<'p, Arg>) -> Option<BinaryOpInfo> {
    match instr {
        Instr::Add { .. } => Some(BinaryOpInfo { r_rm: 0x01, rm_r: 0x03, i_rm: 0x81, pad: 0x00 }),
        Instr::Sub { .. } => Some(BinaryOpInfo { r_rm: 0x29, rm_r: 0x2B, i_rm: 0x81, pad: 0x05 }),
        Instr::Cmp { .. } => Some(BinaryOpInfo { r_rm: 0x39, rm_r: 0x3B, i_rm: 0x81, pad: 0x07 }),
        Instr::And { .. } => Some(BinaryOpInfo { r_rm: 0x21, rm_r: 0x23, i_rm: 0x81, pad: 0x04 }),
        Instr::Or { .. } => Some(BinaryOpInfo { r_rm: 0x09, rm_r: 0x0B, i_rm: 0x81, pad: 0x01 }),
        Instr::Xor { .. } => Some(BinaryOpInfo { r_rm: 0x31, rm_r: 0x33, i_rm: 0x81, pad: 0x06 }),
        Instr::Mov { .. } => Some(BinaryOpInfo { r_rm: 0x89, rm_r: 0x8B, i_rm: 0xC7, pad: 0x00 }),
        _ => None,
    }
}

/// The machine code of `instr`, where a label that `instr` refers to lies
/// `rel` bytes after the end of the instruction; `None` if the processor
/// has no form for the operands of `instr`.
pub open spec fn encoding<'p>(instr: Instr<'p, Arg>, rel: int) -> Option<Seq<u8>> {
    match instr {
        Instr::Add { src, dst }
        | Instr::Sub { src, dst }
        | Instr::And { src, dst }
        | Instr::Or { src, dst }
        | Instr::Xor { src, dst }
        | Instr::Cmp { src, dst }
        | Instr::Mov { src, dst } => binary_encoding(binary_info(instr)->Some_0, src, dst),
        Instr::Push { src } => Some(
            push_pop_encoding(
                PushPopInfo { op_reg: 0x50, op_deref: 0xFF, op_imm: 0x68, imm_as_src: 6 },
                src,
            ),
        ),
        Instr::Pop { dst } => if dst is Imm {
            None
        } else {
            Some(
                push_pop_encoding(
                    PushPopInfo { op_reg: 0x58, op_deref: 0x8F, op_imm: 0x00, imm_as_src: 0 },
                    dst,
                ),
            )
        },
        Instr::Neg { dst } => unary_encoding(3, dst),
        Instr::Not { dst } => unary_encoding(2, dst),
        Instr::Mul { src } => unary_encoding(4, src),
        Instr::Div { divisor } => unary_encoding(6, divisor),
        Instr::Jmp { .. } => Some(seq![0xE9u8] + le_bytes32(rel)),
        Instr::Jcc { cnd, .. } => Some(seq![0x0Fu8, (0x80 + cnd.code()) as u8] + le_bytes32(rel)),
        Instr::Setcc { cnd } => Some(seq![0x0Fu8, (0x90 + cnd.code()) as u8, 0xC0u8]),
        Instr::LoadLbl { dst, .. } => load_encoding(dst, rel),
        Instr::CallDirect { .. } => Some(seq![0xE8u8] + le_bytes32(rel)),
        Instr::CallIndirect { src, .. } => call_indirect_encoding(src),
        Instr::Syscall { .. } => Some(seq![0x0Fu8, 0x05u8]),
        Instr::Ret => Some(seq![0xC3u8]),
    }
}

/// The label that `instr` refers to.
pub open spec fn target<'p>(instr: Instr<'p, Arg>) -> Option<crate::symbol::UniqueSym<'p>> {
    match instr {
        Instr::Jmp { lbl }
        | Instr::Jcc { lbl, .. }
        | Instr::LoadLbl { lbl, .. }
        | Instr::CallDirect { lbl, .. } => Some(lbl),
        _ => None,
    }
}

/// How long the code of an instruction is does not depend on where the
/// label lies that it refers to, and an instruction that refers to no
/// label has the same code wherever it stands.
pub proof fn lemma_encoding_len<'p>(instr: Instr<'p, Arg>, rel1: int, rel2: int)
    ensures
        encoding(instr, rel1) is Some <==> encoding(instr, rel2) is Some,
        encoding(instr, rel1) is Some ==> encoding(instr, rel1)->Some_0.len() == encoding(
            instr,
            rel2,
        )->Some_0.len(),
        target(instr) is None ==> encoding(instr, rel1) == encoding(instr, rel2),
{
    match instr {
        Instr::Jmp { .. } => {
            assert(encoding(instr, rel1)->Some_0.len() == 5);
            assert(encoding(instr, rel2)->Some_0.len() == 5);
        },
        Instr::Jcc { .. } => {
            assert(encoding(instr, rel1)->Some_0.len() == 6);
            assert(encoding(instr, rel2)->Some_0.len() == 6);
        },
        Instr::CallDirect { .. } => {
            assert(encoding(instr, rel1)->Some_0.len() == 5);
            assert(encoding(instr, rel2)->Some_0.len() == 5);
        },
        Instr::LoadLbl { dst, .. } => {
            if dst is Reg {
                assert(encoding(instr, rel1)->Some_0.len() == 7);
                assert(encoding(instr, rel2)->Some_0.len() == 7);
            }
        },
        _ => {},
    }
}

/// Encodes `instr`, where a label that it refers to lies `rel` bytes after
/// the end of the instruction.
pub fn encode_instr<'p>(instr: &Instr<'p, Arg>, rel: i32) -> (r: Result<Vec<u8>, CompileError>)
    ensures
        match encoding(*instr, rel as int) {
            Some(bytes) => r is Ok && r->Ok_0@ == bytes,
            None => r == Err::<Vec<u8>, CompileError>(CompileError::Unreachable),
        },
{
    match instr {
        Instr::Add { src, dst } => encode_binary_instr(addq_info(), src, dst),
        Instr::Sub { src, dst } => encode_binary_instr(subq_info(), src, dst),
        Instr::And { src, dst } => encode_binary_instr(andq_info(), src, dst),
        Instr::Or { src, dst } => encode_binary_instr(orq_info(), src, dst),
        Instr::Xor { src, dst } => encode_binary_instr(xorq_info(), src, dst),
        Instr::Cmp { src, dst } => encode_binary_instr(compare_info(), src, dst),
        Instr::Mov { src, dst } => encode_binary_instr(movq_info(), src, dst),
        Instr::Push { src } => Ok(encode_push_pop(pushq_info(), src)),
        Instr::Pop { dst } => match dst {
            Arg::Imm(_) => Err(CompileError::Unreachable),
            _ => Ok(encode_push_pop(popq_info(), dst)),
        },
        Instr::Neg { dst } => encode_unary_instr(3, dst),
        Instr::Not { dst } => encode_unary_instr(2, dst),
        Instr::Mul { src } => encode_unary_instr(4, src),
        Instr::Div { divisor } => encode_unary_instr(6, divisor),
        Instr::Jmp { .. } => {
            let mut v: Vec<u8> = Vec::new();
            v.push(0xE9);
            push_le32(&mut v, rel);
            assert(v@ =~= seq![0xE9u8] + le_bytes32(rel as int));
            Ok(v)
        },
        Instr::Jcc { cnd, .. } => {
            let mut v: Vec<u8> = Vec::new();
            v.push(0x0F);
            v.push(0x80 + cnd.encode());
            push_le32(&mut v, rel);
            assert(v@ =~= seq![0x0Fu8, (0x80 + cnd.code()) as u8] + le_bytes32(rel as int));
            Ok(v)
        },
        Instr::Setcc { cnd } => {
            let mut v: Vec<u8> = Vec::new();
            v.push(0x0F);
            v.push(0x90 + cnd.encode());
            v.push(0xC0);
            assert(v@ =~= seq![0x0Fu8, (0x90 + cnd.code()) as u8, 0xC0u8]);
            Ok(v)
        },
        Instr::LoadLbl { dst, .. } => match dst {
            Arg::Reg(reg) => {
                let (r, rrr) = encode_reg(reg);
                let mut v: Vec<u8> = Vec::new();
                v.push(0x48 + 4 * r);
                v.push(0x8D);
                v.push(8 * rrr + 5);
                push_le32(&mut v, rel);
                assert(v@ =~= load_encoding(*dst, rel as int)->Some_0);
                Ok(v)
            },
            _ => Err(CompileError::Unreachable),
        },
        Instr::CallDirect { .. } => {
            let mut v: Vec<u8> = Vec::new();
            v.push(0xE8);
            push_le32(&mut v, rel);
            assert(v@ =~= seq![0xE8u8] + le_bytes32(rel as int));
            Ok(v)
        },
        Instr::CallIndirect { src, .. } => {
            let mut v: Vec<u8> = Vec::new();
            match src {
                Arg::Imm(_) => {
                    return Err(CompileError::Unreachable);
                },
                Arg::Reg(reg) => {
                    let (r, rrr) = encode_reg(reg);
                    if r != 0 {
                        v.push(0x41);
                    }
                    v.push(0xFF);
                    v.push(0xC0 + 8 * 2 + rrr);
                },
                Arg::Deref { reg, off } => {
                    let (r, _) = encode_reg(reg);
                    if r != 0 {
                        v.push(0x41);
                    }
                    v.push(0xFF);
                    push_mem_operand(&mut v, 2, reg, *off);
                },
            }
            assert(v@ =~= call_indirect_encoding(*src)->Some_0);
            Ok(v)
        },
        Instr::Syscall { .. } => {
            let mut v: Vec<u8> = Vec::new();
            v.push(0x0F);
            v.push(0x05);
            assert(v@ =~= seq![0x0Fu8, 0x05u8]);
            Ok(v)
        },
        Instr::Ret => {
            let mut v: Vec<u8> = Vec::new();
            v.push(0xC3);
            assert(v@ =~= seq![0xC3u8]);
            Ok(v)
        },
    }
}

} // verus!
