//! Serialisation of instructions to machine bytes.

pub mod binary;
pub mod instr;
pub mod program;
pub mod push_pop;

use vstd::prelude::*;
use crate::x86::Reg;

verus! {

/// Splits a register number into the extension bit that goes into the REX
/// prefix and the three bits that go into ModR/M or the opcode.
pub fn encode_reg(reg: &Reg) -> (r: (u8, u8))
    ensures
        r.0 as int == reg.number() / 8,
        r.1 as int == reg.number() % 8,
{
    let n: u8 = reg.index();
    (n / 8, n % 8)
}

/// The four bytes of `v` in two's complement, least significant first.
pub open spec fn le_bytes32(v: int) -> Seq<u8> {
    let u = v % 0x1_0000_0000;
    seq![
        (u % 256) as u8,
        (u / 0x100 % 256) as u8,
        (u / 0x1_0000 % 256) as u8,
        (u / 0x100_0000 % 256) as u8,
    ]
}

/// The REX prefix with operand-size bit `w` and extension bits `r`, `x` and `b`.
pub open spec fn rex(w: int, r: int, x: int, b: int) -> u8 {
    (0x40 + 8 * w + 4 * r + 2 * x + b) as u8
}

/// The ModR/M byte with addressing mode `mode` and fields `reg` and `rm`.
pub open spec fn modrm(mode: int, reg: int, rm: int) -> u8 {
    (64 * mode + 8 * reg + rm) as u8
}

/// Whether a memory operand based on `base` needs a SIB byte: the `rm`
/// code of `RSP` and `R12` stands for "SIB follows".
pub open spec fn needs_sib(base: Reg) -> bool {
    base.number() % 8 == 4
}

/// ModR/M, SIB where needed, and 32-bit displacement of the memory operand
/// `[base + off]`, with `reg` in the ModR/M register field.
pub open spec fn mem_operand(reg: int, base: Reg, off: int) -> Seq<u8> {
    seq![modrm(2, reg, base.number() % 8)] + (if needs_sib(base) {
        seq![0x24u8]
    } else {
        Seq::<u8>::empty()
    }) + le_bytes32(off)
}

/// Appends [`mem_operand`] to `out`.
pub fn push_mem_operand(out: &mut Vec<u8>, reg: u8, base: &Reg, off: i32)
    requires
        reg < 8,
    ensures
        final(out)@ == old(out)@ + mem_operand(reg as int, *base, off as int),
{
    let (_, rm) = encode_reg(base);
    out.push(128 + 8 * reg + rm);
    if rm == 4 {
        out.push(0x24);
    }
    push_le32(out, off);
    assert(out@ =~= old(out)@ + mem_operand(reg as int, *base, off as int));
}

/// Appends the little-endian bytes of `v` to `out`.
pub fn push_le32(out: &mut Vec<u8>, v: i32)
    ensures
        final(out)@ == old(out)@ + le_bytes32(v as int),
{
    let wide: i64 = if v >= 0 {
        v as i64
    } else {
        v as i64 + 0x1_0000_0000
    };
    let u: u32 = wide as u32;
    assert(u as int == (v as int) % 0x1_0000_0000);
    out.push((u % 256) as u8);
    out.push((u / 0x100 % 256) as u8);
    out.push((u / 0x1_0000 % 256) as u8);
    out.push((u / 0x100_0000 % 256) as u8);
    assert(out@ =~= old(out)@ + le_bytes32(v as int));
}

} // verus!
