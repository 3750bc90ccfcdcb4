use compiler::emit::binary::{addq_info, encode_binary_instr, movq_info, BinaryOpInfo};
use compiler::emit::encode_reg;
use compiler::emit::instr::{encode_instr, encode_unary_instr};
use compiler::emit::push_pop::{encode_push_pop, popq_info, pushq_info};
use compiler::error::CompileError;
use compiler::symbol::UniqueSym;
use compiler::x86::{Arg, Cnd, Instr, Reg};

const MAX: i32 = i32::MAX;

fn reg(reg: Reg) -> Arg {
    Arg::Reg(reg)
}

fn imm(val: i32) -> Arg {
    Arg::Imm(val)
}

fn deref(reg: Reg, off: i32) -> Arg {
    Arg::Deref { reg, off }
}

fn label() -> UniqueSym<'static> {
    UniqueSym { sym: "l", id: 0 }
}

fn check(instr: Instr<'static, Arg>, expected: &[u8]) {
    assert_eq!(encode_instr(&instr, 0), Ok(expected.to_vec()), "{:?}", instr);
}

fn check_rel(instr: Instr<'static, Arg>, rel: i32, expected: &[u8]) {
    assert_eq!(encode_instr(&instr, rel), Ok(expected.to_vec()), "{:?}", instr);
}

#[test]
fn register_numbers_split_into_extension_and_code() {
    assert_eq!(encode_reg(&Reg::RAX), (0, 0));
    assert_eq!(encode_reg(&Reg::RCX), (0, 1));
    assert_eq!(encode_reg(&Reg::RSP), (0, 4));
    assert_eq!(encode_reg(&Reg::RDI), (0, 7));
    assert_eq!(encode_reg(&Reg::R8), (1, 0));
    assert_eq!(encode_reg(&Reg::R12), (1, 4));
    assert_eq!(encode_reg(&Reg::R15), (1, 7));
}

#[test]
fn add_in_all_its_forms() {
    check(Instr::Add { src: reg(Reg::RBX), dst: reg(Reg::RAX) }, &[0x48, 0x01, 0xD8]);
    check(Instr::Add { src: reg(Reg::RSP), dst: reg(Reg::RDX) }, &[0x48, 0x01, 0xE2]);
    check(
        Instr::Add { src: imm(MAX), dst: reg(Reg::RBP) },
        &[0x48, 0x81, 0xC5, 0xFF, 0xFF, 0xFF, 0x7F],
    );
    check(
        Instr::Add { src: deref(Reg::RBX, MAX), dst: reg(Reg::RDI) },
        &[0x48, 0x03, 0xBB, 0xFF, 0xFF, 0xFF, 0x7F],
    );
    check(
        Instr::Add { src: deref(Reg::RBX, MAX), dst: reg(Reg::R15) },
        &[0x4C, 0x03, 0xBB, 0xFF, 0xFF, 0xFF, 0x7F],
    );
    check(
        Instr::Add { src: reg(Reg::RCX), dst: deref(Reg::R15, MAX) },
        &[0x49, 0x01, 0x8F, 0xFF, 0xFF, 0xFF, 0x7F],
    );
    check(
        Instr::Add { src: imm(MAX - 0xFF), dst: deref(Reg::R9, MAX) },
        &[0x49, 0x81, 0x81, 0xFF, 0xFF, 0xFF, 0x7F, 0x00, 0xFF, 0xFF, 0x7F],
    );
    check(
        Instr::Add { src: imm(MAX - 0xFF), dst: deref(Reg::RDX, MAX) },
        &[0x48, 0x81, 0x82, 0xFF, 0xFF, 0xFF, 0x7F, 0x00, 0xFF, 0xFF, 0x7F],
    );
}

#[test]
fn sub_in_all_its_forms() {
    check(Instr::Sub { src: reg(Reg::RSP), dst: reg(Reg::RDX) }, &[0x48, 0x29, 0xE2]);
    check(
        Instr::Sub { src: imm(MAX), dst: reg(Reg::RBP) },
        &[0x48, 0x81, 0xED, 0xFF, 0xFF, 0xFF, 0x7F],
    );
    check(
        Instr::Sub { src: deref(Reg::RBX, MAX), dst: reg(Reg::RDI) },
        &[0x48, 0x2B, 0xBB, 0xFF, 0xFF, 0xFF, 0x7F],
    );
    check(
        Instr::Sub { src: deref(Reg::RBX, MAX), dst: reg(Reg::R15) },
        &[0x4C, 0x2B, 0xBB, 0xFF, 0xFF, 0xFF, 0x7F],
    );
    check(
        Instr::Sub { src: reg(Reg::RCX), dst: deref(Reg::R15, MAX) },
        &[0x49, 0x29, 0x8F, 0xFF, 0xFF, 0xFF, 0x7F],
    );
    check(
        Instr::Sub { src: imm(MAX - 0xFF), dst: deref(Reg::R9, MAX) },
        &[0x49, 0x81, 0xA9, 0xFF, 0xFF, 0xFF, 0x7F, 0x00, 0xFF, 0xFF, 0x7F],
    );
    check(
        Instr::Sub { src: imm(MAX - 0xFF), dst: deref(Reg::RDX, MAX) },
        &[0x48, 0x81, 0xAA, 0xFF, 0xFF, 0xFF, 0x7F, 0x00, 0xFF, 0xFF, 0x7F],
    );
}

#[test]
fn mov_in_all_its_forms() {
    check(Instr::Mov { src: reg(Reg::RSP), dst: reg(Reg::RDX) }, &[0x48, 0x89, 0xE2]);
    check(
        Instr::Mov { src: imm(MAX), dst: reg(Reg::RBP) },
        &[0x48, 0xC7, 0xC5, 0xFF, 0xFF, 0xFF, 0x7F],
    );
    check(
        Instr::Mov { src: deref(Reg::RBX, MAX), dst: reg(Reg::RDI) },
        &[0x48, 0x8B, 0xBB, 0xFF, 0xFF, 0xFF, 0x7F],
    );
    check(
        Instr::Mov { src: deref(Reg::RBX, MAX), dst: reg(Reg::R15) },
        &[0x4C, 0x8B, 0xBB, 0xFF, 0xFF, 0xFF, 0x7F],
    );
    check(
        Instr::Mov { src: reg(Reg::RCX), dst: deref(Reg::R15, MAX) },
        &[0x49, 0x89, 0x8F, 0xFF, 0xFF, 0xFF, 0x7F],
    );
    check(
        Instr::Mov { src: reg(Reg::R12), dst: deref(Reg::RBP, -56) },
        &[0x4C, 0x89, 0xA5, 0xC8, 0xFF, 0xFF, 0xFF],
    );
    check(
        Instr::Mov { src: imm(MAX - 0xFF), dst: deref(Reg::R9, MAX) },
        &[0x49, 0xC7, 0x81, 0xFF, 0xFF, 0xFF, 0x7F, 0x00, 0xFF, 0xFF, 0x7F],
    );
    check(
        Instr::Mov { src: imm(MAX - 0xFF), dst: deref(Reg::RDX, MAX) },
        &[0x48, 0xC7, 0x82, 0xFF, 0xFF, 0xFF, 0x7F, 0x00, 0xFF, 0xFF, 0x7F],
    );
}

#[test]
fn compare_in_all_its_forms() {
    check(Instr::Cmp { src: reg(Reg::RSP), dst: reg(Reg::RDX) }, &[0x48, 0x39, 0xE2]);
    check(
        Instr::Cmp { src: imm(MAX), dst: reg(Reg::RBP) },
        &[0x48, 0x81, 0xFD, 0xFF, 0xFF, 0xFF, 0x7F],
    );
    check(
        Instr::Cmp { src: deref(Reg::RBX, MAX), dst: reg(Reg::RDI) },
        &[0x48, 0x3B, 0xBB, 0xFF, 0xFF, 0xFF, 0x7F],
    );
    check(
        Instr::Cmp { src: reg(Reg::RCX), dst: deref(Reg::R15, MAX) },
        &[0x49, 0x39, 0x8F, 0xFF, 0xFF, 0xFF, 0x7F],
    );
    check(
        Instr::Cmp { src: imm(MAX - 0xFF), dst: deref(Reg::R9, MAX) },
        &[0x49, 0x81, 0xB9, 0xFF, 0xFF, 0xFF, 0x7F, 0x00, 0xFF, 0xFF, 0x7F],
    );
}

#[test]
fn logical_operations() {
    check(Instr::And { src: reg(Reg::RSP), dst: reg(Reg::RDX) }, &[0x48, 0x21, 0xE2]);
    check(
        Instr::And { src: imm(MAX), dst: reg(Reg::RBP) },
        &[0x48, 0x81, 0xE5, 0xFF, 0xFF, 0xFF, 0x7F],
    );
    check(
        Instr::And { src: deref(Reg::RBX, MAX), dst: reg(Reg::R15) },
        &[0x4C, 0x23, 0xBB, 0xFF, 0xFF, 0xFF, 0x7F],
    );
    check(Instr::Or { src: reg(Reg::RSP), dst: reg(Reg::RDX) }, &[0x48, 0x09, 0xE2]);
    check(
        Instr::Or { src: imm(MAX), dst: reg(Reg::RBP) },
        &[0x48, 0x81, 0xCD, 0xFF, 0xFF, 0xFF, 0x7F],
    );
    check(
        Instr::Or { src: reg(Reg::R8), dst: deref(Reg::RBP, -8) },
        &[0x4C, 0x09, 0x85, 0xF8, 0xFF, 0xFF, 0xFF],
    );
    check(Instr::Xor { src: reg(Reg::RSP), dst: reg(Reg::RDX) }, &[0x48, 0x31, 0xE2]);
    check(
        Instr::Xor { src: imm(1), dst: reg(Reg::RAX) },
        &[0x48, 0x81, 0xF0, 0x01, 0x00, 0x00, 0x00],
    );
    check(
        Instr::Xor { src: deref(Reg::R13, 16), dst: reg(Reg::RAX) },
        &[0x49, 0x33, 0x85, 0x10, 0x00, 0x00, 0x00],
    );
}

#[test]
fn memory_operands_based_on_rsp_and_r12_take_a_sib_byte() {
    check(
        Instr::Mov { src: reg(Reg::RAX), dst: deref(Reg::RSP, 8) },
        &[0x48, 0x89, 0x84, 0x24, 0x08, 0x00, 0x00, 0x00],
    );
    check(
        Instr::Mov { src: deref(Reg::R12, 8), dst: reg(Reg::RAX) },
        &[0x49, 0x8B, 0x84, 0x24, 0x08, 0x00, 0x00, 0x00],
    );
    check(
        Instr::Add { src: deref(Reg::RSP, -8), dst: reg(Reg::RAX) },
        &[0x48, 0x03, 0x84, 0x24, 0xF8, 0xFF, 0xFF, 0xFF],
    );
    check(
        Instr::Add { src: imm(1), dst: deref(Reg::RSP, 0) },
        &[0x48, 0x81, 0x84, 0x24, 0x00, 0x00, 0x00, 0x00, 0x01, 0x00, 0x00, 0x00],
    );
    check(
        Instr::Mov { src: imm(-1), dst: deref(Reg::R12, 4) },
        &[0x49, 0xC7, 0x84, 0x24, 0x04, 0x00, 0x00, 0x00, 0xFF, 0xFF, 0xFF, 0xFF],
    );
    check(
        Instr::Sub { src: reg(Reg::R12), dst: deref(Reg::RSP, 16) },
        &[0x4C, 0x29, 0xA4, 0x24, 0x10, 0x00, 0x00, 0x00],
    );
    check(Instr::Push { src: deref(Reg::RSP, 8) }, &[0xFF, 0xB4, 0x24, 0x08, 0x00, 0x00, 0x00]);
    check(
        Instr::Pop { dst: deref(Reg::R12, 0) },
        &[0x41, 0x8F, 0x84, 0x24, 0x00, 0x00, 0x00, 0x00],
    );
}

#[test]
fn push_in_all_its_forms() {
    check(Instr::Push { src: reg(Reg::RAX) }, &[0x50]);
    check(Instr::Push { src: reg(Reg::RBP) }, &[0x55]);
    check(Instr::Push { src: reg(Reg::R12) }, &[0x41, 0x54]);
    check(Instr::Push { src: reg(Reg::R14) }, &[0x41, 0x56]);
    check(Instr::Push { src: deref(Reg::RDX, MAX) }, &[0xFF, 0xB2, 0xFF, 0xFF, 0xFF, 0x7F]);
    check(Instr::Push { src: deref(Reg::R11, MAX) }, &[0x41, 0xFF, 0xB3, 0xFF, 0xFF, 0xFF, 0x7F]);
    check(Instr::Push { src: imm(MAX) }, &[0x68, 0xFF, 0xFF, 0xFF, 0x7F]);
    check(Instr::Push { src: imm(-1) }, &[0x68, 0xFF, 0xFF, 0xFF, 0xFF]);
}

#[test]
fn pop_in_all_its_forms() {
    check(Instr::Pop { dst: reg(Reg::RAX) }, &[0x58]);
    check(Instr::Pop { dst: reg(Reg::RBP) }, &[0x5D]);
    check(Instr::Pop { dst: reg(Reg::R14) }, &[0x41, 0x5E]);
    check(Instr::Pop { dst: reg(Reg::R15) }, &[0x41, 0x5F]);
    check(Instr::Pop { dst: deref(Reg::RDX, MAX) }, &[0x8F, 0x82, 0xFF, 0xFF, 0xFF, 0x7F]);
    check(Instr::Pop { dst: deref(Reg::R11, MAX) }, &[0x41, 0x8F, 0x83, 0xFF, 0xFF, 0xFF, 0x7F]);
}

#[test]
fn one_operand_arithmetic() {
    check(Instr::Neg { dst: reg(Reg::RAX) }, &[0x48, 0xF7, 0xD8]);
    check(Instr::Neg { dst: reg(Reg::R15) }, &[0x49, 0xF7, 0xDF]);
    check(Instr::Not { dst: reg(Reg::RDX) }, &[0x48, 0xF7, 0xD2]);
    check(Instr::Mul { src: reg(Reg::RCX) }, &[0x48, 0xF7, 0xE1]);
    check(Instr::Div { divisor: reg(Reg::RBX) }, &[0x48, 0xF7, 0xF3]);
    check(
        Instr::Neg { dst: deref(Reg::RBP, -8) },
        &[0x48, 0xF7, 0x9D, 0xF8, 0xFF, 0xFF, 0xFF],
    );
    check(
        Instr::Not { dst: deref(Reg::R9, 8) },
        &[0x49, 0xF7, 0x91, 0x08, 0x00, 0x00, 0x00],
    );
    check(
        Instr::Mul { src: deref(Reg::R12, 16) },
        &[0x49, 0xF7, 0xA4, 0x24, 0x10, 0x00, 0x00, 0x00],
    );
    check(
        Instr::Div { divisor: deref(Reg::RSP, 0) },
        &[0x48, 0xF7, 0xB4, 0x24, 0x00, 0x00, 0x00, 0x00],
    );
}

#[test]
fn jumps_calls_and_returns() {
    check_rel(Instr::Jmp { lbl: label() }, 0x10, &[0xE9, 0x10, 0x00, 0x00, 0x00]);
    check_rel(Instr::Jmp { lbl: label() }, -5, &[0xE9, 0xFB, 0xFF, 0xFF, 0xFF]);
    check_rel(
        Instr::Jcc { lbl: label(), cnd: Cnd::NE },
        0x20,
        &[0x0F, 0x85, 0x20, 0x00, 0x00, 0x00],
    );
    check_rel(Instr::Jcc { lbl: label(), cnd: Cnd::EQ }, 1, &[0x0F, 0x84, 0x01, 0x00, 0x00, 0x00]);
    check_rel(Instr::Jcc { lbl: label(), cnd: Cnd::LT }, 1, &[0x0F, 0x8C, 0x01, 0x00, 0x00, 0x00]);
    check_rel(Instr::Jcc { lbl: label(), cnd: Cnd::GE }, 1, &[0x0F, 0x8D, 0x01, 0x00, 0x00, 0x00]);
    check_rel(Instr::Jcc { lbl: label(), cnd: Cnd::LE }, 1, &[0x0F, 0x8E, 0x01, 0x00, 0x00, 0x00]);
    check_rel(Instr::Jcc { lbl: label(), cnd: Cnd::GT }, 1, &[0x0F, 0x8F, 0x01, 0x00, 0x00, 0x00]);
    check_rel(
        Instr::Jcc { lbl: label(), cnd: Cnd::Above },
        1,
        &[0x0F, 0x87, 0x01, 0x00, 0x00, 0x00],
    );
    check_rel(
        Instr::Jcc { lbl: label(), cnd: Cnd::Below },
        1,
        &[0x0F, 0x82, 0x01, 0x00, 0x00, 0x00],
    );
    check_rel(
        Instr::CallDirect { lbl: label(), arity: 0 },
        0x100,
        &[0xE8, 0x00, 0x01, 0x00, 0x00],
    );
    check(Instr::CallIndirect { src: reg(Reg::RAX), arity: 0 }, &[0xFF, 0xD0]);
    check(Instr::CallIndirect { src: reg(Reg::R11), arity: 2 }, &[0x41, 0xFF, 0xD3]);
    check(
        Instr::CallIndirect { src: deref(Reg::RBX, 8), arity: 1 },
        &[0xFF, 0x93, 0x08, 0x00, 0x00, 0x00],
    );
    check(Instr::Syscall { arity: 3 }, &[0x0F, 0x05]);
    check(Instr::Ret, &[0xC3]);
}

#[test]
fn conditions_and_addresses() {
    check(Instr::Setcc { cnd: Cnd::EQ }, &[0x0F, 0x94, 0xC0]);
    check(Instr::Setcc { cnd: Cnd::NE }, &[0x0F, 0x95, 0xC0]);
    check(Instr::Setcc { cnd: Cnd::LT }, &[0x0F, 0x9C, 0xC0]);
    check(Instr::Setcc { cnd: Cnd::GT }, &[0x0F, 0x9F, 0xC0]);
    check_rel(
        Instr::LoadLbl { lbl: label(), dst: reg(Reg::RAX) },
        0x10,
        &[0x48, 0x8D, 0x05, 0x10, 0x00, 0x00, 0x00],
    );
    check_rel(
        Instr::LoadLbl { lbl: label(), dst: reg(Reg::R9) },
        -1,
        &[0x4C, 0x8D, 0x0D, 0xFF, 0xFF, 0xFF, 0xFF],
    );
}

#[test]
fn operands_without_a_form_are_refused() {
    let unencodable = [
        Instr::Mov { src: deref(Reg::RAX, 0), dst: deref(Reg::RBX, 0) },
        Instr::Add { src: reg(Reg::RAX), dst: imm(1) },
        Instr::Cmp { src: imm(1), dst: imm(2) },
        Instr::Pop { dst: imm(1) },
        Instr::Neg { dst: imm(1) },
        Instr::Mul { src: imm(1) },
        Instr::Div { divisor: imm(1) },
        Instr::CallIndirect { src: imm(1), arity: 0 },
        Instr::LoadLbl { lbl: label(), dst: deref(Reg::RBP, -8) },
        Instr::LoadLbl { lbl: label(), dst: imm(0) },
    ];
    for instr in unencodable {
        assert_eq!(encode_instr(&instr, 0), Err(CompileError::Unreachable), "{:?}", instr);
    }
}

#[test]
fn the_tables_of_opcodes_drive_the_encoders() {
    assert_eq!(
        addq_info(),
        BinaryOpInfo { r_rm: 0x01, rm_r: 0x03, i_rm: 0x81, pad: 0x00 }
    );
    assert_eq!(
        encode_binary_instr(movq_info(), &reg(Reg::R8), &reg(Reg::R9)),
        Ok(vec![0x4D, 0x89, 0xC1])
    );
    assert_eq!(
        encode_binary_instr(movq_info(), &deref(Reg::RAX, 0), &deref(Reg::RAX, 8)),
        Err(CompileError::Unreachable)
    );
    assert_eq!(encode_push_pop(pushq_info(), &reg(Reg::RDI)), vec![0x57]);
    assert_eq!(encode_push_pop(popq_info(), &reg(Reg::RDI)), vec![0x5F]);
    assert_eq!(encode_unary_instr(3, &reg(Reg::RCX)), Ok(vec![0x48, 0xF7, 0xD9]));
    assert_eq!(encode_unary_instr(3, &imm(0)), Err(CompileError::Unreachable));
}
