//! The x86-64 instruction model shared by the back-end passes.

use vstd::prelude::*;
use crate::symbol::UniqueSym;

verus! {

/// One of the sixteen 64-bit general purpose registers.
#[derive(Clone, Copy, Debug, PartialEq, Eq, Hash, Structural)]
pub enum Reg {
    RSP,
    RBP,
    RAX,
    RBX,
    RCX,
    RDX,
    RSI,
    RDI,
    R8,
    R9,
    R10,
    R11,
    R12,
    R13,
    R14,
    R15,
}

impl Reg {
    /// The number the processor knows the register by (`RAX` is 0, `R15` is 15).
    pub open spec fn number(self) -> int {
        match self {
            Reg::RAX => 0,
            Reg::RCX => 1,
            Reg::RDX => 2,
            Reg::RBX => 3,
            Reg::RSP => 4,
            Reg::RBP => 5,
            Reg::RSI => 6,
            Reg::RDI => 7,
            Reg::R8 => 8,
            Reg::R9 => 9,
            Reg::R10 => 10,
            Reg::R11 => 11,
            Reg::R12 => 12,
            Reg::R13 => 13,
            Reg::R14 => 14,
            Reg::R15 => 15,
        }
    }

    /// Computes [`Reg::number`].
    pub fn index(self) -> (n: u8)
        ensures
            n as int == self.number(),
            n < 16,
    {
        match self {
            Reg::RAX => 0,
            Reg::RCX => 1,
            Reg::RDX => 2,
            Reg::RBX => 3,
            Reg::RSP => 4,
            Reg::RBP => 5,
            Reg::RSI => 6,
            Reg::RDI => 7,
            Reg::R8 => 8,
            Reg::R9 => 9,
            Reg::R10 => 10,
            Reg::R11 => 11,
            Reg::R12 => 12,
            Reg::R13 => 13,
            Reg::R14 => 14,
            Reg::R15 => 15,
        }
    }
}


/// Condition codes tested by `Jcc` and `Setcc`.
#[derive(Clone, Copy, Debug, PartialEq, Eq, Hash, Structural)]
pub enum Cnd {
    Above,
    AboveOrEqual,
    Below,
    BelowOrEqual,
    Carry,
    EQ,
    GT,
    GE,
    LT,
    LE,
    NotCarry,
    NE,
    NotOverflow,
    NotSign,
    Overflow,
    ParityEven,
    ParityOdd,
    Sign,
}

/// An operand after register allocation.
#[derive(Clone, Copy, Debug, PartialEq, Eq, Hash)]
pub enum Arg {
    Imm(i32),
    Reg(Reg),
    Deref { reg: Reg, off: i32 },
}

/// An operand before register allocation: it may still name a variable.
#[derive(Clone, Copy, Debug, PartialEq, Eq)]
pub enum VarArg<'p> {
    Imm(i32),
    Reg(Reg),
    Deref { reg: Reg, off: i32 },
    XVar(UniqueSym<'p>),
}

impl Arg {
    /// The same operand, seen as one that could also be a variable.
    pub open spec fn lift<'p>(self) -> VarArg<'p> {
        match self {
            Arg::Imm(val) => VarArg::Imm(val),
            Arg::Reg(reg) => VarArg::Reg(reg),
            Arg::Deref { reg, off } => VarArg::Deref { reg, off },
        }
    }

    /// Computes [`Arg::lift`].
    pub fn to_var_arg<'p>(self) -> (a: VarArg<'p>)
        ensures
            a == self.lift::<'p>(),
    {
        match self {
            Arg::Imm(val) => VarArg::Imm(val),
            Arg::Reg(reg) => VarArg::Reg(reg),
            Arg::Deref { reg, off } => VarArg::Deref { reg, off },
        }
    }
}

/// An instruction in 64-bit operand form, over operands of type `A`.
///
/// Two-operand instructions read `src` and combine it into `dst`.
#[derive(Clone, Copy, Debug, PartialEq, Eq)]
pub enum Instr<'p, A> {
    Add { src: A, dst: A },
    Sub { src: A, dst: A },
    And { src: A, dst: A },
    Or { src: A, dst: A },
    Xor { src: A, dst: A },
    Cmp { src: A, dst: A },
    Mov { src: A, dst: A },
    Push { src: A },
    Pop { dst: A },
    Neg { dst: A },
    Not { dst: A },
    /// `RDX:RAX = RAX * src`.
    Mul { src: A },
    /// `RAX = RDX:RAX / divisor`, `RDX = RDX:RAX % divisor`.
    Div { divisor: A },
    Jmp { lbl: UniqueSym<'p> },
    Jcc { lbl: UniqueSym<'p>, cnd: Cnd },
    /// Sets the low byte of `RAX` to 1 if `cnd` holds and to 0 otherwise.
    Setcc { cnd: Cnd },
    /// Loads the address of `lbl` into `dst`.
    LoadLbl { lbl: UniqueSym<'p>, dst: A },
    CallDirect { lbl: UniqueSym<'p>, arity: usize },
    CallIndirect { src: A, arity: usize },
    Syscall { arity: usize },
    Ret,
}

/// A straight-line sequence of instructions.
#[derive(Clone, Debug, PartialEq, Eq)]
pub struct Block<'p, A> {
    pub instrs: Vec<Instr<'p, A>>,
}

/// Registers that a callee may overwrite, in the order in which they carry
/// the arguments of a call.
pub open spec fn caller_saved() -> Seq<Reg> {
    seq![Reg::RAX, Reg::RCX, Reg::RDX, Reg::RSI, Reg::RDI, Reg::R8, Reg::R9, Reg::R10, Reg::R11]
}

/// Registers that a callee must hand back unchanged.
pub open spec fn callee_saved() -> Seq<Reg> {
    seq![Reg::RBX, Reg::R12, Reg::R13, Reg::R14, Reg::R15, Reg::RBP, Reg::RSP]
}

/// Registers that carry the arguments of a system call, in order.
pub open spec fn syscall_regs() -> Seq<Reg> {
    seq![Reg::RDI, Reg::RSI, Reg::RDX, Reg::R10, Reg::R8, Reg::R9]
}

pub const CALLER_SAVED: [Reg; 9] = [
    Reg::RAX,
    Reg::RCX,
    Reg::RDX,
    Reg::RSI,
    Reg::RDI,
    Reg::R8,
    Reg::R9,
    Reg::R10,
    Reg::R11,
];

pub const CALLEE_SAVED: [Reg; 7] = [
    Reg::RBX,
    Reg::R12,
    Reg::R13,
    Reg::R14,
    Reg::R15,
    Reg::RBP,
    Reg::RSP,
];

pub const SYSCALL_REGS: [Reg; 6] = [Reg::RDI, Reg::RSI, Reg::RDX, Reg::R10, Reg::R8, Reg::R9];

/// The value that instruction selection writes where the size of the stack
/// frame will go.
pub const STACK_PLACEHOLDER: i32 = 0x1000;

impl<'p, A> Instr<'p, A> {
    /// The instruction with `f` applied to each operand.
    pub open spec fn map_args<B>(self, f: spec_fn(A) -> B) -> Instr<'p, B> {
        match self {
            Instr::Add { src, dst } => Instr::Add { src: f(src), dst: f(dst) },
            Instr::Sub { src, dst } => Instr::Sub { src: f(src), dst: f(dst) },
            Instr::And { src, dst } => Instr::And { src: f(src), dst: f(dst) },
            Instr::Or { src, dst } => Instr::Or { src: f(src), dst: f(dst) },
            Instr::Xor { src, dst } => Instr::Xor { src: f(src), dst: f(dst) },
            Instr::Cmp { src, dst } => Instr::Cmp { src: f(src), dst: f(dst) },
            Instr::Mov { src, dst } => Instr::Mov { src: f(src), dst: f(dst) },
            Instr::Push { src } => Instr::Push { src: f(src) },
            Instr::Pop { dst } => Instr::Pop { dst: f(dst) },
            Instr::Neg { dst } => Instr::Neg { dst: f(dst) },
            Instr::Not { dst } => Instr::Not { dst: f(dst) },
            Instr::Mul { src } => Instr::Mul { src: f(src) },
            Instr::Div { divisor } => Instr::Div { divisor: f(divisor) },
            Instr::Jmp { lbl } => Instr::Jmp { lbl },
            Instr::Jcc { lbl, cnd } => Instr::Jcc { lbl, cnd },
            Instr::Setcc { cnd } => Instr::Setcc { cnd },
            Instr::LoadLbl { lbl, dst } => Instr::LoadLbl { lbl, dst: f(dst) },
            Instr::CallDirect { lbl, arity } => Instr::CallDirect { lbl, arity },
            Instr::CallIndirect { src, arity } => Instr::CallIndirect { src: f(src), arity },
            Instr::Syscall { arity } => Instr::Syscall { arity },
            Instr::Ret => Instr::Ret,
        }
    }

    /// The operands that the instruction names, sources before destinations.
    pub open spec fn args(self) -> Seq<A> {
        match self {
            Instr::Add { src, dst }
            | Instr::Sub { src, dst }
            | Instr::And { src, dst }
            | Instr::Or { src, dst }
            | Instr::Xor { src, dst }
            | Instr::Cmp { src, dst }
            | Instr::Mov { src, dst } => seq![src, dst],
            Instr::Push { src } | Instr::Mul { src } | Instr::CallIndirect { src, .. } => seq![src],
            Instr::Div { divisor } => seq![divisor],
            Instr::Pop { dst } | Instr::Neg { dst } | Instr::Not { dst } | Instr::LoadLbl {
                dst,
                ..
            } => seq![dst],
            Instr::Jmp { .. }
            | Instr::Jcc { .. }
            | Instr::Setcc { .. }
            | Instr::CallDirect { .. }
            | Instr::Syscall { .. }
            | Instr::Ret => Seq::empty(),
        }
    }
}

impl<'p> Instr<'p, Arg> {
    /// The instruction with its operands seen as ones that could also be
    /// variables.
    pub open spec fn lift(self) -> Instr<'p, VarArg<'p>> {
        self.map_args(|a: Arg| a.lift::<'p>())
    }

    /// Computes [`Instr::lift`].
    pub fn to_var_instr(&self) -> (r: Instr<'p, VarArg<'p>>)
        ensures
            r == self.lift(),
    {
        match self {
            Instr::Add { src, dst } => Instr::Add { src: src.to_var_arg(), dst: dst.to_var_arg() },
            Instr::Sub { src, dst } => Instr::Sub { src: src.to_var_arg(), dst: dst.to_var_arg() },
            Instr::And { src, dst } => Instr::And { src: src.to_var_arg(), dst: dst.to_var_arg() },
            Instr::Or { src, dst } => Instr::Or { src: src.to_var_arg(), dst: dst.to_var_arg() },
            Instr::Xor { src, dst } => Instr::Xor { src: src.to_var_arg(), dst: dst.to_var_arg() },
            Instr::Cmp { src, dst } => Instr::Cmp { src: src.to_var_arg(), dst: dst.to_var_arg() },
            Instr::Mov { src, dst } => Instr::Mov { src: src.to_var_arg(), dst: dst.to_var_arg() },
            Instr::Push { src } => Instr::Push { src: src.to_var_arg() },
            Instr::Pop { dst } => Instr::Pop { dst: dst.to_var_arg() },
            Instr::Neg { dst } => Instr::Neg { dst: dst.to_var_arg() },
            Instr::Not { dst } => Instr::Not { dst: dst.to_var_arg() },
            Instr::Mul { src } => Instr::Mul { src: src.to_var_arg() },
            Instr::Div { divisor } => Instr::Div { divisor: divisor.to_var_arg() },
            Instr::Jmp { lbl } => Instr::Jmp { lbl: *lbl },
            Instr::Jcc { lbl, cnd } => Instr::Jcc { lbl: *lbl, cnd: *cnd },
            Instr::Setcc { cnd } => Instr::Setcc { cnd: *cnd },
            Instr::LoadLbl { lbl, dst } => Instr::LoadLbl { lbl: *lbl, dst: dst.to_var_arg() },
            Instr::CallDirect { lbl, arity } => Instr::CallDirect { lbl: *lbl, arity: *arity },
            Instr::CallIndirect { src, arity } => Instr::CallIndirect {
                src: src.to_var_arg(),
                arity: *arity,
            },
            Instr::Syscall { arity } => Instr::Syscall { arity: *arity },
            Instr::Ret => Instr::Ret,
        }
    }
}

impl Reg {
    /// The register with the number `n`.
    pub open spec fn numbered(n: int) -> Reg {
        if n == 0 {
            Reg::RAX
        } else if n == 1 {
            Reg::RCX
        } else if n == 2 {
            Reg::RDX
        } else if n == 3 {
            Reg::RBX
        } else if n == 4 {
            Reg::RSP
        } else if n == 5 {
            Reg::RBP
        } else if n == 6 {
            Reg::RSI
        } else if n == 7 {
            Reg::RDI
        } else if n == 8 {
            Reg::R8
        } else if n == 9 {
            Reg::R9
        } else if n == 10 {
            Reg::R10
        } else if n == 11 {
            Reg::R11
        } else if n == 12 {
            Reg::R12
        } else if n == 13 {
            Reg::R13
        } else if n == 14 {
            Reg::R14
        } else {
            Reg::R15
        }
    }
}

} // verus!
