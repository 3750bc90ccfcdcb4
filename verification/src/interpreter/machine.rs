//! What the instructions of the x86 intermediate programs mean.

use vstd::prelude::*;
use crate::interpreter::InterpError;
use crate::sym_map::{has_id, value_of};
use crate::symbol::UniqueSym;
use crate::x86::{Cnd, Instr, Reg, VarArg};

verus! {

/// The flags that comparisons set.
#[derive(Clone, Copy, Debug, PartialEq, Eq, Structural)]
pub struct Status {
    /// CF
    pub carry: bool,
    /// PF
    pub parity_even: bool,
    /// ZF
    pub zero: bool,
    /// SF
    pub sign: bool,
    /// OF
    pub overflow: bool,
}

/// The state of the machine between two instructions.
pub struct Machine {
    /// The values of the registers, by register number.
    pub regs: Seq<i64>,
    /// The variables of the function that is running, by symbol number.
    pub vars: Map<usize, i64>,
    /// The variables of the functions that wait for a call to return.
    pub var_stack: Seq<Map<usize, i64>>,
    pub memory: Map<i64, i64>,
    pub status: Status,
    /// How many conditional jumps have been executed.
    pub branches: nat,
    /// The input that has not been read yet.
    pub pending: Seq<u8>,
    /// The output so far.
    pub printed: Seq<u8>,
    /// The number of the label of the block that is running.
    pub block: usize,
    /// The place in the block of the instruction that comes next.
    pub index: nat,
}

/// How one step of the machine ends.
pub enum Step {
    /// The machine goes on in the given state.
    Next(Machine),
    /// The program ends the process with the given status.
    Exit(i64),
    Fault(InterpError),
}

/// The integer `x` as a 64-bit number in two's complement.
pub open spec fn wrap64(x: int) -> i64 {
    let m = x % 0x1_0000_0000_0000_0000;
    if m >= 0x8000_0000_0000_0000 {
        (m - 0x1_0000_0000_0000_0000) as i64
    } else {
        m as i64
    }
}

/// The bits of `x` read as a number without sign.
pub open spec fn unsigned64(x: i64) -> int {
    if x < 0 {
        x + 0x1_0000_0000_0000_0000
    } else {
        x as int
    }
}

/// The quotient of `a` by `b`, rounded towards zero.
pub open spec fn quotient(a: int, b: int) -> int {
    if a >= 0 {
        if b > 0 {
            a / b
        } else {
            -(a / (-b))
        }
    } else {
        if b > 0 {
            -((-a) / b)
        } else {
            (-a) / (-b)
        }
    }
}

/// What is left of `a` when `b` is taken from it [`quotient`] times.
pub open spec fn remainder(a: int, b: int) -> int {
    a - b * quotient(a, b)
}

/// The address of the `index`-th instruction of the block whose label has
/// the number `block`: the block in the upper half, the index in the lower.
pub open spec fn address(block: usize, index: nat) -> Option<i64> {
    if block < 0x8000_0000 && index < 0x1_0000_0000 {
        Some((block * 0x1_0000_0000 + index) as i64)
    } else {
        None
    }
}

/// Whether the condition `cnd` holds of the flags.
pub open spec fn holds(cnd: Cnd, status: Status) -> bool {
    match cnd {
        Cnd::Above => !status.carry && !status.zero,
        Cnd::AboveOrEqual | Cnd::NotCarry => !status.carry,
        Cnd::Below | Cnd::Carry => status.carry,
        Cnd::BelowOrEqual => status.carry || status.zero,
        Cnd::EQ => status.zero,
        Cnd::GT => !status.zero && status.sign == status.overflow,
        Cnd::GE => status.sign == status.overflow,
        Cnd::LT => status.sign != status.overflow,
        Cnd::LE => status.zero || status.sign != status.overflow,
        Cnd::NE => !status.zero,
        Cnd::NotOverflow => !status.overflow,
        Cnd::NotSign => !status.sign,
        Cnd::Overflow => status.overflow,
        Cnd::ParityEven => status.parity_even,
        Cnd::ParityOdd => !status.parity_even,
        Cnd::Sign => status.sign,
    }
}

/// The flags after comparing `dst` with `src`, as if `src` had been
/// subtracted from `dst`.
pub open spec fn compared(src: i64, dst: i64) -> Status {
    let res = wrap64(dst - src);
    Status {
        carry: unsigned64(src) > unsigned64(dst),
        parity_even: res % 2 == 0,
        zero: res == 0,
        sign: res < 0,
        overflow: dst - src != res,
    }
}

impl Machine {
    pub open spec fn reg(self, r: Reg) -> i64 {
        self.regs[r.number()]
    }

    pub open spec fn with_reg(self, r: Reg, v: i64) -> Machine {
        Machine { regs: self.regs.update(r.number(), v), ..self }
    }

    pub open spec fn with_memory(self, addr: i64, v: i64) -> Machine {
        Machine { memory: self.memory.insert(addr, v), ..self }
    }

    /// The machine at the start of the block numbered `block`.
    pub open spec fn at(self, block: usize, index: nat) -> Machine {
        Machine { block, index, ..self }
    }

    /// The machine at the instruction after the current one.
    pub open spec fn advanced(self) -> Machine {
        Machine { index: self.index + 1, ..self }
    }

    /// The value of the operand `a`, unless it names a variable or a memory
    /// cell that has no value yet.
    pub open spec fn read<'p>(self, a: VarArg<'p>) -> Option<i64> {
        match a {
            VarArg::Imm(val) => Some(val as i64),
            VarArg::Reg(reg) => Some(self.reg(reg)),
            VarArg::Deref { reg, off } => {
                let addr = wrap64(self.reg(reg) + off);
                if self.memory.dom().contains(addr) {
                    Some(self.memory[addr])
                } else {
                    None
                }
            },
            VarArg::XVar(sym) => if self.vars.dom().contains(sym.id) {
                Some(self.vars[sym.id])
            } else {
                None
            },
        }
    }

    /// The machine after `v` is written to the operand `a`, unless `a` is
    /// an immediate.
    pub open spec fn write<'p>(self, a: VarArg<'p>, v: i64) -> Option<Machine> {
        match a {
            VarArg::Imm(_) => None,
            VarArg::Reg(reg) => Some(self.with_reg(reg, v)),
            VarArg::Deref { reg, off } => Some(self.with_memory(wrap64(self.reg(reg) + off), v)),
            VarArg::XVar(sym) => Some(Machine { vars: self.vars.insert(sym.id, v), ..self }),
        }
    }

    /// The machine after `v` is pushed on the stack, unless the stack
    /// pointer is misaligned.
    pub open spec fn pushed(self, v: i64) -> Option<Machine> {
        let rsp = self.reg(Reg::RSP);
        if rsp % 8 != 0 {
            None
        } else {
            let top = wrap64(rsp - 8);
            Some(self.with_reg(Reg::RSP, top).with_memory(top, v))
        }
    }
}

/// The programs that the machine runs: `entries` gives for each function
/// label the label of the block where the function starts.
pub struct Program<'p> {
    pub entries: Seq<(UniqueSym<'p>, UniqueSym<'p>)>,
    pub blocks: Seq<(UniqueSym<'p>, Seq<Instr<'p, VarArg<'p>>>)>,
}

impl<'p> Program<'p> {
    /// The address of the function with the label `lbl`.
    pub open spec fn fn_address(self, lbl: UniqueSym<'p>) -> Result<i64, InterpError> {
        if !has_id(self.entries, lbl.id) {
            Err(InterpError::UnknownLabel)
        } else {
            match address(value_of(self.entries, lbl.id).id, 0) {
                Some(addr) => Ok(addr),
                None => Err(InterpError::AddressOverflow),
            }
        }
    }

    /// The machine goes on at the address `addr`, if there is a block there.
    pub open spec fn landed(self, m: Machine, addr: i64) -> Step {
        let block = (addr / 0x1_0000_0000) as usize;
        if addr < 0 || !has_id(self.blocks, block) {
            Step::Fault(InterpError::UnknownLabel)
        } else {
            Step::Next(m.at(block, (addr % 0x1_0000_0000) as nat))
        }
    }

    /// What a two-operand instruction does: it reads both operands and
    /// writes `result` to the destination.
    pub open spec fn combined(
        self,
        m: Machine,
        src: VarArg<'p>,
        dst: VarArg<'p>,
        result: spec_fn(i64, i64) -> i64,
    ) -> Step {
        match (m.read(src), m.read(dst)) {
            (Some(s), Some(d)) => match m.write(dst, result(s, d)) {
                Some(m2) => Step::Next(m2.advanced()),
                None => Step::Fault(InterpError::ImmediateDestination),
            },
            _ => Step::Fault(InterpError::Uninitialized),
        }
    }

    /// What a one-operand instruction does: it reads its operand and
    /// writes `result` back.
    pub open spec fn updated(self, m: Machine, dst: VarArg<'p>,
        result: spec_fn(i64) -> i64) -> Step {
        match m.read(dst) {
            Some(d) => match m.write(dst, result(d)) {
                Some(m2) => Step::Next(m2.advanced()),
                None => Step::Fault(InterpError::ImmediateDestination),
            },
            None => Step::Fault(InterpError::Uninitialized),
        }
    }

    /// What a call to the address that `target` gives does, once the
    /// return address is known: the return address goes on the stack, the
    /// variables of the caller are put aside, and the callee starts.
    pub open spec fn called(self, m: Machine, target: spec_fn(Machine) -> Result<i64,
        InterpError>) -> Step {
        match address(m.block, m.index + 1) {
            None => Step::Fault(InterpError::AddressOverflow),
            Some(ret) => match m.pushed(ret) {
                None => Step::Fault(InterpError::MisalignedStack),
                Some(m1) => match target(m1) {
                    Err(e) => Step::Fault(e),
                    Ok(addr) => self.landed(
                        Machine { var_stack: m1.var_stack.push(m1.vars), vars: Map::empty(), ..m1 },
                        addr,
                    ),
                },
            },
        }
    }

    /// What a return does: it takes the return address from the stack,
    /// brings back the variables of the caller, and goes on there.
    pub open spec fn returned(self, m: Machine) -> Step {
        let rsp = m.reg(Reg::RSP);
        if rsp % 8 != 0 {
            Step::Fault(InterpError::MisalignedStack)
        } else if !m.memory.dom().contains(rsp) {
            Step::Fault(InterpError::Uninitialized)
        } else if m.var_stack.len() == 0 {
            Step::Fault(InterpError::EmptyCallStack)
        } else {
            self.landed(
                Machine {
                    vars: m.var_stack.last(),
                    var_stack: m.var_stack.drop_last(),
                    ..m.with_reg(Reg::RSP, wrap64(rsp + 8))
                },
                m.memory[rsp],
            )
        }
    }

    /// What the instruction `instr` does to the machine `m`.
    pub open spec fn execute(self, m: Machine, instr: Instr<'p, VarArg<'p>>) -> Step {
        match instr {
            Instr::Add { src, dst } => self.combined(m, src, dst, |s: i64, d: i64| wrap64(s + d)),
            Instr::Sub { src, dst } => self.combined(m, src, dst, |s: i64, d: i64| wrap64(d - s)),
            Instr::And { src, dst } => self.combined(m, src, dst, |s: i64, d: i64| s & d),
            Instr::Or { src, dst } => self.combined(m, src, dst, |s: i64, d: i64| s | d),
            Instr::Xor { src, dst } => self.combined(m, src, dst, |s: i64, d: i64| s ^ d),
            Instr::Neg { dst } => self.updated(m, dst, |d: i64| wrap64(-d)),
            Instr::Not { dst } => self.updated(m, dst, |d: i64| (-d - 1) as i64),
            Instr::Mov { src, dst } => match m.read(src) {
                None => Step::Fault(InterpError::Uninitialized),
                Some(v) => match m.write(dst, v) {
                    Some(m2) => Step::Next(m2.advanced()),
                    None => Step::Fault(InterpError::ImmediateDestination),
                },
            },
            Instr::Cmp { src, dst } => if dst is Imm {
                Step::Fault(InterpError::ImmediateDestination)
            } else {
                match (m.read(src), m.read(dst)) {
                    (Some(s), Some(d)) => Step::Next(
                        Machine { status: compared(s, d), ..m }.advanced(),
                    ),
                    _ => Step::Fault(InterpError::Uninitialized),
                }
            },
            Instr::Push { src } => {
                let rsp = m.reg(Reg::RSP);
                if rsp % 8 != 0 {
                    Step::Fault(InterpError::MisalignedStack)
                } else {
                    let top = wrap64(rsp - 8);
                    let m1 = m.with_reg(Reg::RSP, top);
                    match m1.read(src) {
                        Some(v) => Step::Next(m1.with_memory(top, v).advanced()),
                        None => Step::Fault(InterpError::Uninitialized),
                    }
                }
            },
            Instr::Pop { dst } => {
                let rsp = m.reg(Reg::RSP);
                if rsp % 8 != 0 {
                    Step::Fault(InterpError::MisalignedStack)
                } else if !m.memory.dom().contains(rsp) {
                    Step::Fault(InterpError::Uninitialized)
                } else {
                    match m.write(dst, m.memory[rsp]) {
                        Some(m1) => Step::Next(
                            m1.with_reg(Reg::RSP, wrap64(m1.reg(Reg::RSP) + 8)).advanced(),
                        ),
                        None => Step::Fault(InterpError::ImmediateDestination),
                    }
                }
            },
            Instr::Mul { src } => match m.read(src) {
                None => Step::Fault(InterpError::Uninitialized),
                Some(s) => {
                    let product = m.reg(Reg::RAX) * s;
                    Step::Next(
                        m.with_reg(Reg::RAX, wrap64(product)).with_reg(
                            Reg::RDX,
                            wrap64(product / 0x1_0000_0000_0000_0000),
                        ).advanced(),
                    )
                },
            },
            Instr::Div { divisor } => match m.read(divisor) {
                None => Step::Fault(InterpError::Uninitialized),
                Some(d) => {
                    let dividend = wide(m.reg(Reg::RDX), m.reg(Reg::RAX));
                    if d == 0 || (dividend == -0x8000_0000_0000_0000_0000_0000_0000_0000 && d
                        == -1) {
                        Step::Fault(InterpError::DivideError)
                    } else {
                        Step::Next(
                            m.with_reg(Reg::RAX, wrap64(quotient(dividend, d as int))).with_reg(
                                Reg::RDX,
                                wrap64(remainder(dividend, d as int)),
                            ).advanced(),
                        )
                    }
                },
            },
            Instr::Jmp { lbl } => Step::Next(m.at(lbl.id, 0)),
            Instr::Jcc { lbl, cnd } => {
                let m1 = Machine { branches: m.branches + 1, ..m };
                if holds(cnd, m.status) {
                    Step::Next(m1.at(lbl.id, 0))
                } else {
                    Step::Next(m1.advanced())
                }
            },
            Instr::Setcc { cnd } => {
                let rax = m.reg(Reg::RAX);
                let bit: int = if holds(cnd, m.status) {
                    1
                } else {
                    0
                };
                Step::Next(m.with_reg(Reg::RAX, (rax - rax % 256 + bit) as i64).advanced())
            },
            Instr::LoadLbl { lbl, dst } => match self.fn_address(lbl) {
                Err(e) => Step::Fault(e),
                Ok(addr) => match m.write(dst, addr) {
                    Some(m2) => Step::Next(m2.advanced()),
                    None => Step::Fault(InterpError::ImmediateDestination),
                },
            },
            Instr::CallDirect { lbl, .. } => self.called(m, |m1: Machine| self.fn_address(lbl)),
            Instr::CallIndirect { src, .. } => self.called(
                m,
                |m1: Machine|
                    match m1.read(src) {
                        Some(addr) => Ok(addr),
                        None => Err(InterpError::Uninitialized),
                    },
            ),
            Instr::Ret => self.returned(m),
            Instr::Syscall { .. } => system_call(m),
        }
    }

    /// What the machine `m` does next.
    pub open spec fn step(self, m: Machine) -> Step {
        if !has_id(self.blocks, m.block) {
            Step::Fault(InterpError::UnknownLabel)
        } else {
            let code = value_of(self.blocks, m.block);
            if m.index >= code.len() {
                Step::Fault(InterpError::OutOfBlock)
            } else {
                self.execute(m, code[m.index as int])
            }
        }
    }
}

/// The dividend that `Div` takes from `RDX` and `RAX`: `RDX` as the upper
/// half and `RAX` as the lower half of a number of 128 bits, where `RAX`
/// is not negative. A negative `RAX` is extended with its sign over the
/// upper half, whatever is in `RDX`.
pub open spec fn wide(rdx: i64, rax: i64) -> int {
    if rax >= 0 {
        rdx * 0x1_0000_0000_0000_0000 + rax
    } else {
        rax as int
    }
}

/// What a system call does: number 0 reads a byte from the standard input
/// into memory, number 1 writes a byte from memory to the standard
/// output, and number 60 ends the process.
pub open spec fn system_call(m: Machine) -> Step {
    let number = m.reg(Reg::RAX);
    let file = m.reg(Reg::RDI);
    let buffer = m.reg(Reg::RSI);
    let len = m.reg(Reg::RDX);
    if number == 0 {
        if file != 0 {
            Step::Fault(InterpError::UnsupportedSyscall)
        } else if len == 0 || m.pending.len() == 0 {
            Step::Next(m.with_memory(buffer, 0).with_reg(Reg::RAX, 0).advanced())
        } else {
            Step::Next(
                Machine { pending: m.pending.skip(1), ..m }.with_memory(
                    buffer,
                    m.pending[0] as i64,
                ).with_reg(Reg::RAX, 1).advanced(),
            )
        }
    } else if number == 1 {
        if file != 1 || len != 1 {
            Step::Fault(InterpError::UnsupportedSyscall)
        } else if !m.memory.dom().contains(buffer) {
            Step::Fault(InterpError::Uninitialized)
        } else {
            Step::Next(
                Machine { printed: m.printed.push((m.memory[buffer] % 256) as u8), ..m }.with_reg(
                    Reg::RAX,
                    1,
                ).advanced(),
            )
        }
    } else if number == 0x3C {
        Step::Exit(file)
    } else {
        Step::Fault(InterpError::UnsupportedSyscall)
    }
}

/// How a run of the machine ends.
pub enum Outcome {
    /// The program ended the process with the given status, in the given
    /// state.
    Done(i64, Machine),
    Fault(InterpError),
}

impl<'p> Program<'p> {
    /// What becomes of the machine `m` within `fuel` steps.
    pub open spec fn run(self, m: Machine, fuel: nat) -> Outcome
        decreases fuel,
    {
        if fuel == 0 {
            Outcome::Fault(InterpError::OutOfFuel)
        } else {
            match self.step(m) {
                Step::Next(m2) => self.run(m2, (fuel - 1) as nat),
                Step::Exit(status) => Outcome::Done(status, m),
                Step::Fault(e) => Outcome::Fault(e),
            }
        }
    }
}

/// The registers when a program starts: all zero, but for the stack
/// pointer and the base pointer, which point to the top of the memory.
pub open spec fn initial_regs() -> Seq<i64> {
    Seq::new(16, |i: int| if i == 4 || i == 5 { 0x7FFF_FFFF_FFFF_FFF8i64 } else { 0i64 })
}

/// The machine when a program starts at the block numbered `block`, with
/// the input `input` left to read and the output `output` written before.
pub open spec fn initial_with(block: usize, input: Seq<u8>, output: Seq<u8>) -> Machine {
    Machine {
        regs: initial_regs(),
        vars: Map::empty(),
        var_stack: Seq::empty(),
        memory: Map::empty(),
        status: Status {
            carry: false,
            parity_even: false,
            zero: false,
            sign: false,
            overflow: false,
        },
        branches: 0,
        pending: input,
        printed: output,
        block,
        index: 0,
    }
}

/// A step adds at most one to the number of conditional jumps executed.
pub proof fn lemma_step_branches<'p>(program: Program<'p>, m: Machine)
    ensures
        match program.step(m) {
            Step::Next(m2) => m.branches <= m2.branches <= m.branches + 1,
            _ => true,
        },
{
}

impl<'p> Program<'p> {
    /// What becomes of a machine that is moved to the entry block of the
    /// function `entry` and then left to run for `fuel` steps.
    pub open spec fn run_from(self, m: Machine, entry: UniqueSym<'p>, fuel: nat) -> Outcome {
        if has_id(self.entries, entry.id) {
            self.run(m.at(value_of(self.entries, entry.id).id, 0), fuel)
        } else {
            Outcome::Fault(InterpError::UnknownLabel)
        }
    }
}

} // verus!
