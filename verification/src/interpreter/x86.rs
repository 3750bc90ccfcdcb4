//! An interpreter for x86 intermediate programs.

use vstd::prelude::*;
use std::collections::HashMap;
use crate::interpreter::arith::{
    divide,
    low_byte,
    to_unsigned,
    wide_mul,
    widen,
    with_low_byte,
    wrap_add,
    wrap_sub,
};
use crate::interpreter::machine::{
    address,
    compared,
    holds,
    initial_with,
    lemma_step_branches,
    initial_regs,
    system_call,
    wrap64,
    Machine,
    Outcome,
    Program,
    Status,
    Step,
};
use crate::interpreter::{InterpError, IO};
use crate::select::{FunSelected, X86Selected};
use crate::sym_map::{has_id, lemma_mapped, lemma_mapped_stored, mapped, stored, SymMap};
use crate::symbol::UniqueSym;
use crate::conclude::X86Concluded;
use crate::x86::{Arg, Block, Cnd, Instr, Reg, VarArg};

verus! {

broadcast use vstd::std_specs::hash::group_hash_axioms;

/// What the interpreter counts while it runs a program.
#[derive(Clone, Copy, Debug, PartialEq, Eq)]
pub struct IStats {
    /// The number of conditional jumps executed, taken or not.
    pub branches_taken: usize,
    /// A counter for whoever drives the interpreter; running a program
    /// leaves it alone.
    pub instructions_executed: usize,
}

/// The state of a program that is being interpreted.
#[derive(Debug)]
pub struct X86Interpreter<'p> {
    /// Maps the labels of functions to the labels of their entry blocks.
    pub entries: SymMap<'p, UniqueSym<'p>>,
    pub blocks: SymMap<'p, Block<'p, VarArg<'p>>>,
    /// The values of the registers, by register number.
    pub regs: [i64; 16],
    /// The values of the variables of the running function, by symbol
    /// number.
    pub vars: HashMap<usize, i64>,
    /// The variables of the functions that wait for a call to return.
    pub var_stack: Vec<HashMap<usize, i64>>,
    pub memory: HashMap<i64, i64>,
    /// Status register.
    pub status: Status,
    pub stats: IStats,
    /// The number of the label of the block that is running.
    pub block: usize,
    /// The place in the block of the instruction that comes next.
    pub index: usize,
}

/// How a step ends, if it ends the run: with the status of the process,
/// or with a fault.
pub type Halt = Option<Result<i64, InterpError>>;

/// The input that is left to read, and the output written so far.
pub type Tape = (Seq<u8>, Seq<u8>);

/// The labels and the code of `blocks`.
pub open spec fn code_of<'p>(blocks: Seq<(UniqueSym<'p>, Block<'p, VarArg<'p>>)>) -> Seq<
    (UniqueSym<'p>, Seq<Instr<'p, VarArg<'p>>>),
> {
    mapped(blocks, |b: Block<'p, VarArg<'p>>| b.instrs@)
}

/// The maps that `stack` holds.
pub open spec fn frames(stack: Seq<HashMap<usize, i64>>) -> Seq<Map<usize, i64>> {
    Seq::new(stack.len(), |i: int| stack[i]@)
}

impl<'p> X86Interpreter<'p> {
    /// The program that is being interpreted.
    pub open spec fn program(&self) -> Program<'p> {
        Program { entries: self.entries@, blocks: code_of(self.blocks@) }
    }

    /// The machine that the interpreter stands for, with the given input
    /// left to read and output written.
    pub open spec fn machine(&self, pending: Seq<u8>, printed: Seq<u8>) -> Machine {
        Machine {
            regs: self.regs@,
            vars: self.vars@,
            var_stack: frames(self.var_stack@),
            memory: self.memory@,
            status: self.status,
            branches: self.stats.branches_taken as nat,
            pending,
            printed,
            block: self.block,
            index: self.index as nat,
        }
    }

    /// The machine that the interpreter stands for, with the tape `t`.
    pub open spec fn on(&self, t: Tape) -> Machine {
        self.machine(t.0, t.1)
    }

    /// Whether `other` differs from `self` in nothing but registers,
    /// variables and memory.
    pub open spec fn same_frame(&self, other: &Self) -> bool {
        &&& self.entries == other.entries
        &&& self.blocks == other.blocks
        &&& self.var_stack == other.var_stack
        &&& self.status == other.status
        &&& self.stats == other.stats
        &&& self.block == other.block
        &&& self.index == other.index
    }

    /// An interpreter that is about to run the block `start` of the given
    /// program.
    pub fn new(
        entries: SymMap<'p, UniqueSym<'p>>,
        blocks: SymMap<'p, Block<'p, VarArg<'p>>>,
        start: usize,
    ) -> (state: Self)
        ensures
            state.entries == entries,
            state.blocks == blocks,
            forall|input: Seq<u8>, output: Seq<u8>|
                #[trigger] state.machine(input, output) == initial_with(start, input, output),
            state.stats.branches_taken == 0,
            state.stats.instructions_executed == 0,
    {
        let mut regs: [i64; 16] = [0;16];
        regs[4] = i64::MAX - 7;
        regs[5] = i64::MAX - 7;
        let state = X86Interpreter {
            entries,
            blocks,
            regs,
            vars: HashMap::new(),
            var_stack: Vec::new(),
            memory: HashMap::new(),
            status: Status {
                carry: false,
                parity_even: false,
                zero: false,
                sign: false,
                overflow: false,
            },
            stats: IStats { branches_taken: 0, instructions_executed: 0 },
            block: start,
            index: 0,
        };
        proof {
            assert(state.regs@ =~= initial_regs());
            assert(frames(state.var_stack@) =~= Seq::empty());
            assert(state.vars@ =~= Map::empty());
            assert(state.memory@ =~= Map::empty());
        }
        state
    }

    fn get_reg(&self, reg: Reg) -> (v: i64)
        ensures
            v == self.regs@[reg.number()],
    {
        self.regs[reg.index() as usize]
    }

    fn set_reg(&mut self, reg: Reg, v: i64)
        ensures
            final(self).regs@ == old(self).regs@.update(reg.number(), v),
            final(self).vars == old(self).vars,
            final(self).memory == old(self).memory,
            final(self).same_frame(old(self)),
    {
        let i = reg.index() as usize;
        self.regs[i] = v;
    }

    /// Turns an instruction in a specified block into its address.
    fn instr_to_addr(block: usize, index: usize) -> (r: Option<i64>)
        ensures
            r == address(block, index as nat),
    {
        if block < 0x8000_0000 && index as u64 <= 0xFFFF_FFFF {
            Some((block as i128 * 0x1_0000_0000 + index as i128) as i64)
        } else {
            None
        }
    }

    /// Turns a function label into its address.
    fn fn_to_addr(&self, entry: UniqueSym<'p>) -> (r: Result<i64, InterpError>)
        ensures
            r == self.program().fn_address(entry),
    {
        match self.entries.get(entry.id) {
            None => Err(InterpError::UnknownLabel),
            Some(block) => match Self::instr_to_addr(block.id, 0) {
                Some(addr) => Ok(addr),
                None => Err(InterpError::AddressOverflow),
            },
        }
    }

    /// Destructures into a block label and instruction index.
    fn destruct_addr(&self, addr: i64) -> (r: Option<(usize, usize)>)
        ensures
            match r {
                Some((block, index)) => addr >= 0 && block == addr / 0x1_0000_0000 && index == addr
                    % 0x1_0000_0000 && has_id(self.program().blocks, block),
                None => addr < 0 || !has_id(
                    self.program().blocks,
                    (addr / 0x1_0000_0000) as usize,
                ),
            },
    {
        if addr < 0 {
            return None;
        }
        let block = (addr / 0x1_0000_0000) as usize;
        let index = (addr % 0x1_0000_0000) as usize;
        proof {
            use_type_invariant(&self.blocks);
            lemma_mapped(self.blocks@, |b: Block<'p, VarArg<'p>>| b.instrs@, block);
        }
        if self.blocks.contains(block) {
            Some((block, index))
        } else {
            None
        }
    }

    /// Evaluates whether a condition holds.
    fn evaluate_cnd(&self, cnd: Cnd) -> (b: bool)
        ensures
            b == holds(cnd, self.status),
    {
        match cnd {
            Cnd::Above => !self.status.carry && !self.status.zero,
            Cnd::AboveOrEqual | Cnd::NotCarry => !self.status.carry,
            Cnd::Below | Cnd::Carry => self.status.carry,
            Cnd::BelowOrEqual => self.status.carry || self.status.zero,
            Cnd::EQ => self.status.zero,
            Cnd::GT => !self.status.zero && self.status.sign == self.status.overflow,
            Cnd::GE => self.status.sign == self.status.overflow,
            Cnd::LT => self.status.sign != self.status.overflow,
            Cnd::LE => self.status.zero || self.status.sign != self.status.overflow,
            Cnd::NE => !self.status.zero,
            Cnd::NotOverflow => !self.status.overflow,
            Cnd::NotSign => !self.status.sign,
            Cnd::Overflow => self.status.overflow,
            Cnd::ParityEven => self.status.parity_even,
            Cnd::ParityOdd => !self.status.parity_even,
            Cnd::Sign => self.status.sign,
        }
    }

    /// Retrieves the argument from memory. This can be from `regs`,
    /// `memory` or `vars`.
    fn get_arg(&self, a: &VarArg<'p>) -> (r: Option<i64>)
        ensures
            r == self.machine(Seq::empty(), Seq::empty()).read(*a),
    {
        match a {
            VarArg::Imm(val) => Some(*val as i64),
            VarArg::Reg(reg) => Some(self.get_reg(*reg)),
            VarArg::Deref { reg, off } => {
                let addr = wrap_add(self.get_reg(*reg), *off as i64);
                match self.memory.get(&addr) {
                    Some(v) => Some(*v),
                    None => None,
                }
            },
            VarArg::XVar(sym) => match self.vars.get(&sym.id) {
                Some(v) => Some(*v),
                None => None,
            },
        }
    }

    /// Sets the argument in memory. This can be in `regs`, `memory` or
    /// `vars`. Tells whether there was anything to set: an immediate
    /// cannot be written to.
    fn set_arg(&mut self, a: &VarArg<'p>, v: i64) -> (done: bool)
        ensures
            final(self).same_frame(old(self)),
            match old(self).machine(Seq::empty(), Seq::empty()).write(*a, v) {
                Some(m) => done && final(self).machine(Seq::empty(), Seq::empty()) == m,
                None => !done && *final(self) == *old(self),
            },
    {
        match a {
            VarArg::Imm(_) => false,
            VarArg::Reg(reg) => {
                self.set_reg(*reg, v);
                true
            },
            VarArg::Deref { reg, off } => {
                let addr = wrap_add(self.get_reg(*reg), *off as i64);
                self.memory.insert(addr, v);
                true
            },
            VarArg::XVar(sym) => {
                self.vars.insert(sym.id, v);
                true
            },
        }
    }
}


/// Whether `x` is a multiple of two.
fn is_even(x: i64) -> (b: bool)
    ensures
        b == (x % 2 == 0),
{
    if x >= 0 {
        x % 2 == 0
    } else {
        (-(x + 1)) % 2 == 1
    }
}

/// Whether `x` is a multiple of eight.
fn aligned(x: i64) -> (b: bool)
    ensures
        b == (x % 8 == 0),
{
    if x >= 0 {
        x % 8 == 0
    } else {
        (-(x + 1)) % 8 == 7
    }
}

impl<'p> X86Interpreter<'p> {
    /// Moves on to the next instruction of the block.
    fn advance(&mut self, Ghost(t): Ghost<Tape>) -> (r: Halt)
        requires
            old(self).index < usize::MAX,
        ensures
            r is None,
                final(self).on(t) == old(self).on(t).advanced(),
            final(self).entries == old(self).entries,
            final(self).blocks == old(self).blocks,
            final(self).stats == old(self).stats,
    {
        self.index = self.index + 1;
        None
    }

    /// Goes on at the address `addr`.
    fn land(&mut self, addr: i64, Ghost(t): Ghost<Tape>) -> (r: Halt)
        ensures
            final(self).entries == old(self).entries,
            final(self).blocks == old(self).blocks,
            final(self).stats == old(self).stats,
                match old(self).program().landed(old(self).on(t), addr) {
                    Step::Next(m) => r is None && final(self).on(t) == m,
                    Step::Exit(_) => false,
                    Step::Fault(e) => r == Some(Err::<i64, InterpError>(e)),
                },
    {
        match self.destruct_addr(addr) {
            None => Some(Err(InterpError::UnknownLabel)),
            Some((block, index)) => {
                self.block = block;
                self.index = index;
                None
            },
        }
    }

    /// Writes `v` to `dst` and moves on.
    fn finish(&mut self, dst: &VarArg<'p>, v: i64, Ghost(t): Ghost<Tape>) -> (r: Halt)
        requires
            old(self).index < usize::MAX,
        ensures
            final(self).entries == old(self).entries,
            final(self).blocks == old(self).blocks,
            final(self).stats == old(self).stats,
                match old(self).on(t).write(*dst, v) {
                    Some(m) => r is None && final(self).on(t) == m.advanced(),
                    None => r == Some(
                        Err::<i64, InterpError>(InterpError::ImmediateDestination),
                    ),
                },
    {
        if self.set_arg(dst, v) {
            self.advance(Ghost(t))
        } else {
            Some(Err(InterpError::ImmediateDestination))
        }
    }

    /// Puts `v` on the stack. Tells whether the stack pointer allowed it.
    fn push(&mut self, v: i64, Ghost(t): Ghost<Tape>) -> (done: bool)
        ensures
            final(self).same_frame(old(self)),
                match old(self).on(t).pushed(v) {
                    Some(m) => done && final(self).on(t) == m,
                    None => !done,
                },
    {
        let rsp = self.get_reg(Reg::RSP);
        if !aligned(rsp) {
            return false;
        }
        let top = wrap_sub(rsp, 8);
        self.set_reg(Reg::RSP, top);
        self.memory.insert(top, v);
        true
    }

    /// Emulates a syscall read on Linux.
    fn syscall_read<I: IO>(&mut self, io: &mut I)
        requires
            old(self).index < usize::MAX,
            old(self).regs@[0] == 0,
            old(self).regs@[7] == 0,
        ensures
            final(self).entries == old(self).entries,
            final(self).blocks == old(self).blocks,
            final(self).stats == old(self).stats,
            system_call(old(self).machine(old(io).pending(), old(io).printed())) == Step::Next(
                final(self).machine(final(io).pending(), final(io).printed()),
            ),
    {
        let buffer = self.get_reg(Reg::RSI);
        let buffer_len = self.get_reg(Reg::RDX);
        if buffer_len == 0 {
            self.memory.insert(buffer, 0);
            self.set_reg(Reg::RAX, 0);
        } else {
            match io.read() {
                Some(read) => {
                    self.memory.insert(buffer, read as i64);
                    self.set_reg(Reg::RAX, 1);
                },
                None => {
                    self.memory.insert(buffer, 0);
                    self.set_reg(Reg::RAX, 0);
                },
            }
        }
        self.advance(Ghost((io.pending(), io.printed())));
    }

    /// Emulates a syscall write on Linux.
    fn syscall_write<I: IO>(&mut self, io: &mut I) -> (r: Halt)
        requires
            old(self).index < usize::MAX,
            old(self).regs@[0] == 1,
        ensures
            final(self).entries == old(self).entries,
            final(self).blocks == old(self).blocks,
            final(self).stats == old(self).stats,
            match system_call(old(self).machine(old(io).pending(), old(io).printed())) {
                Step::Next(m) => r is None && final(self).machine(
                    final(io).pending(),
                    final(io).printed(),
                ) == m,
                Step::Exit(_) => false,
                Step::Fault(e) => r == Some(Err::<i64, InterpError>(e)),
            },
    {
        let file = self.get_reg(Reg::RDI);
        let buffer = self.get_reg(Reg::RSI);
        let buffer_len = self.get_reg(Reg::RDX);
        if file != 1 || buffer_len != 1 {
            return Some(Err(InterpError::UnsupportedSyscall));
        }
        let val = match self.memory.get(&buffer) {
            Some(val) => *val,
            None => {
                return Some(Err(InterpError::Uninitialized));
            },
        };
        io.print(low_byte(val));
        self.set_reg(Reg::RAX, 1);
        self.advance(Ghost((io.pending(), io.printed())))
    }
}


impl<'p> X86Interpreter<'p> {
    /// Reads the operands of a two-operand instruction.
    fn get_both(&self, src: &VarArg<'p>, dst: &VarArg<'p>,
        Ghost(t): Ghost<Tape>) -> (r: Option<(i64, i64)>)
        ensures
                match (self.on(t).read(*src), self.on(t).read(*dst)) {
                    (Some(s), Some(d)) => r == Some((s, d)),
                    _ => r is None,
                },
    {
        match self.get_arg(src) {
            None => None,
            Some(s) => match self.get_arg(dst) {
                None => None,
                Some(d) => Some((s, d)),
            },
        }
    }

    /// Whether the interpreter did what the machine does: `r` and the
    /// state `after` are what the step `step` asks for, taken from the
    /// state `before`.
    pub open spec fn follows(
        before: &Self,
        step: Step,
        r: Halt,
        after: &Self,
        before_in: Seq<u8>,
        before_out: Seq<u8>,
        after_in: Seq<u8>,
        after_out: Seq<u8>,
    ) -> bool {
        &&& after.entries == before.entries
        &&& after.blocks == before.blocks
        &&& after.stats.instructions_executed == before.stats.instructions_executed
        &&& match step {
            Step::Next(m) => r is None && after.machine(after_in, after_out) == m,
            Step::Exit(status) => r == Some(Ok::<i64, InterpError>(status))
                && after.machine(after_in, after_out)
                == before.machine(before_in, before_out),
            Step::Fault(e) => r == Some(Err::<i64, InterpError>(e)),
        }
    }

    /// Whether the interpreter did what the instruction `instr` does to
    /// the machine, on a tape that the instruction leaves as it is.
    pub open spec fn runs(
        before: &Self,
        instr: Instr<'p, VarArg<'p>>,
        r: Halt,
        after: &Self,
        t: Tape,
    ) -> bool {
        Self::follows(
            before,
            before.program().execute(before.on(t), instr),
            r,
            after,
            t.0,
            t.1,
            t.0,
            t.1,
        )
    }

    fn exec_add(&mut self, src: VarArg<'p>, dst: VarArg<'p>, Ghost(t): Ghost<Tape>) -> (r: Halt)
        requires
            old(self).index < usize::MAX,
        ensures
                Self::runs(old(self), Instr::Add { src, dst }, r, final(self), t),
    {
        match self.get_both(&src, &dst, Ghost(t)) {
            None => Some(Err(InterpError::Uninitialized)),
            Some((s, d)) => self.finish(&dst, wrap_add(s, d), Ghost(t)),
        }
    }

    fn exec_sub(&mut self, src: VarArg<'p>, dst: VarArg<'p>, Ghost(t): Ghost<Tape>) -> (r: Halt)
        requires
            old(self).index < usize::MAX,
        ensures
                Self::runs(old(self), Instr::Sub { src, dst }, r, final(self), t),
    {
        match self.get_both(&src, &dst, Ghost(t)) {
            None => Some(Err(InterpError::Uninitialized)),
            Some((s, d)) => self.finish(&dst, wrap_sub(d, s), Ghost(t)),
        }
    }

    fn exec_and(&mut self, src: VarArg<'p>, dst: VarArg<'p>, Ghost(t): Ghost<Tape>) -> (r: Halt)
        requires
            old(self).index < usize::MAX,
        ensures
                Self::runs(old(self), Instr::And { src, dst }, r, final(self), t),
    {
        match self.get_both(&src, &dst, Ghost(t)) {
            None => Some(Err(InterpError::Uninitialized)),
            Some((s, d)) => self.finish(&dst, s & d, Ghost(t)),
        }
    }

    fn exec_or(&mut self, src: VarArg<'p>, dst: VarArg<'p>, Ghost(t): Ghost<Tape>) -> (r: Halt)
        requires
            old(self).index < usize::MAX,
        ensures
                Self::runs(old(self), Instr::Or { src, dst }, r, final(self), t),
    {
        match self.get_both(&src, &dst, Ghost(t)) {
            None => Some(Err(InterpError::Uninitialized)),
            Some((s, d)) => self.finish(&dst, s | d, Ghost(t)),
        }
    }

    fn exec_xor(&mut self, src: VarArg<'p>, dst: VarArg<'p>, Ghost(t): Ghost<Tape>) -> (r: Halt)
        requires
            old(self).index < usize::MAX,
        ensures
                Self::runs(old(self), Instr::Xor { src, dst }, r, final(self), t),
    {
        match self.get_both(&src, &dst, Ghost(t)) {
            None => Some(Err(InterpError::Uninitialized)),
            Some((s, d)) => self.finish(&dst, s ^ d, Ghost(t)),
        }
    }

    fn exec_neg(&mut self, dst: VarArg<'p>, Ghost(t): Ghost<Tape>) -> (r: Halt)
        requires
            old(self).index < usize::MAX,
        ensures
                Self::runs(old(self), Instr::Neg { dst }, r, final(self), t),
    {
        match self.get_arg(&dst) {
            None => Some(Err(InterpError::Uninitialized)),
            Some(d) => self.finish(&dst, wrap_sub(0, d), Ghost(t)),
        }
    }

    fn exec_not(&mut self, dst: VarArg<'p>, Ghost(t): Ghost<Tape>) -> (r: Halt)
        requires
            old(self).index < usize::MAX,
        ensures
                Self::runs(old(self), Instr::Not { dst }, r, final(self), t),
    {
        match self.get_arg(&dst) {
            None => Some(Err(InterpError::Uninitialized)),
            Some(d) => self.finish(&dst, -1 - d, Ghost(t)),
        }
    }

    fn exec_mov(&mut self, src: VarArg<'p>, dst: VarArg<'p>, Ghost(t): Ghost<Tape>) -> (r: Halt)
        requires
            old(self).index < usize::MAX,
        ensures
                Self::runs(old(self), Instr::Mov { src, dst }, r, final(self), t),
    {
        match self.get_arg(&src) {
            None => Some(Err(InterpError::Uninitialized)),
            Some(v) => self.finish(&dst, v, Ghost(t)),
        }
    }

    fn exec_compare(&mut self, src: VarArg<'p>, dst: VarArg<'p>, Ghost(t): Ghost<Tape>) -> (r: Halt)
        requires
            old(self).index < usize::MAX,
        ensures
                Self::runs(old(self), Instr::Cmp { src, dst }, r, final(self), t),
    {
        if let VarArg::Imm(_) = dst {
            return Some(Err(InterpError::ImmediateDestination));
        }
        match self.get_both(&src, &dst, Ghost(t)) {
            None => Some(Err(InterpError::Uninitialized)),
            Some((s, d)) => {
                let res = wrap_sub(d, s);
                self.status = Status {
                    carry: to_unsigned(s) > to_unsigned(d),
                    parity_even: is_even(res),
                    zero: res == 0,
                    sign: res < 0,
                    overflow: d as i128 - s as i128 != res as i128,
                };
                assert(self.status == compared(s, d));
                self.advance(Ghost(t))
            },
        }
    }

    fn exec_push(&mut self, src: VarArg<'p>, Ghost(t): Ghost<Tape>) -> (r: Halt)
        requires
            old(self).index < usize::MAX,
        ensures
                Self::runs(old(self), Instr::Push { src }, r, final(self), t),
    {
        let rsp = self.get_reg(Reg::RSP);
        if !aligned(rsp) {
            return Some(Err(InterpError::MisalignedStack));
        }
        let top = wrap_sub(rsp, 8);
        self.set_reg(Reg::RSP, top);
        match self.get_arg(&src) {
            None => Some(Err(InterpError::Uninitialized)),
            Some(v) => {
                self.memory.insert(top, v);
                self.advance(Ghost(t))
            },
        }
    }

    fn exec_pop(&mut self, dst: VarArg<'p>, Ghost(t): Ghost<Tape>) -> (r: Halt)
        requires
            old(self).index < usize::MAX,
        ensures
                Self::runs(old(self), Instr::Pop { dst }, r, final(self), t),
    {
        let rsp = self.get_reg(Reg::RSP);
        if !aligned(rsp) {
            return Some(Err(InterpError::MisalignedStack));
        }
        let v = match self.memory.get(&rsp) {
            Some(v) => *v,
            None => {
                return Some(Err(InterpError::Uninitialized));
            },
        };
        if !self.set_arg(&dst, v) {
            return Some(Err(InterpError::ImmediateDestination));
        }
        let moved = wrap_add(self.get_reg(Reg::RSP), 8);
        self.set_reg(Reg::RSP, moved);
        self.advance(Ghost(t))
    }

    fn exec_mul(&mut self, src: VarArg<'p>, Ghost(t): Ghost<Tape>) -> (r: Halt)
        requires
            old(self).index < usize::MAX,
        ensures
                Self::runs(old(self), Instr::Mul { src }, r, final(self), t),
    {
        match self.get_arg(&src) {
            None => Some(Err(InterpError::Uninitialized)),
            Some(s) => {
                let (low, high) = wide_mul(self.get_reg(Reg::RAX), s);
                self.set_reg(Reg::RAX, low);
                self.set_reg(Reg::RDX, high);
                self.advance(Ghost(t))
            },
        }
    }

    fn exec_div(&mut self, divisor: VarArg<'p>, Ghost(t): Ghost<Tape>) -> (r: Halt)
        requires
            old(self).index < usize::MAX,
        ensures
                Self::runs(old(self), Instr::Div { divisor }, r, final(self), t),
    {
        match self.get_arg(&divisor) {
            None => Some(Err(InterpError::Uninitialized)),
            Some(d) => {
                let dividend = widen(self.get_reg(Reg::RDX), self.get_reg(Reg::RAX));
                match divide(dividend, d) {
                    None => Some(Err(InterpError::DivideError)),
                    Some((quot, rem)) => {
                        self.set_reg(Reg::RAX, quot);
                        self.set_reg(Reg::RDX, rem);
                        self.advance(Ghost(t))
                    },
                }
            },
        }
    }

    fn exec_jcc(&mut self, lbl: UniqueSym<'p>, cnd: Cnd, Ghost(t): Ghost<Tape>) -> (r: Halt)
        requires
            old(self).index < usize::MAX,
            old(self).stats.branches_taken < usize::MAX,
        ensures
                Self::runs(old(self), Instr::Jcc { lbl, cnd }, r, final(self), t),
    {
        self.stats.branches_taken = self.stats.branches_taken + 1;
        if self.evaluate_cnd(cnd) {
            self.block = lbl.id;
            self.index = 0;
            None
        } else {
            self.advance(Ghost(t))
        }
    }

    fn exec_setcc(&mut self, cnd: Cnd, Ghost(t): Ghost<Tape>) -> (r: Halt)
        requires
            old(self).index < usize::MAX,
        ensures
                Self::runs(old(self), Instr::Setcc { cnd }, r, final(self), t),
    {
        let rax = self.get_reg(Reg::RAX);
        let bit = self.evaluate_cnd(cnd);
        self.set_reg(Reg::RAX, with_low_byte(rax, bit));
        self.advance(Ghost(t))
    }

    fn exec_load(&mut self, lbl: UniqueSym<'p>, dst: VarArg<'p>, Ghost(t): Ghost<Tape>) -> (r: Halt)
        requires
            old(self).index < usize::MAX,
        ensures
                Self::runs(old(self), Instr::LoadLbl { lbl, dst }, r, final(self), t),
    {
        match self.fn_to_addr(lbl) {
            Err(e) => Some(Err(e)),
            Ok(addr) => self.finish(&dst, addr, Ghost(t)),
        }
    }

    fn exec_call(&mut self, lbl: UniqueSym<'p>, arity: usize, Ghost(t): Ghost<Tape>) -> (r: Halt)
        requires
            old(self).index < usize::MAX,
        ensures
                Self::runs(old(self), Instr::CallDirect { lbl, arity }, r, final(self), t),
    {
        let ret = match Self::instr_to_addr(self.block, self.index + 1) {
            None => {
                return Some(Err(InterpError::AddressOverflow));
            },
            Some(ret) => ret,
        };
        if !self.push(ret, Ghost(t)) {
            return Some(Err(InterpError::MisalignedStack));
        }
        let target = match self.fn_to_addr(lbl) {
            Err(e) => {
                return Some(Err(e));
            },
            Ok(target) => target,
        };
        self.enter(Ghost(t));
        self.land(target, Ghost(t))
    }

    fn exec_call_indirect(&mut self, src: VarArg<'p>, arity: usize,
        Ghost(t): Ghost<Tape>) -> (r: Halt)
        requires
            old(self).index < usize::MAX,
        ensures
                Self::runs(old(self), Instr::CallIndirect { src, arity }, r, final(self), t),
    {
        let ret = match Self::instr_to_addr(self.block, self.index + 1) {
            None => {
                return Some(Err(InterpError::AddressOverflow));
            },
            Some(ret) => ret,
        };
        if !self.push(ret, Ghost(t)) {
            return Some(Err(InterpError::MisalignedStack));
        }
        let target = match self.get_arg(&src) {
            None => {
                return Some(Err(InterpError::Uninitialized));
            },
            Some(target) => target,
        };
        self.enter(Ghost(t));
        self.land(target, Ghost(t))
    }

    fn exec_ret(&mut self, Ghost(t): Ghost<Tape>) -> (r: Halt)
        ensures
                Self::runs(old(self), Instr::Ret, r, final(self), t),
    {
        let rsp = self.get_reg(Reg::RSP);
        if !aligned(rsp) {
            return Some(Err(InterpError::MisalignedStack));
        }
        let addr = match self.memory.get(&rsp) {
            Some(addr) => *addr,
            None => {
                return Some(Err(InterpError::Uninitialized));
            },
        };
        let ghost stack = self.var_stack@;
        match self.var_stack.pop() {
            None => {
                return Some(Err(InterpError::EmptyCallStack));
            },
            Some(frame) => {
                self.vars = frame;
            },
        }
        assert(frames(self.var_stack@) =~= frames(stack).drop_last());
        self.set_reg(Reg::RSP, wrap_add(rsp, 8));
        self.land(addr, Ghost(t))
    }

    fn exec_syscall<I: IO>(&mut self, io: &mut I, arity: usize) -> (r: Halt)
        requires
            old(self).index < usize::MAX,
        ensures
            Self::follows(
                old(self),
                old(self).program().execute(
                    old(self).machine(old(io).pending(), old(io).printed()),
                    Instr::Syscall { arity },
                ),
                r,
                final(self),
                old(io).pending(),
                old(io).printed(),
                final(io).pending(),
                final(io).printed(),
            ),
    {
        let number = self.get_reg(Reg::RAX);
        if number == 0 {
            if self.get_reg(Reg::RDI) != 0 {
                return Some(Err(InterpError::UnsupportedSyscall));
            }
            self.syscall_read(io);
            None
        } else if number == 1 {
            self.syscall_write(io)
        } else if number == 0x3C {
            Some(Ok(self.get_reg(Reg::RDI)))
        } else {
            Some(Err(InterpError::UnsupportedSyscall))
        }
    }

    /// Executes the instruction that comes next. Returns `None` if the
    /// program goes on, and how it ended otherwise.
    pub fn step<I: IO>(&mut self, io: &mut I) -> (r: Halt)
        requires
            old(self).stats.branches_taken < usize::MAX,
        ensures
            Self::follows(
                old(self),
                old(self).program().step(old(self).machine(old(io).pending(), old(io).printed())),
                r,
                final(self),
                old(io).pending(),
                old(io).printed(),
                final(io).pending(),
                final(io).printed(),
            ),
    {
        let ghost m0 = self.machine(io.pending(), io.printed());
        proof {
            use_type_invariant(&self.blocks);
            lemma_mapped(self.blocks@, |b: Block<'p, VarArg<'p>>| b.instrs@, self.block);
        }
        let instr = match self.blocks.get(self.block) {
            None => {
                return Some(Err(InterpError::UnknownLabel));
            },
            Some(block) => {
                if self.index >= block.instrs.len() {
                    return Some(Err(InterpError::OutOfBlock));
                }
                block.instrs[self.index]
            },
        };
        assert(self.program().step(m0) == self.program().execute(m0, instr));
        match instr {
            Instr::Add { src, dst } => self.exec_add(src, dst, Ghost((io.pending(), io.printed()))),
            Instr::Sub { src, dst } => self.exec_sub(src, dst, Ghost((io.pending(), io.printed()))),
            Instr::And { src, dst } => self.exec_and(src, dst, Ghost((io.pending(), io.printed()))),
            Instr::Or { src, dst } => self.exec_or(src, dst, Ghost((io.pending(), io.printed()))),
            Instr::Xor { src, dst } => self.exec_xor(src, dst, Ghost((io.pending(), io.printed()))),
            Instr::Neg { dst } => self.exec_neg(dst, Ghost((io.pending(), io.printed()))),
            Instr::Not { dst } => self.exec_not(dst, Ghost((io.pending(), io.printed()))),
            Instr::Mov { src, dst } => self.exec_mov(src, dst, Ghost((io.pending(), io.printed()))),
            Instr::Cmp { src, dst } => self.exec_compare(src, dst, Ghost((io.pending(),
                io.printed()))),
            Instr::Push { src } => self.exec_push(src, Ghost((io.pending(), io.printed()))),
            Instr::Pop { dst } => self.exec_pop(dst, Ghost((io.pending(), io.printed()))),
            Instr::Mul { src } => self.exec_mul(src, Ghost((io.pending(), io.printed()))),
            Instr::Div { divisor } => self.exec_div(divisor, Ghost((io.pending(), io.printed()))),
            Instr::Jmp { lbl } => {
                self.block = lbl.id;
                self.index = 0;
                None
            },
            Instr::Jcc { lbl, cnd } => self.exec_jcc(lbl, cnd, Ghost((io.pending(), io.printed()))),
            Instr::Setcc { cnd } => self.exec_setcc(cnd, Ghost((io.pending(), io.printed()))),
            Instr::LoadLbl { lbl, dst } => self.exec_load(lbl, dst, Ghost((io.pending(),
                io.printed()))),
            Instr::CallDirect { lbl, arity } => self.exec_call(lbl, arity, Ghost((io.pending(),
                io.printed()))),
            Instr::CallIndirect { src, arity } => self.exec_call_indirect(src, arity,
                Ghost((io.pending(), io.printed()))),
            Instr::Ret => self.exec_ret(Ghost((io.pending(), io.printed()))),
            Instr::Syscall { arity } => self.exec_syscall(io, arity),
        }
    }

    /// Puts the variables of the running function aside for the time of a
    /// call.
    fn enter(&mut self, Ghost(t): Ghost<Tape>)
        ensures
            final(self).entries == old(self).entries,
            final(self).blocks == old(self).blocks,
            final(self).stats == old(self).stats,
                final(self).on(t) == (Machine {
                    var_stack: old(self).on(t).var_stack.push(old(self).on(t).vars),
                    vars: Map::empty(),
                    ..old(self).on(t)
                }),
    {
        let mut frame: HashMap<usize, i64> = HashMap::new();
        core::mem::swap(&mut self.vars, &mut frame);
        self.var_stack.push(frame);
        assert(frames(self.var_stack@) =~= frames(old(self).var_stack@).push(old(self).vars@));
        assert(self.vars@ =~= Map::empty());
    }
}


impl<'p> X86Interpreter<'p> {
    /// Runs the program from the entry block of the function `entry`, for
    /// at most `fuel` steps.
    pub fn run<I: IO>(&mut self, entry: UniqueSym<'p>, io: &mut I, fuel: usize) -> (r: Result<
        i64,
        InterpError,
    >)
        requires
            old(self).stats.branches_taken + fuel <= usize::MAX,
        ensures
            final(self).entries == old(self).entries,
            final(self).blocks == old(self).blocks,
            final(self).stats.instructions_executed == old(self).stats.instructions_executed,
            match old(self).program().run_from(
                old(self).machine(old(io).pending(), old(io).printed()),
                entry,
                fuel as nat,
            ) {
                Outcome::Done(status, m) => r == Ok::<i64, InterpError>(status)
                    && final(self).machine(
                    final(io).pending(),
                    final(io).printed(),
                ) == m,
                Outcome::Fault(e) => r == Err::<i64, InterpError>(e),
            },
    {
        let ghost program = self.program();
        match self.entries.get(entry.id) {
            None => {
                return Err(InterpError::UnknownLabel);
            },
            Some(block) => {
                self.block = block.id;
                self.index = 0;
            },
        }
        let ghost goal = program.run_from(
            old(self).machine(old(io).pending(), old(io).printed()),
            entry,
            fuel as nat,
        );
        let mut left = fuel;
        let mut result: Result<i64, InterpError> = Err(InterpError::OutOfFuel);
        while left > 0
            invariant_except_break
                self.stats.branches_taken + left <= usize::MAX,
                program.run(self.machine(io.pending(), io.printed()), left as nat) == goal,
                result == Err::<i64, InterpError>(InterpError::OutOfFuel),
            invariant
                self.program() == program,
                self.entries == old(self).entries,
                self.blocks == old(self).blocks,
                self.stats.instructions_executed == old(self).stats.instructions_executed,
            ensures
                match goal {
                    Outcome::Done(status, m) => result == Ok::<i64, InterpError>(status)
                        && self.machine(io.pending(), io.printed()) == m,
                    Outcome::Fault(e) => result == Err::<i64, InterpError>(e),
                },
            decreases left,
        {
            proof {
                lemma_step_branches(program, self.machine(io.pending(), io.printed()));
            }
            match self.step(io) {
                Some(r) => {
                    result = r;
                    break ;
                },
                None => {
                    left -= 1;
                },
            }
        }
        result
    }
}


/// The code `code` with its operands seen as ones that could also be
/// variables.
pub open spec fn lifted<'p>(code: Seq<Instr<'p, Arg>>) -> Seq<Instr<'p, VarArg<'p>>> {
    Seq::new(code.len(), |i: int| code[i].lift())
}

impl<'p> X86Concluded<'p> {
    /// The program as the machine runs it: every block is its own entry.
    pub open spec fn program(self) -> Program<'p> {
        Program {
            entries: Seq::new(self.blocks@.len(), |k: int| (self.blocks@[k].0, self.blocks@[k].0)),
            blocks: Seq::new(
                self.blocks@.len(),
                |k: int| (self.blocks@[k].0, lifted(self.blocks@[k].1.instrs@)),
            ),
        }
    }

    /// Runs the program on the input of `io` for at most `fuel` steps.
    /// Returns the status with which it ended the process, and what the
    /// interpreter counted.
    pub fn interpret_with_stats<I: IO>(&self, io: &mut I, fuel: usize) -> (r: (
        Result<i64, InterpError>,
        IStats,
    ))
        ensures
            match self.program().run_from(
                initial_with(0, old(io).pending(), old(io).printed()),
                self.entry,
                fuel as nat,
            ) {
                Outcome::Done(status, m) => r.0 == Ok::<i64, InterpError>(status)
                    && final(io).pending() == m.pending && final(io).printed() == m.printed
                    && r.1.branches_taken == m.branches,
                Outcome::Fault(e) => r.0 == Err::<i64, InterpError>(e),
            },
            r.1.instructions_executed == 0,
    {
        let n = self.blocks.len();
        let mut entries: SymMap<'p, UniqueSym<'p>> = SymMap::new();
        let mut blocks: SymMap<'p, Block<'p, VarArg<'p>>> = SymMap::new();
        let mut k: usize = 0;
        while k < n
            invariant
                k <= n,
                n == self.blocks@.len(),
                self.blocks.wf(),
                entries@.len() == k,
                blocks@.len() == k,
                forall|j: int|
                    0 <= j < k ==> #[trigger] entries@[j] == (
                        self.blocks@[j].0,
                        self.blocks@[j].0,
                    ),
                forall|j: int|
                    0 <= j < k ==> (#[trigger] blocks@[j]).0 == self.blocks@[j].0
                        && blocks@[j].1.instrs@ == lifted(self.blocks@[j].1.instrs@),
            decreases n - k,
        {
            let lbl = self.blocks.key_at(k);
            let block = self.blocks.value_at(k);
            let mut instrs: Vec<Instr<'p, VarArg<'p>>> = Vec::new();
            let mut i: usize = 0;
            while i < block.instrs.len()
                invariant
                    i <= block.instrs@.len(),
                    instrs@ == lifted(block.instrs@).take(i as int),
                decreases block.instrs@.len() - i,
            {
                instrs.push(block.instrs[i].to_var_instr());
                assert(instrs@ =~= lifted(block.instrs@).take(i + 1));
                i += 1;
            }
            assert(lifted(block.instrs@).take(i as int) =~= lifted(block.instrs@));
            proof {
                if has_id(entries@, lbl.id) {
                    let j = choose|j: int|
                        0 <= j < entries@.len() && #[trigger] entries@[j].0.id == lbl.id;
                    assert(self.blocks@[j].0.id != self.blocks@[k as int].0.id);
                }
                if has_id(blocks@, lbl.id) {
                    let j = choose|j: int|
                        0 <= j < blocks@.len() && #[trigger] blocks@[j].0.id == lbl.id;
                    assert(self.blocks@[j].0.id != self.blocks@[k as int].0.id);
                }
            }
            entries.insert(lbl, lbl);
            blocks.insert(lbl, Block { instrs });
            k += 1;
        }
        let mut state = X86Interpreter::new(entries, blocks, 0);
        proof {
            assert(state.program().entries =~= self.program().entries);
            assert(state.program().blocks =~= self.program().blocks);
        }
        let val = state.run(self.entry, io, fuel);
        (val, state.stats)
    }

    /// Runs the program on the input of `io` for at most `fuel` steps.
    /// Returns the status with which it ended the process.
    pub fn interpret<I: IO>(&self, io: &mut I, fuel: usize) -> (r: Result<i64, InterpError>)
        ensures
            match self.program().run_from(
                initial_with(0, old(io).pending(), old(io).printed()),
                self.entry,
                fuel as nat,
            ) {
                Outcome::Done(status, m) => r == Ok::<i64, InterpError>(status)
                    && final(io).pending() == m.pending && final(io).printed() == m.printed,
                Outcome::Fault(e) => r == Err::<i64, InterpError>(e),
            },
    {
        self.interpret_with_stats(io, fuel).0
    }
}


/// `acc` with the first `n` blocks of `fun` stored in it.
pub open spec fn gathered<'p>(
    acc: Seq<(UniqueSym<'p>, Seq<Instr<'p, VarArg<'p>>>)>,
    fun: FunSelected<'p>,
    n: int,
) -> Seq<(UniqueSym<'p>, Seq<Instr<'p, VarArg<'p>>>)>
    decreases n,
{
    if n <= 0 {
        acc
    } else {
        stored(gathered(acc, fun, n - 1), fun.blocks@[n - 1].0, fun.blocks@[n - 1].1.instrs@)
    }
}

/// The blocks of the first `n` functions, stored one after the other.
pub open spec fn all_blocks<'p>(fns: Seq<(UniqueSym<'p>, FunSelected<'p>)>, n: int) -> Seq<
    (UniqueSym<'p>, Seq<Instr<'p, VarArg<'p>>>),
>
    decreases n,
{
    if n <= 0 {
        Seq::empty()
    } else {
        gathered(all_blocks(fns, n - 1), fns[n - 1].1, fns[n - 1].1.blocks@.len() as int)
    }
}

impl<'p> X86Selected<'p> {
    /// The program as the machine runs it.
    pub open spec fn program(self) -> Program<'p> {
        Program {
            entries: Seq::new(self.fns@.len(), |k: int| (self.fns@[k].0, self.fns@[k].1.entry)),
            blocks: all_blocks(self.fns@, self.fns@.len() as int),
        }
    }

    /// Runs the program on the input of `io` for at most `fuel` steps.
    /// Returns the status with which it ended the process.
    pub fn interpret<I: IO>(&self, io: &mut I, fuel: usize) -> (r: Result<i64, InterpError>)
        ensures
            match self.program().run_from(
                initial_with(0, old(io).pending(), old(io).printed()),
                self.entry,
                fuel as nat,
            ) {
                Outcome::Done(status, m) => r == Ok::<i64, InterpError>(status)
                    && final(io).pending()
                    == m.pending && final(io).printed() == m.printed,
                Outcome::Fault(e) => r == Err::<i64, InterpError>(e),
            },
    {
        let n = self.fns.len();
        let mut entries: SymMap<'p, UniqueSym<'p>> = SymMap::new();
        let mut blocks: SymMap<'p, Block<'p, VarArg<'p>>> = SymMap::new();
        assert(code_of(blocks@) =~= all_blocks(self.fns@, 0));
        let mut j: usize = 0;
        while j < n
            invariant
                j <= n,
                n == self.fns@.len(),
                self.fns.wf(),
                entries@.len() == j,
                forall|k: int|
                    0 <= k < j ==> #[trigger] entries@[k] == (self.fns@[k].0, self.fns@[k].1.entry),
                code_of(blocks@) == all_blocks(self.fns@, j as int),
            decreases n - j,
        {
            let sym = self.fns.key_at(j);
            let fun = self.fns.value_at(j);
            proof {
                if has_id(entries@, sym.id) {
                    let k = choose|k: int|
                        0 <= k < entries@.len() && #[trigger] entries@[k].0.id == sym.id;
                    assert(self.fns@[k].0.id != self.fns@[j as int].0.id);
                }
            }
            entries.insert(sym, fun.entry);
            let m = fun.blocks.len();
            let ghost acc = code_of(blocks@);
            let mut k: usize = 0;
            while k < m
                invariant
                    k <= m,
                    m == fun.blocks@.len(),
                    code_of(blocks@) == gathered(acc, *fun, k as int),
                decreases m - k,
            {
                let lbl = fun.blocks.key_at(k);
                let block = fun.blocks.value_at(k);
                let mut instrs: Vec<Instr<'p, VarArg<'p>>> = Vec::new();
                let mut i: usize = 0;
                while i < block.instrs.len()
                    invariant
                        i <= block.instrs@.len(),
                        instrs@ == block.instrs@.take(i as int),
                    decreases block.instrs@.len() - i,
                {
                    instrs.push(block.instrs[i]);
                    assert(instrs@ =~= block.instrs@.take(i + 1));
                    i += 1;
                }
                assert(block.instrs@.take(i as int) =~= block.instrs@);
                let copy = Block { instrs };
                proof {
                    use_type_invariant(&blocks);
                    lemma_mapped_stored(
                        blocks@,
                        |b: Block<'p, VarArg<'p>>| b.instrs@,
                        lbl,
                        copy,
                    );
                }
                blocks.insert(lbl, copy);
                k += 1;
            }
            j += 1;
        }
        let mut state = X86Interpreter::new(entries, blocks, 0);
        proof {
            assert(state.program().entries =~= self.program().entries);
        }
        state.run(self.entry, io, fuel)
    }
}

} // verus!
