//! Programs as instruction selection leaves them: x86 instructions over
//! variables, grouped into labelled blocks.

use vstd::prelude::*;
use crate::error::CompileError;
use crate::explicate::{CExpr, FunExplicated, PrgExplicated, Tail};
use crate::language::{Atom, Op};
use crate::sym_map::{has_id, lemma_mapped_stored, mapped, stored, SymMap};
use crate::symbol::{gen_sym, next_id, SymCounter, UniqueSym};
use crate::x86::{caller_saved, Block, Cnd, Instr, Reg, VarArg, CALLER_SAVED, STACK_PLACEHOLDER};

verus! {

/// A function: its blocks, and the labels of the blocks where it starts and
/// where it ends.
#[derive(Debug)]
pub struct FunSelected<'p> {
    pub blocks: SymMap<'p, Block<'p, VarArg<'p>>>,
    pub entry: UniqueSym<'p>,
    pub exit: UniqueSym<'p>,
}

/// A program: its functions, and the symbol of the one that runs first.
#[derive(Debug)]
pub struct X86Selected<'p> {
    pub fns: SymMap<'p, FunSelected<'p>>,
    pub entry: UniqueSym<'p>,
}


/// Code over variables.
pub type Code<'p> = Seq<Instr<'p, VarArg<'p>>>;

/// The operand that the atom `a` is; `None` for an integer that does not
/// fit an immediate of 32 bits.
pub open spec fn atom_arg<'p>(a: Atom<'p>) -> Option<VarArg<'p>> {
    match a {
        Atom::Val { val } => if -0x8000_0000 <= val.number() <= 0x7FFF_FFFF {
            Some(VarArg::Imm(val.number() as i32))
        } else {
            None
        },
        Atom::Var { sym } => Some(VarArg::XVar(sym)),
    }
}

/// Whether the operands `a` and `b` name the same variable or register.
pub open spec fn aliases<'p>(a: VarArg<'p>, b: VarArg<'p>) -> bool {
    match (a, b) {
        (VarArg::XVar(x), VarArg::XVar(y)) => x.id == y.id,
        (VarArg::Reg(x), VarArg::Reg(y)) => x == y,
        _ => false,
    }
}

/// The arithmetic and logical operations that the processor has a
/// two-operand instruction for.
pub open spec fn two_operand<'p>(op: Op, src: VarArg<'p>, dst: VarArg<'p>) -> Option<
    Instr<'p, VarArg<'p>>,
> {
    match op {
        Op::Plus => Some(Instr::Add { src, dst }),
        Op::Minus => Some(Instr::Sub { src, dst }),
        Op::LAnd => Some(Instr::And { src, dst }),
        Op::LOr => Some(Instr::Or { src, dst }),
        Op::Xor => Some(Instr::Xor { src, dst }),
        _ => None,
    }
}

/// The condition that holds after comparing when the comparison `op` is true.
pub open spec fn condition(op: Op) -> Option<Cnd> {
    match op {
        Op::GT => Some(Cnd::GT),
        Op::GE => Some(Cnd::GE),
        Op::EQ => Some(Cnd::EQ),
        Op::LE => Some(Cnd::LE),
        Op::LT => Some(Cnd::LT),
        Op::NE => Some(Cnd::NE),
        _ => None,
    }
}

/// The code that reads or writes one byte through a system call: the byte
/// lies on the stack, where `first` has put it, and ends up in `dst`.
pub open spec fn byte_call<'p>(first: VarArg<'p>, number: i32, dst: VarArg<'p>) -> Code<'p> {
    seq![
        Instr::Push { src: first },
        Instr::Mov { src: VarArg::Imm(number), dst: VarArg::Reg(Reg::RAX) },
        Instr::Mov { src: VarArg::Imm(number), dst: VarArg::Reg(Reg::RDI) },
        Instr::Mov { src: VarArg::Reg(Reg::RSP), dst: VarArg::Reg(Reg::RSI) },
        Instr::Mov { src: VarArg::Imm(1), dst: VarArg::Reg(Reg::RDX) },
        Instr::Syscall { arity: 3 },
        Instr::Pop { dst },
    ]
}

/// The code that applies the primitive `op` to the operands `args` and
/// leaves the result in `dst`; `None` if `op` does not take that many
/// operands.
///
/// - Sums, differences and the logical operations start from the first
///   operand in `dst` and combine the second into it; where the second
///   operand is `dst` itself, they go through `RAX` instead.
/// - Products and quotients are computed in `RAX`, with `RDX` for the upper
///   half; the remainder of a division is left in `RDX`.
/// - A comparison sets the flags, and the condition is then read into a
///   cleared `RAX`.
/// - Reading and printing go through a byte on the stack.
pub open spec fn selected_prim<'p>(op: Op, args: Seq<VarArg<'p>>, dst: VarArg<'p>) -> Option<
    Code<'p>,
> {
    let rax = VarArg::Reg(Reg::RAX);
    let rdx = VarArg::Reg(Reg::RDX);
    if args.len() == 2 && two_operand(op, args[1], dst) is Some {
        if aliases(args[1], dst) {
            Some(
                seq![
                    Instr::Mov { src: args[0], dst: rax },
                    two_operand(op, args[1], rax)->Some_0,
                    Instr::Mov { src: rax, dst },
                ],
            )
        } else {
            Some(seq![Instr::Mov { src: args[0], dst }, two_operand(op, args[1], dst)->Some_0])
        }
    } else if args.len() == 2 && condition(op) is Some {
        Some(
            seq![
                Instr::Cmp { src: args[1], dst: args[0] },
                Instr::Mov { src: VarArg::Imm(0), dst: rax },
                Instr::Setcc { cnd: condition(op)->Some_0 },
                Instr::Mov { src: rax, dst },
            ],
        )
    } else if args.len() == 2 && op == Op::Mul {
        Some(
            seq![
                Instr::Mov { src: args[0], dst: rax },
                Instr::Mul { src: args[1] },
                Instr::Mov { src: rax, dst },
            ],
        )
    } else if args.len() == 2 && (op == Op::Div || op == Op::Mod) {
        Some(
            seq![
                Instr::Mov { src: args[0], dst: rax },
                Instr::Mov { src: VarArg::Imm(0), dst: rdx },
                Instr::Div { divisor: args[1] },
                Instr::Mov {
                    src: if op == Op::Div {
                        rax
                    } else {
                        rdx
                    },
                    dst,
                },
            ],
        )
    } else if args.len() == 1 && op == Op::Minus {
        Some(seq![Instr::Mov { src: args[0], dst }, Instr::Neg { dst }])
    } else if args.len() == 1 && op == Op::Not {
        Some(seq![Instr::Mov { src: args[0], dst }, Instr::Xor { src: VarArg::Imm(1), dst }])
    } else if args.len() == 1 && op == Op::Print {
        Some(byte_call(args[0], 1, dst))
    } else if args.len() == 0 && op == Op::Read {
        Some(byte_call(VarArg::Imm(0), 0, dst))
    } else {
        None
    }
}

/// The operands that the first `n` of the atoms `atoms` are; `None` if one
/// of them does not fit.
pub open spec fn atom_args<'p>(atoms: Seq<Atom<'p>>, n: int) -> Option<Seq<VarArg<'p>>>
    decreases n,
{
    if n <= 0 {
        Some(Seq::empty())
    } else {
        match (atom_args(atoms, n - 1), atom_arg(atoms[n - 1])) {
            (Some(before), Some(arg)) => Some(before.push(arg)),
            _ => None,
        }
    }
}

/// The code that puts the arguments `args` of a call into the registers
/// that carry arguments, in order.
pub open spec fn passed<'p>(args: Seq<VarArg<'p>>) -> Code<'p> {
    Seq::new(args.len(), |i: int| Instr::Mov { src: args[i], dst: VarArg::Reg(caller_saved()[i]) })
}

/// The code that evaluates `e` and leaves its value in `dst`.
///
/// More arguments than there are registers to carry them are an
/// `UnsupportedArity`; an integer that does not fit an immediate, or a
/// primitive with the wrong number of operands, is `Unreachable`.
pub open spec fn selected_expr<'p>(dst: VarArg<'p>, e: CExpr<'p>) -> Result<Code<'p>,
    CompileError> {
    match e {
        CExpr::Atom { atm } => match atom_arg(atm) {
            Some(a) => Ok(seq![Instr::Mov { src: a, dst }]),
            None => Err(CompileError::Unreachable),
        },
        CExpr::FunRef { sym } => Ok(seq![Instr::LoadLbl { lbl: sym, dst }]),
        CExpr::Prim { op, args } => match atom_args(args@, args@.len() as int) {
            Some(operands) => match selected_prim(op, operands, dst) {
                Some(code) => Ok(code),
                None => Err(CompileError::Unreachable),
            },
            None => Err(CompileError::Unreachable),
        },
        CExpr::Apply { fun, args } => if args@.len() > 9 {
            Err(CompileError::UnsupportedArity)
        } else {
            match (atom_arg(fun), atom_args(args@, args@.len() as int)) {
                (Some(f), Some(operands)) => Ok(
                    passed(operands) + seq![
                        Instr::CallIndirect { src: f, arity: args@.len() as usize },
                        Instr::Mov { src: VarArg::Reg(Reg::RAX), dst },
                    ],
                ),
                _ => Err(CompileError::Unreachable),
            }
        },
    }
}

/// The code of the block with the body `tail`, in a function that ends at
/// the label `exit`.
///
/// A return leaves the value in `RAX` and jumps to the exit; a binding
/// leaves the value in its variable; a branch compares the condition with
/// zero.
pub open spec fn selected_tail<'p>(tail: Tail<'p>, exit: UniqueSym<'p>) -> Result<
    Code<'p>,
    CompileError,
>
    decreases tail,
{
    match tail {
        Tail::Return { expr } => match selected_expr(VarArg::Reg(Reg::RAX), expr) {
            Ok(code) => Ok(code.push(Instr::Jmp { lbl: exit })),
            Err(e) => Err(e),
        },
        Tail::Bind { sym, bnd, tail } => match selected_expr(VarArg::XVar(sym), bnd) {
            Ok(code) => match selected_tail(*tail, exit) {
                Ok(rest) => Ok(code + rest),
                Err(e) => Err(e),
            },
            Err(e) => Err(e),
        },
        Tail::IfStmt { cnd, thn, els } => match atom_arg(cnd) {
            Some(c) => Ok(
                seq![
                    Instr::Cmp { src: VarArg::Imm(0), dst: c },
                    Instr::Jcc { lbl: thn, cnd: Cnd::NE },
                    Instr::Jmp { lbl: els },
                ],
            ),
            None => Err(CompileError::Unreachable),
        },
        Tail::Goto { lbl } => Ok(seq![Instr::Jmp { lbl }]),
    }
}


/// Computes [`atom_arg`].
fn atom_to_arg<'p>(a: &Atom<'p>) -> (r: Option<VarArg<'p>>)
    ensures
        r == atom_arg(*a),
{
    match a {
        Atom::Val { val } => {
            let v = val.to_i64();
            if -0x8000_0000 <= v && v <= 0x7FFF_FFFF {
                Some(VarArg::Imm(v as i32))
            } else {
                None
            }
        },
        Atom::Var { sym } => Some(VarArg::XVar(*sym)),
    }
}

/// Computes [`atom_args`].
fn atoms_to_args<'p>(atoms: &Vec<Atom<'p>>) -> (r: Option<Vec<VarArg<'p>>>)
    ensures
        match r {
            Some(args) => atom_args(atoms@, atoms@.len() as int) == Some(args@),
            None => atom_args(atoms@, atoms@.len() as int) is None,
        },
{
    let mut args: Vec<VarArg<'p>> = Vec::new();
    let mut i: usize = 0;
    while i < atoms.len()
        invariant
            i <= atoms@.len(),
            atom_args(atoms@, i as int) == Some(args@),
        decreases atoms@.len() - i,
    {
        match atom_to_arg(&atoms[i]) {
            Some(arg) => args.push(arg),
            None => {
                proof {
                    lemma_atom_args_fail(atoms@, i + 1, atoms@.len() as int);
                }
                return None;
            },
        }
        i += 1;
    }
    Some(args)
}

proof fn lemma_atom_args_fail<'p>(atoms: Seq<Atom<'p>>, n: int, m: int)
    requires
        n <= m,
        atom_args(atoms, n) is None,
    ensures
        atom_args(atoms, m) is None,
    decreases m - n,
{
    if n < m {
        lemma_atom_args_fail(atoms, n, m - 1);
    }
}

/// Computes [`aliases`].
fn same_place<'p>(a: &VarArg<'p>, b: &VarArg<'p>) -> (r: bool)
    ensures
        r == aliases(*a, *b),
{
    match (a, b) {
        (VarArg::XVar(x), VarArg::XVar(y)) => x.id == y.id,
        (VarArg::Reg(x), VarArg::Reg(y)) => x.index() == y.index(),
        _ => false,
    }
}

/// Computes [`two_operand`].
fn make_two_operand<'p>(op: Op, src: VarArg<'p>, dst: VarArg<'p>) -> (r: Option<
    Instr<'p, VarArg<'p>>,
>)
    ensures
        r == two_operand(op, src, dst),
{
    match op {
        Op::Plus => Some(Instr::Add { src, dst }),
        Op::Minus => Some(Instr::Sub { src, dst }),
        Op::LAnd => Some(Instr::And { src, dst }),
        Op::LOr => Some(Instr::Or { src, dst }),
        Op::Xor => Some(Instr::Xor { src, dst }),
        _ => None,
    }
}

/// Computes [`condition`].
fn condition_of(op: Op) -> (r: Option<Cnd>)
    ensures
        r == condition(op),
{
    match op {
        Op::GT => Some(Cnd::GT),
        Op::GE => Some(Cnd::GE),
        Op::EQ => Some(Cnd::EQ),
        Op::LE => Some(Cnd::LE),
        Op::LT => Some(Cnd::LT),
        Op::NE => Some(Cnd::NE),
        _ => None,
    }
}

/// Appends [`byte_call`] to `out`.
fn push_byte_call<'p>(
    out: &mut Vec<Instr<'p, VarArg<'p>>>,
    first: VarArg<'p>,
    number: i32,
    dst: VarArg<'p>,
)
    ensures
        final(out)@ == old(out)@ + byte_call(first, number, dst),
{
    out.push(Instr::Push { src: first });
    out.push(Instr::Mov { src: VarArg::Imm(number), dst: VarArg::Reg(Reg::RAX) });
    out.push(Instr::Mov { src: VarArg::Imm(number), dst: VarArg::Reg(Reg::RDI) });
    out.push(Instr::Mov { src: VarArg::Reg(Reg::RSP), dst: VarArg::Reg(Reg::RSI) });
    out.push(Instr::Mov { src: VarArg::Imm(1), dst: VarArg::Reg(Reg::RDX) });
    out.push(Instr::Syscall { arity: 3 });
    out.push(Instr::Pop { dst });
    assert(out@ =~= old(out)@ + byte_call(first, number, dst));
}

/// Appends the code of a primitive operation to `out`: see
/// [`selected_prim`]. Tells whether there is such code.
fn select_prim<'p>(
    op: Op,
    args: &Vec<VarArg<'p>>,
    dst: VarArg<'p>,
    out: &mut Vec<Instr<'p, VarArg<'p>>>,
) -> (done: bool)
    ensures
        match selected_prim(op, args@, dst) {
            Some(code) => done && final(out)@ == old(out)@ + code,
            None => !done,
        },
{
    let rax = VarArg::Reg(Reg::RAX);
    let rdx = VarArg::Reg(Reg::RDX);
    let n = args.len();
    if n == 2 {
        if let Some(instr) = make_two_operand(op, args[1], dst) {
            if same_place(&args[1], &dst) {
                let via = make_two_operand(op, args[1], rax);
                out.push(Instr::Mov { src: args[0], dst: rax });
                match via {
                    Some(via) => out.push(via),
                    None => {},
                }
                out.push(Instr::Mov { src: rax, dst });
            } else {
                out.push(Instr::Mov { src: args[0], dst });
                out.push(instr);
            }
            assert(out@ =~= old(out)@ + selected_prim(op, args@, dst)->Some_0);
            return true;
        }
        if let Some(cnd) = condition_of(op) {
            out.push(Instr::Cmp { src: args[1], dst: args[0] });
            out.push(Instr::Mov { src: VarArg::Imm(0), dst: rax });
            out.push(Instr::Setcc { cnd });
            out.push(Instr::Mov { src: rax, dst });
            assert(out@ =~= old(out)@ + selected_prim(op, args@, dst)->Some_0);
            return true;
        }
        match op {
            Op::Mul => {
                out.push(Instr::Mov { src: args[0], dst: rax });
                out.push(Instr::Mul { src: args[1] });
                out.push(Instr::Mov { src: rax, dst });
                assert(out@ =~= old(out)@ + selected_prim(op, args@, dst)->Some_0);
                true
            },
            Op::Div => {
                out.push(Instr::Mov { src: args[0], dst: rax });
                out.push(Instr::Mov { src: VarArg::Imm(0), dst: rdx });
                out.push(Instr::Div { divisor: args[1] });
                out.push(Instr::Mov { src: rax, dst });
                assert(out@ =~= old(out)@ + selected_prim(op, args@, dst)->Some_0);
                true
            },
            Op::Mod => {
                out.push(Instr::Mov { src: args[0], dst: rax });
                out.push(Instr::Mov { src: VarArg::Imm(0), dst: rdx });
                out.push(Instr::Div { divisor: args[1] });
                out.push(Instr::Mov { src: rdx, dst });
                assert(out@ =~= old(out)@ + selected_prim(op, args@, dst)->Some_0);
                true
            },
            _ => false,
        }
    } else if n == 1 {
        match op {
            Op::Minus => {
                out.push(Instr::Mov { src: args[0], dst });
                out.push(Instr::Neg { dst });
                assert(out@ =~= old(out)@ + selected_prim(op, args@, dst)->Some_0);
                true
            },
            Op::Not => {
                out.push(Instr::Mov { src: args[0], dst });
                out.push(Instr::Xor { src: VarArg::Imm(1), dst });
                assert(out@ =~= old(out)@ + selected_prim(op, args@, dst)->Some_0);
                true
            },
            Op::Print => {
                push_byte_call(out, args[0], 1, dst);
                true
            },
            _ => false,
        }
    } else if n == 0 {
        match op {
            Op::Read => {
                push_byte_call(out, VarArg::Imm(0), 0, dst);
                true
            },
            _ => false,
        }
    } else {
        false
    }
}

/// Appends the code that evaluates `e` into `dst` to `out`: see
/// [`selected_expr`].
pub fn select_expr<'p>(dst: VarArg<'p>, e: &CExpr<'p>, out: &mut Vec<Instr<'p, VarArg<'p>>>) -> (r:
    Result<(), CompileError>)
    ensures
        match selected_expr(dst, *e) {
            Ok(code) => r is Ok && final(out)@ == old(out)@ + code,
            Err(e) => r == Err::<(), CompileError>(e),
        },
{
    match e {
        CExpr::Atom { atm } => match atom_to_arg(atm) {
            Some(a) => {
                out.push(Instr::Mov { src: a, dst });
                assert(out@ =~= old(out)@ + seq![Instr::Mov { src: a, dst }]);
                Ok(())
            },
            None => Err(CompileError::Unreachable),
        },
        CExpr::FunRef { sym } => {
            out.push(Instr::LoadLbl { lbl: *sym, dst });
            assert(out@ =~= old(out)@ + seq![Instr::LoadLbl { lbl: *sym, dst }]);
            Ok(())
        },
        CExpr::Prim { op, args } => match atoms_to_args(args) {
            Some(operands) => {
                if select_prim(*op, &operands, dst, out) {
                    Ok(())
                } else {
                    Err(CompileError::Unreachable)
                }
            },
            None => Err(CompileError::Unreachable),
        },
        CExpr::Apply { fun, args } => {
            if args.len() > 9 {
                return Err(CompileError::UnsupportedArity);
            }
            let f = match atom_to_arg(fun) {
                Some(f) => f,
                None => {
                    return Err(CompileError::Unreachable);
                },
            };
            let operands = match atoms_to_args(args) {
                Some(operands) => operands,
                None => {
                    return Err(CompileError::Unreachable);
                },
            };
            proof {
                lemma_atom_args_len(args@, args@.len() as int);
            }
            let regs = CALLER_SAVED;
            assert(regs@ =~= caller_saved());
            let mut i: usize = 0;
            while i < operands.len()
                invariant
                    i <= operands@.len(),
                    operands@.len() <= 9,
                    regs@ == caller_saved(),
                    out@ == old(out)@ + passed(operands@).take(i as int),
                decreases operands@.len() - i,
            {
                out.push(Instr::Mov { src: operands[i], dst: VarArg::Reg(regs[i]) });
                assert(out@ =~= old(out)@ + passed(operands@).take(i + 1));
                i += 1;
            }
            assert(passed(operands@).take(i as int) =~= passed(operands@));
            out.push(Instr::CallIndirect { src: f, arity: args.len() });
            out.push(Instr::Mov { src: VarArg::Reg(Reg::RAX), dst });
            assert(out@ =~= old(out)@ + selected_expr(dst, *e)->Ok_0);
            Ok(())
        },
    }
}

proof fn lemma_atom_args_len<'p>(atoms: Seq<Atom<'p>>, n: int)
    requires
        0 <= n,
        atom_args(atoms, n) is Some,
    ensures
        atom_args(atoms, n)->Some_0.len() == n,
    decreases n,
{
    if n > 0 {
        lemma_atom_args_len(atoms, n - 1);
    }
}

/// Appends the code of `tail` to `out`: see [`selected_tail`].
pub fn select_tail<'p>(
    tail: &Tail<'p>,
    exit: UniqueSym<'p>,
    out: &mut Vec<Instr<'p, VarArg<'p>>>,
) -> (r: Result<(), CompileError>)
    ensures
        match selected_tail(*tail, exit) {
            Ok(code) => r is Ok && final(out)@ == old(out)@ + code,
            Err(e) => r == Err::<(), CompileError>(e),
        },
    decreases tail,
{
    match tail {
        Tail::Return { expr } => {
            match select_expr(VarArg::Reg(Reg::RAX), expr, out) {
                Ok(()) => {},
                Err(e) => {
                    return Err(e);
                },
            }
            out.push(Instr::Jmp { lbl: exit });
            assert(out@ =~= old(out)@ + selected_tail(*tail, exit)->Ok_0);
            Ok(())
        },
        Tail::Bind { sym, bnd, tail: rest } => {
            match select_expr(VarArg::XVar(*sym), bnd, out) {
                Ok(()) => {},
                Err(e) => {
                    return Err(e);
                },
            }
            match select_tail(rest, exit, out) {
                Ok(()) => {},
                Err(e) => {
                    return Err(e);
                },
            }
            assert(out@ =~= old(out)@ + selected_tail(*tail, exit)->Ok_0);
            Ok(())
        },
        Tail::IfStmt { cnd, thn, els } => match atom_to_arg(cnd) {
            Some(c) => {
                out.push(Instr::Cmp { src: VarArg::Imm(0), dst: c });
                out.push(Instr::Jcc { lbl: *thn, cnd: Cnd::NE });
                out.push(Instr::Jmp { lbl: *els });
                assert(out@ =~= old(out)@ + selected_tail(*tail, exit)->Ok_0);
                Ok(())
            },
            None => Err(CompileError::Unreachable),
        },
        Tail::Goto { lbl } => {
            out.push(Instr::Jmp { lbl: *lbl });
            assert(out@ =~= old(out)@ + seq![Instr::Jmp { lbl: *lbl }]);
            Ok(())
        },
    }
}


/// Labelled code over variables.
pub type Blocks<'p> = Seq<(UniqueSym<'p>, Code<'p>)>;

/// The labels and the code of `blocks`.
pub open spec fn code_of<'p>(blocks: Seq<(UniqueSym<'p>, Block<'p, VarArg<'p>>)>) -> Blocks<'p> {
    mapped(blocks, |b: Block<'p, VarArg<'p>>| b.instrs@)
}

/// The code with which a function starts: it sets up the frame, with a
/// placeholder for its size, takes its parameters from the registers
/// that carry arguments, and goes on at `start`.
pub open spec fn prologue<'p>(params: Seq<UniqueSym<'p>>, start: UniqueSym<'p>) -> Code<'p> {
    seq![
        Instr::Push { src: VarArg::Reg(Reg::RBP) },
        Instr::Mov { src: VarArg::Reg(Reg::RSP), dst: VarArg::Reg(Reg::RBP) },
        Instr::Sub { src: VarArg::Imm(STACK_PLACEHOLDER), dst: VarArg::Reg(Reg::RSP) },
    ] + Seq::new(
        params.len(),
        |i: int| Instr::Mov { src: VarArg::Reg(caller_saved()[i]), dst: VarArg::XVar(params[i]) },
    ) + seq![Instr::Jmp { lbl: start }]
}

/// The code with which a function ends: it gives back the frame and
/// returns.
pub open spec fn epilogue<'p>() -> Code<'p> {
    seq![
        Instr::Add { src: VarArg::Imm(STACK_PLACEHOLDER), dst: VarArg::Reg(Reg::RSP) },
        Instr::Pop { dst: VarArg::Reg(Reg::RBP) },
        Instr::Ret,
    ]
}

/// `acc` with the code of the first `n` of the blocks `tails` stored in it.
pub open spec fn selected_blocks<'p>(
    acc: Blocks<'p>,
    tails: Seq<(UniqueSym<'p>, Tail<'p>)>,
    exit: UniqueSym<'p>,
    n: int,
) -> Result<Blocks<'p>, CompileError>
    decreases n,
{
    if n <= 0 {
        Ok(acc)
    } else {
        match selected_blocks(acc, tails, exit, n - 1) {
            Ok(before) => match selected_tail(tails[n - 1].1, exit) {
                Ok(code) => Ok(stored(before, tails[n - 1].0, code)),
                Err(e) => Err(e),
            },
            Err(e) => Err(e),
        }
    }
}

/// What instruction selection makes of the function `fun` when the
/// counter is at `next`: a block that starts the function, the code of its
/// blocks, and a block that ends it.
pub open spec fn selected_fun<'p>(fun: FunExplicated<'p>, next: usize) -> Result<
    (Blocks<'p>, UniqueSym<'p>, UniqueSym<'p>),
    CompileError,
> {
    let entry = UniqueSym { sym: "entry", id: next };
    let exit = UniqueSym { sym: "exit", id: next_id(next) };
    if fun.params@.len() > 9 {
        Err(CompileError::UnsupportedArity)
    } else {
        match selected_blocks(
            seq![(entry, prologue(fun.params@, fun.entry))],
            fun.blocks@,
            exit,
            fun.blocks@.len() as int,
        ) {
            Ok(blocks) => Ok((stored(blocks, exit, epilogue()), entry, exit)),
            Err(e) => Err(e),
        }
    }
}

/// The counter after `n` functions have been through instruction selection.
pub open spec fn after_functions(n: int, next: usize) -> usize
    decreases n,
{
    if n <= 0 {
        next
    } else {
        next_id(next_id(after_functions(n - 1, next)))
    }
}

/// Stores the block `code` under the label `lbl`.
fn put<'p>(
    blocks: &mut SymMap<'p, Block<'p, VarArg<'p>>>,
    lbl: UniqueSym<'p>,
    code: Vec<Instr<'p, VarArg<'p>>>,
)
    ensures
        code_of(final(blocks)@) == stored(code_of(old(blocks)@), lbl, code@),
{
    let block = Block { instrs: code };
    proof {
        use_type_invariant(&*blocks);
        lemma_mapped_stored(blocks@, |b: Block<'p, VarArg<'p>>| b.instrs@, lbl, block);
    }
    blocks.insert(lbl, block);
}

/// Selects instructions for one function.
pub fn select_fun<'p>(fun: &FunExplicated<'p>, counter: &mut SymCounter) -> (r: Result<
    FunSelected<'p>,
    CompileError,
>)
    ensures
        final(counter).next == next_id(next_id(old(counter).next)),
        match selected_fun(*fun, old(counter).next) {
            Ok((blocks, entry, exit)) => r is Ok && code_of(r->Ok_0.blocks@) == blocks
                && r->Ok_0.entry == entry && r->Ok_0.exit == exit,
            Err(e) => r == Err::<FunSelected<'p>, CompileError>(e),
        },
{
    let entry = gen_sym("entry", counter);
    let exit = gen_sym("exit", counter);
    if fun.params.len() > 9 {
        return Err(CompileError::UnsupportedArity);
    }
    let regs = CALLER_SAVED;
    assert(regs@ =~= caller_saved());
    let mut code: Vec<Instr<'p, VarArg<'p>>> = Vec::new();
    code.push(Instr::Push { src: VarArg::Reg(Reg::RBP) });
    code.push(Instr::Mov { src: VarArg::Reg(Reg::RSP), dst: VarArg::Reg(Reg::RBP) });
    code.push(Instr::Sub { src: VarArg::Imm(STACK_PLACEHOLDER), dst: VarArg::Reg(Reg::RSP) });
    let ghost head = code@;
    let ghost moves = Seq::new(
        fun.params@.len(),
        |i: int|
            Instr::Mov { src: VarArg::Reg(caller_saved()[i]), dst: VarArg::XVar(fun.params@[i]) },
    );
    let mut i: usize = 0;
    while i < fun.params.len()
        invariant
            i <= fun.params@.len(),
            fun.params@.len() <= 9,
            regs@ == caller_saved(),
            moves == Seq::new(
                fun.params@.len(),
                |i: int|
                    Instr::Mov {
                        src: VarArg::Reg(caller_saved()[i]),
                        dst: VarArg::XVar(fun.params@[i]),
                    },
            ),
            code@ == head + moves.take(i as int),
        decreases fun.params@.len() - i,
    {
        code.push(Instr::Mov { src: VarArg::Reg(regs[i]), dst: VarArg::XVar(fun.params[i]) });
        assert(code@ =~= head + moves.take(i + 1));
        i += 1;
    }
    assert(moves.take(i as int) =~= moves);
    code.push(Instr::Jmp { lbl: fun.entry });
    assert(code@ =~= prologue(fun.params@, fun.entry));
    let mut blocks: SymMap<'p, Block<'p, VarArg<'p>>> = SymMap::new();
    put(&mut blocks, entry, code);
    assert(code_of(blocks@) =~= seq![(entry, prologue(fun.params@, fun.entry))]);
    let ghost base = code_of(blocks@);
    let n = fun.blocks.len();
    let mut k: usize = 0;
    while k < n
        invariant
            k <= n,
            n == fun.blocks@.len(),
            fun.params@.len() <= 9,
            counter.next == next_id(next_id(old(counter).next)),
            entry == (UniqueSym { sym: "entry", id: old(counter).next }),
            exit == (UniqueSym { sym: "exit", id: next_id(old(counter).next) }),
            base == seq![(entry, prologue(fun.params@, fun.entry))],
            selected_blocks(base, fun.blocks@, exit, k as int) == Ok::<Blocks<'p>, CompileError>(
                code_of(blocks@),
            ),
        decreases n - k,
    {
        let lbl = fun.blocks.key_at(k);
        let mut code: Vec<Instr<'p, VarArg<'p>>> = Vec::new();
        match select_tail(fun.blocks.value_at(k), exit, &mut code) {
            Ok(()) => {},
            Err(e) => {
                proof {
                    lemma_selection_fails(base, fun.blocks@, exit, k + 1, n as int);
                }
                return Err(e);
            },
        }
        assert(code@ =~= selected_tail(fun.blocks@[k as int].1, exit)->Ok_0);
        put(&mut blocks, lbl, code);
        k += 1;
    }
    let mut code: Vec<Instr<'p, VarArg<'p>>> = Vec::new();
    code.push(Instr::Add { src: VarArg::Imm(STACK_PLACEHOLDER), dst: VarArg::Reg(Reg::RSP) });
    code.push(Instr::Pop { dst: VarArg::Reg(Reg::RBP) });
    code.push(Instr::Ret);
    assert(code@ =~= epilogue());
    put(&mut blocks, exit, code);
    Ok(FunSelected { blocks, entry, exit })
}

/// Once the code of a block cannot be selected, the error stays.
proof fn lemma_selection_fails<'p>(
    acc: Blocks<'p>,
    tails: Seq<(UniqueSym<'p>, Tail<'p>)>,
    exit: UniqueSym<'p>,
    n: int,
    m: int,
)
    requires
        n <= m,
        selected_blocks(acc, tails, exit, n) is Err,
    ensures
        selected_blocks(acc, tails, exit, m) == selected_blocks(acc, tails, exit, n),
    decreases m - n,
{
    if n < m {
        lemma_selection_fails(acc, tails, exit, n, m - 1);
    }
}

/// Whether instruction selection gets through the first `n` functions.
pub open spec fn selectable<'p>(
    fns: Seq<(UniqueSym<'p>, FunExplicated<'p>)>,
    n: int,
    next: usize,
) -> bool {
    forall|j: int| 0 <= j < n
        ==> selected_fun((#[trigger] fns[j]).1, after_functions(j, next)) is Ok
}

impl<'p> PrgExplicated<'p> {
    /// Selects instructions for every function. The first function that
    /// cannot be dealt with decides the error.
    pub fn select(self, counter: &mut SymCounter) -> (r: Result<X86Selected<'p>, CompileError>)
        ensures
            match r {
                Ok(out) => {
                    &&& out.entry == self.entry
                    &&& out.fns@.len() == self.fns@.len()
                    &&& final(counter).next == after_functions(
                        self.fns@.len() as int,
                        old(counter).next,
                    )
                    &&& forall|j: int|
                        0 <= j < out.fns@.len() ==> (#[trigger] out.fns@[j]).0 == self.fns@[j].0
                            && selected_fun(self.fns@[j].1, after_functions(j, old(counter).next))
                            == Ok::<(Blocks<'p>, UniqueSym<'p>, UniqueSym<'p>), CompileError>(
                            (
                                code_of(out.fns@[j].1.blocks@),
                                out.fns@[j].1.entry,
                                out.fns@[j].1.exit,
                            ),
                        )
                },
                Err(e) => exists|j: int|
                    0 <= j < self.fns@.len() && selectable(self.fns@, j, old(counter).next)
                        && #[trigger] selected_fun(
                        self.fns@[j].1,
                        after_functions(j, old(counter).next),
                    ) == Err::<(Blocks<'p>, UniqueSym<'p>, UniqueSym<'p>), CompileError>(e),
            },
    {
        let n = self.fns.len();
        let mut fns: SymMap<'p, FunSelected<'p>> = SymMap::new();
        let mut j: usize = 0;
        while j < n
            invariant
                j <= n,
                n == self.fns@.len(),
                self.fns.wf(),
                fns@.len() == j,
                counter.next == after_functions(j as int, old(counter).next),
                forall|k: int|
                    0 <= k < j ==> (#[trigger] fns@[k]).0 == self.fns@[k].0 && selected_fun(
                        self.fns@[k].1,
                        after_functions(k, old(counter).next),
                    ) == Ok::<(Blocks<'p>, UniqueSym<'p>, UniqueSym<'p>), CompileError>(
                        (code_of(fns@[k].1.blocks@), fns@[k].1.entry, fns@[k].1.exit),
                    ),
            decreases n - j,
        {
            let sym = self.fns.key_at(j);
            let fun = match select_fun(self.fns.value_at(j), counter) {
                Ok(fun) => fun,
                Err(e) => {
                    proof {
                        assert forall|k: int| 0 <= k < j implies selected_fun(
                            (#[trigger] self.fns@[k]).1,
                            after_functions(k, old(counter).next),
                        ) is Ok by {
                            assert(fns@[k].0 == self.fns@[k].0);
                        }
                    }
                    return Err(e);
                },
            };
            proof {
                if has_id(fns@, sym.id) {
                    let k = choose|k: int| 0 <= k < fns@.len() && #[trigger] fns@[k].0.id == sym.id;
                    assert(self.fns@[k].0.id != self.fns@[j as int].0.id);
                }
            }
            fns.insert(sym, fun);
            j += 1;
        }
        Ok(X86Selected { fns, entry: self.entry })
    }
}

} // verus!
