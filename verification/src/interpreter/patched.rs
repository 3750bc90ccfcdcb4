//! What patching does to the meaning of instructions.

use vstd::prelude::*;
use crate::interpreter::machine::{Machine, Program, Step};
use crate::patch::{binary, patched_binary, BinaryKind};
use crate::x86::{Arg, Instr, Reg, VarArg};

verus! {

/// What the first `n` instructions of `code` do to the machine `m`, one
/// after the other.
pub open spec fn straight<'p>(
    program: Program<'p>,
    m: Machine,
    code: Seq<Instr<'p, VarArg<'p>>>,
    n: int,
) -> Step
    decreases n,
{
    if n <= 0 {
        Step::Next(m)
    } else {
        match straight(program, m, code, n - 1) {
            Step::Next(m1) => program.execute(m1, code[n - 1]),
            other => other,
        }
    }
}

/// Whether `b` differs from `a` at most in what `RAX` holds, and is
/// `ahead` instructions further on.
pub open spec fn same_but_rax(a: Machine, b: Machine, ahead: int) -> bool {
    b == (Machine { regs: a.regs.update(0, b.regs[0]), index: (a.index + ahead) as nat, ..a })
        && a.index + ahead >= 0
}

/// The code `code` with its operands seen as ones that could also be
/// variables.
pub open spec fn lifted<'p>(code: Seq<Instr<'p, Arg>>) -> Seq<Instr<'p, VarArg<'p>>> {
    Seq::new(code.len(), |i: int| code[i].lift())
}

/// The step from `m` that first moves `src` to `RAX` and then does
/// `second`.
spec fn through_rax<'p>(
    program: Program<'p>,
    m: Machine,
    src: VarArg<'p>,
    second: Instr<'p, VarArg<'p>>,
) -> Step {
    match m.read(src) {
        None => Step::Fault(crate::interpreter::InterpError::Uninitialized),
        Some(v) => program.execute(m.with_reg(Reg::RAX, v).advanced(), second),
    }
}

/// Whether the steps `a` and `b` end alike: with the same status, with
/// the same fault, or in machines that are the [`same_but_rax`].
pub open spec fn alike_after(a: Step, b: Step, ahead: int) -> bool {
    match (a, b) {
        (Step::Next(a), Step::Next(b)) => same_but_rax(a, b, ahead),
        (Step::Exit(s1), Step::Exit(s2)) => s1 == s2,
        (Step::Fault(e1), Step::Fault(e2)) => e1 == e2,
        _ => false,
    }
}

/// [`alike_after`] for code that is one instruction longer.
pub open spec fn alike(a: Step, b: Step) -> bool {
    alike_after(a, b, 1)
}

proof fn lemma_combined_through_rax<'p>(
    program: Program<'p>,
    m: Machine,
    src: VarArg<'p>,
    dst: VarArg<'p>,
    result: spec_fn(i64, i64) -> i64,
)
    requires
        m.regs.len() == 16,
        src is Deref,
        dst is Deref,
        dst->Deref_reg != Reg::RAX,
    ensures
        alike(
            program.combined(m, src, dst, result),
            match m.read(src) {
                None => Step::Fault(crate::interpreter::InterpError::Uninitialized),
                Some(v) => program.combined(
                    m.with_reg(Reg::RAX, v).advanced(),
                    VarArg::Reg(Reg::RAX),
                    dst,
                    result,
                ),
            },
        ),
{
    match m.read(src) {
        None => {},
        Some(v) => {
            let m1 = m.with_reg(Reg::RAX, v).advanced();
            assert(m1.read(dst) == m.read(dst));
            assert(m1.read(VarArg::Reg(Reg::RAX)) == Some(v));
            match m.read(dst) {
                None => {},
                Some(d) => {
                    let a = m.write(dst, result(v, d))->Some_0.advanced();
                    let b = m1.write(dst, result(v, d))->Some_0.advanced();
                    assert(b.regs =~= a.regs.update(0, b.regs[0]));
                    assert(b.memory =~= a.memory);
                    assert(same_but_rax(a, b, 1));
                },
            }
        },
    }
}

proof fn lemma_move_through_rax<'p>(program: Program<'p>, m: Machine, src: VarArg<'p>, dst: VarArg<'p>)
    requires
        m.regs.len() == 16,
        src is Deref,
        dst is Deref,
        dst->Deref_reg != Reg::RAX,
    ensures
        alike(
            program.execute(m, Instr::Mov { src, dst }),
            through_rax(program, m, src, Instr::Mov { src: VarArg::Reg(Reg::RAX), dst }),
        ),
{
    match m.read(src) {
        None => {},
        Some(v) => {
            let m1 = m.with_reg(Reg::RAX, v).advanced();
            assert(m1.read(VarArg::Reg(Reg::RAX)) == Some(v));
            let a = m.write(dst, v)->Some_0.advanced();
            let b = m1.write(dst, v)->Some_0.advanced();
            assert(b.regs =~= a.regs.update(0, b.regs[0]));
            assert(b.memory =~= a.memory);
            assert(same_but_rax(a, b, 1));
        },
    }
}

proof fn lemma_compare_through_rax<'p>(
    program: Program<'p>,
    m: Machine,
    src: VarArg<'p>,
    dst: VarArg<'p>,
)
    requires
        m.regs.len() == 16,
        src is Deref,
        dst is Deref,
        dst->Deref_reg != Reg::RAX,
    ensures
        alike(
            program.execute(m, Instr::Cmp { src, dst }),
            through_rax(program, m, src, Instr::Cmp { src: VarArg::Reg(Reg::RAX), dst }),
        ),
{
    match m.read(src) {
        None => {},
        Some(v) => {
            let m1 = m.with_reg(Reg::RAX, v).advanced();
            assert(m1.read(dst) == m.read(dst));
            assert(m1.read(VarArg::Reg(Reg::RAX)) == Some(v));
            match m.read(dst) {
                None => {},
                Some(d) => {
                    let a = program.execute(m, Instr::Cmp { src, dst })->Next_0;
                    let b = program.execute(
                        m1,
                        Instr::Cmp { src: VarArg::Reg(Reg::RAX), dst },
                    )->Next_0;
                    assert(b.regs =~= a.regs.update(0, b.regs[0]));
                    assert(same_but_rax(a, b, 1));
                },
            }
        },
    }
}

/// A two-operand instruction from memory to memory, and the two
/// instructions that patching puts in its place, do the same to a machine
/// with sixteen registers, but for what is left in `RAX` and for the
/// second being one instruction further on; and where one stops with a
/// fault, so does the other. The address of the destination must not
/// depend on `RAX`.
pub proof fn lemma_patched_memory_to_memory<'p>(
    program: Program<'p>,
    m: Machine,
    kind: BinaryKind,
    src: Arg,
    dst: Arg,
)
    requires
        m.regs.len() == 16,
        src is Deref,
        dst is Deref,
        dst->Deref_reg != Reg::RAX,
    ensures
        patched_binary::<'p>(kind, src, dst) is Some,
        alike(
            program.execute(m, binary::<'p>(kind, src, dst).lift()),
            straight(program, m, lifted(patched_binary::<'p>(kind, src, dst)->Some_0), 2),
        ),
{
    let code = lifted(patched_binary::<'p>(kind, src, dst)->Some_0);
    let s = src.lift::<'p>();
    let d = dst.lift::<'p>();
    let rax = VarArg::Reg(Reg::RAX);
    let second = binary::<'p>(kind, Arg::Reg(Reg::RAX), dst).lift();
    assert(code[0] == (Instr::Mov { src: s, dst: rax }));
    assert(code[1] == second);
    assert(straight(program, m, code, 0) == Step::Next(m));
    assert(straight(program, m, code, 1) == program.execute(m, code[0]));
    assert(straight(program, m, code, 2) == through_rax(program, m, s, second)) by {
        assert(program.execute(m, Instr::Mov { src: s, dst: rax }) == match m.read(s) {
            None => Step::Fault(crate::interpreter::InterpError::Uninitialized),
            Some(v) => Step::Next(m.with_reg(Reg::RAX, v).advanced()),
        });
    }
    match kind {
        BinaryKind::Add => {
            lemma_combined_through_rax(program, m, s, d, |s: i64, d: i64| crate::interpreter::machine::wrap64(s + d));
        },
        BinaryKind::Sub => {
            lemma_combined_through_rax(program, m, s, d, |s: i64, d: i64| crate::interpreter::machine::wrap64(d - s));
        },
        BinaryKind::And => {
            lemma_combined_through_rax(program, m, s, d, |s: i64, d: i64| s & d);
        },
        BinaryKind::Or => {
            lemma_combined_through_rax(program, m, s, d, |s: i64, d: i64| s | d);
        },
        BinaryKind::Xor => {
            lemma_combined_through_rax(program, m, s, d, |s: i64, d: i64| s ^ d);
        },
        BinaryKind::Cmp => {
            lemma_compare_through_rax(program, m, s, d);
        },
        BinaryKind::Mov => {
            lemma_move_through_rax(program, m, s, d);
        },
    }
}


/// A step leaves the machine with as many registers as it had.
proof fn lemma_keeps_registers<'p>(program: Program<'p>, m: Machine, instr: Instr<'p, VarArg<'p>>)
    requires
        m.regs.len() == 16,
    ensures
        match program.execute(m, instr) {
            Step::Next(a) => a.regs.len() == 16,
            _ => true,
        },
{
    match instr {
        Instr::Add { src, dst }
        | Instr::Sub { src, dst }
        | Instr::And { src, dst }
        | Instr::Or { src, dst }
        | Instr::Xor { src, dst }
        | Instr::Mov { src, dst }
        | Instr::Cmp { src, dst } => {
            let _ = (m.read(src), m.read(dst));
        },
        Instr::CallDirect { .. } | Instr::CallIndirect { .. } => {
            match crate::interpreter::machine::address(m.block, m.index + 1) {
                Some(ret) => {
                    let _ = m.pushed(ret);
                },
                None => {},
            }
        },
        Instr::Syscall { .. } => {
            let _ = crate::interpreter::machine::system_call(m);
        },
        _ => {},
    }
}

/// The address of a label reaches memory through `RAX` as it would
/// directly.
proof fn lemma_load_through_rax<'p>(
    program: Program<'p>,
    m: Machine,
    lbl: crate::symbol::UniqueSym<'p>,
    dst: VarArg<'p>,
)
    requires
        m.regs.len() == 16,
        dst is Deref,
        dst->Deref_reg != Reg::RAX,
    ensures
        alike(
            program.execute(m, Instr::LoadLbl { lbl, dst }),
            match program.execute(m, Instr::LoadLbl { lbl, dst: VarArg::Reg(Reg::RAX) }) {
                Step::Next(m1) => program.execute(
                    m1,
                    Instr::Mov { src: VarArg::Reg(Reg::RAX), dst },
                ),
                other => other,
            },
        ),
{
    match program.fn_address(lbl) {
        Err(_) => {},
        Ok(addr) => {
            let m1 = m.with_reg(Reg::RAX, addr).advanced();
            assert(m1.read(VarArg::Reg(Reg::RAX)) == Some(addr));
            let a = m.write(dst, addr)->Some_0.advanced();
            let b = m1.write(dst, addr)->Some_0.advanced();
            assert(b.regs =~= a.regs.update(0, b.regs[0]));
            assert(b.memory =~= a.memory);
            assert(same_but_rax(a, b, 1));
        },
    }
}

/// A product with an immediate is the same computed through `RDX`.
proof fn lemma_product_through_rdx<'p>(program: Program<'p>, m: Machine, val: i32)
    requires
        m.regs.len() == 16,
    ensures
        alike(
            program.execute(m, Instr::Mul { src: VarArg::Imm(val) }),
            match program.execute(
                m,
                Instr::Mov { src: VarArg::Imm(val), dst: VarArg::Reg(Reg::RDX) },
            ) {
                Step::Next(m1) => program.execute(m1, Instr::Mul { src: VarArg::Reg(Reg::RDX) }),
                other => other,
            },
        ),
{
    let m1 = m.with_reg(Reg::RDX, val as i64).advanced();
    assert(m1.read(VarArg::Reg(Reg::RDX)) == Some(val as i64));
    assert(m1.reg(Reg::RAX) == m.reg(Reg::RAX));
    let a = program.execute(m, Instr::Mul { src: VarArg::Imm(val) })->Next_0;
    let b = program.execute(m1, Instr::Mul { src: VarArg::Reg(Reg::RDX) })->Next_0;
    assert(b.regs =~= a.regs);
    assert(b.regs =~= a.regs.update(0, b.regs[0]));
    assert(same_but_rax(a, b, 1));
}

/// Whether patching keeps what `instr` means: it does not for a
/// comparison with an immediate in destination position, which means
/// nothing before it is patched, nor for a division by an immediate,
/// which leaves the immediate behind in memory; and where it goes
/// through `RAX`, the address of the destination must not depend on `RAX`.
pub open spec fn keeps_meaning<'p>(instr: Instr<'p, Arg>) -> bool {
    match instr {
        Instr::Cmp { dst, .. } => !(dst is Imm) && (crate::patch::two_memory_operands(instr)
            ==> dst->Deref_reg != Reg::RAX),
        Instr::Div { divisor } => !(divisor is Imm),
        Instr::LoadLbl { dst, .. } => dst is Deref ==> dst->Deref_reg != Reg::RAX,
        _ => crate::patch::two_memory_operands(instr) ==> crate::patch::destination(
            instr,
        )->Some_0->Deref_reg != Reg::RAX,
    }
}

/// An instruction that patching leaves alone still means what it meant.
proof fn lemma_left_alone<'p>(program: Program<'p>, m: Machine, instr: Instr<'p, VarArg<'p>>)
    requires
        m.regs.len() == 16,
    ensures
        alike_after(program.execute(m, instr), straight(program, m, seq![instr], 1), 0),
{
    let code = seq![instr];
    assert(straight(program, m, code, 0) == Step::Next(m));
    assert(straight(program, m, code, 1) == program.execute(m, code[0]));
    lemma_keeps_registers(program, m, instr);
    match program.execute(m, instr) {
        Step::Next(a) => {
            assert(a.regs =~= a.regs.update(0, a.regs[0]));
        },
        _ => {},
    }
}

/// A move from a register to itself does nothing but go on.
proof fn lemma_dropped<'p>(program: Program<'p>, m: Machine, reg: Reg)
    requires
        m.regs.len() == 16,
    ensures
        alike_after(
            program.execute(m, Instr::Mov { src: VarArg::Reg(reg), dst: VarArg::Reg(reg) }),
            straight(program, m, Seq::empty(), 0),
            -1,
        ),
{
    let a = m.with_reg(reg, m.reg(reg)).advanced();
    assert(a.regs =~= m.regs);
    assert(m.regs =~= a.regs.update(0, m.regs[0]));
}

/// What [`lemma_patched_means_the_same`] says, for two-operand
/// instructions.
proof fn lemma_patched_binary<'p>(
    program: Program<'p>,
    m: Machine,
    kind: BinaryKind,
    src: Arg,
    dst: Arg,
)
    requires
        m.regs.len() == 16,
        patched_binary::<'p>(kind, src, dst) is Some,
        !(dst is Imm),
        src is Deref && dst is Deref ==> dst->Deref_reg != Reg::RAX,
    ensures
        alike_after(
            program.execute(m, binary::<'p>(kind, src, dst).lift()),
            straight(
                program,
                m,
                lifted(patched_binary::<'p>(kind, src, dst)->Some_0),
                patched_binary::<'p>(kind, src, dst)->Some_0.len() as int,
            ),
            patched_binary::<'p>(kind, src, dst)->Some_0.len() - 1,
        ),
{
    if src is Deref && dst is Deref {
        lemma_patched_memory_to_memory(program, m, kind, src, dst);
    } else if kind == BinaryKind::Mov && src is Reg && src == dst {
        lemma_dropped(program, m, src->Reg_0);
        assert(lifted(patched_binary::<'p>(kind, src, dst)->Some_0) =~= Seq::empty());
    } else {
        let instr = binary::<'p>(kind, src, dst);
        lemma_left_alone(program, m, instr.lift());
        assert(lifted(patched_binary::<'p>(kind, src, dst)->Some_0) =~= seq![instr.lift()]);
    }
}

proof fn lemma_lifted_one<'p>(instr: Instr<'p, Arg>)
    ensures
        lifted(seq![instr]) == seq![instr.lift()],
{
    assert(lifted(seq![instr]) =~= seq![instr.lift()]);
}

proof fn lemma_lifted_two<'p>(first: Instr<'p, Arg>, second: Instr<'p, Arg>)
    ensures
        lifted(seq![first, second]) == seq![first.lift(), second.lift()],
{
    assert(lifted(seq![first, second]) =~= seq![first.lift(), second.lift()]);
}

/// What two instructions do, one after the other.
proof fn lemma_straight_two<'p>(
    program: Program<'p>,
    m: Machine,
    first: Instr<'p, VarArg<'p>>,
    second: Instr<'p, VarArg<'p>>,
)
    ensures
        straight(program, m, seq![first, second], 2) == match program.execute(m, first) {
            Step::Next(m1) => program.execute(m1, second),
            other => other,
        },
{
    let code = seq![first, second];
    assert(straight(program, m, code, 0) == Step::Next(m));
    assert(straight(program, m, code, 1) == program.execute(m, code[0]));
}

/// What [`lemma_patched_means_the_same`] says, for the address of a label
/// that goes to memory.
proof fn lemma_patched_load<'p>(
    program: Program<'p>,
    m: Machine,
    lbl: crate::symbol::UniqueSym<'p>,
    dst: Arg,
)
    requires
        m.regs.len() == 16,
        dst is Deref,
        dst->Deref_reg != Reg::RAX,
    ensures
        alike_after(
            program.execute(m, (Instr::LoadLbl { lbl, dst }).lift()),
            straight(
                program,
                m,
                lifted(
                    seq![
                        Instr::LoadLbl { lbl, dst: Arg::Reg(Reg::RAX) },
                        Instr::Mov { src: Arg::Reg(Reg::RAX), dst },
                    ],
                ),
                2,
            ),
            1,
        ),
{
    let first: Instr<'p, Arg> = Instr::LoadLbl { lbl, dst: Arg::Reg(Reg::RAX) };
    let second: Instr<'p, Arg> = Instr::Mov { src: Arg::Reg(Reg::RAX), dst };
    lemma_lifted_two(first, second);
    lemma_straight_two(program, m, first.lift(), second.lift());
    lemma_load_through_rax(program, m, lbl, dst.lift());
}

/// What [`lemma_patched_means_the_same`] says, for a product with an
/// immediate.
proof fn lemma_patched_product<'p>(program: Program<'p>, m: Machine, val: i32)
    requires
        m.regs.len() == 16,
    ensures
        alike_after(
            program.execute(m, (Instr::Mul { src: Arg::Imm(val) }).lift()),
            straight(
                program,
                m,
                lifted(
                    seq![
                        Instr::Mov { src: Arg::Imm(val), dst: Arg::Reg(Reg::RDX) },
                        Instr::Mul { src: Arg::Reg(Reg::RDX) },
                    ],
                ),
                2,
            ),
            1,
        ),
{
    let first: Instr<'p, Arg> = Instr::Mov { src: Arg::Imm(val), dst: Arg::Reg(Reg::RDX) };
    let second: Instr<'p, Arg> = Instr::Mul { src: Arg::Reg(Reg::RDX) };
    lemma_lifted_two(first, second);
    lemma_straight_two(program, m, first.lift(), second.lift());
    lemma_product_through_rdx(program, m, val);
}

/// What [`lemma_patched_means_the_same`] says, for instructions with
/// fewer than two operands.
proof fn lemma_patched_other<'p>(program: Program<'p>, m: Machine, instr: Instr<'p, Arg>)
    requires
        m.regs.len() == 16,
        crate::patch::as_binary(instr) is None,
        crate::patch::patched(instr) is Some,
        keeps_meaning(instr),
    ensures
        alike_after(
            program.execute(m, instr.lift()),
            straight(
                program,
                m,
                lifted(crate::patch::patched(instr)->Some_0),
                crate::patch::patched(instr)->Some_0.len() as int,
            ),
            crate::patch::patched(instr)->Some_0.len() - 1,
        ),
{
    let code = crate::patch::patched(instr)->Some_0;
    if code == seq![instr] {
        lemma_lifted_one(instr);
        lemma_left_alone(program, m, instr.lift());
    } else {
        match instr {
            Instr::LoadLbl { lbl, dst } => {
                lemma_patched_load(program, m, lbl, dst);
            },
            Instr::Mul { src } => {
                lemma_patched_product(program, m, src->Imm_0);
            },
            _ => {},
        }
    }
}

/// An instruction and what patching puts in its place do the same to a
/// machine with sixteen registers, but for what is left in `RAX` and for
/// where the next instruction stands; and where one ends the process or
/// stops with a fault, so does the other.
pub proof fn lemma_patched_means_the_same<'p>(program: Program<'p>, m: Machine, instr: Instr<'p, Arg>)
    requires
        m.regs.len() == 16,
        crate::patch::patched(instr) is Some,
        keeps_meaning(instr),
    ensures
        alike_after(
            program.execute(m, instr.lift()),
            straight(
                program,
                m,
                lifted(crate::patch::patched(instr)->Some_0),
                crate::patch::patched(instr)->Some_0.len() as int,
            ),
            crate::patch::patched(instr)->Some_0.len() - 1,
        ),
{
    match crate::patch::as_binary(instr) {
        Some((kind, src, dst)) => {
            assert(instr == binary::<'p>(kind, src, dst));
            assert(crate::patch::patched(instr) == patched_binary::<'p>(kind, src, dst));
            lemma_patched_binary(program, m, kind, src, dst);
        },
        None => {
            lemma_patched_other(program, m, instr);
        },
    }
}

} // verus!
