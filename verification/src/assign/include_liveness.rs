//! Liveness analysis: which locations hold a value that is still needed
//! after each instruction.

use vstd::prelude::*;
use crate::assign::live_set::{key_set, Key, LArg, LiveSet};
use crate::sym_map::{has_id, value_of, SymMap};
use crate::symbol::UniqueSym;
use crate::x86::{caller_saved, syscall_regs, Instr, Reg, VarArg, CALLER_SAVED, SYSCALL_REGS};

verus! {

/// What an instruction does with an operand.
#[derive(Clone, Copy, Debug, PartialEq, Eq, Structural)]
pub enum ReadWriteOp {
    Read,
    Write,
    ReadWrite,
}

/// One operand of an instruction, with what the instruction does to it.
pub type Access<'p> = (VarArg<'p>, ReadWriteOp);

/// The registers `regs`, each accessed in the way `op`.
pub open spec fn reg_accesses<'p>(regs: Seq<Reg>, op: ReadWriteOp) -> Seq<Access<'p>> {
    Seq::new(regs.len(), |i: int| (VarArg::Reg(regs[i]), op))
}

/// `n`, or `limit` if that is less.
pub open spec fn at_most(n: usize, limit: int) -> int {
    if n <= limit {
        n as int
    } else {
        limit
    }
}

/// What a call with `arity` arguments does to the registers: it overwrites
/// the caller-saved registers that carry no argument, and reads and
/// overwrites those that do.
pub open spec fn call_accesses<'p>(arity: usize) -> Seq<Access<'p>> {
    let n = at_most(arity, 9);
    reg_accesses(caller_saved().skip(n), ReadWriteOp::Write) + reg_accesses(
        caller_saved().take(n),
        ReadWriteOp::ReadWrite,
    )
}

/// What a system call with `arity` arguments does to the registers: it
/// overwrites every caller-saved register and reads its arguments.
pub open spec fn syscall_accesses<'p>(arity: usize) -> Seq<Access<'p>> {
    reg_accesses(caller_saved(), ReadWriteOp::Write) + reg_accesses(
        syscall_regs().take(at_most(arity, 6)),
        ReadWriteOp::Read,
    )
}

/// What is live where a jump to `lbl` lands, in the order in which the set
/// holds it; nothing if the block has not been looked at yet.
pub open spec fn live_at_target<'p>(
    before: Seq<(UniqueSym<'p>, LiveSet<'p>)>,
    lbl: UniqueSym<'p>,
) -> Seq<LArg<'p>> {
    if has_id(before, lbl.id) {
        value_of(before, lbl.id)@
    } else {
        Seq::empty()
    }
}

/// A jump reads whatever is live at its target.
pub open spec fn jump_accesses<'p>(target: Seq<LArg<'p>>) -> Seq<Access<'p>> {
    Seq::new(target.len(), |i: int| (target[i].lift(), ReadWriteOp::Read))
}

/// The operands that `instr` touches, implicit ones included, in the order
/// in which liveness has to account for them: what is overwritten first,
/// then what is read.
pub open spec fn accesses<'p>(
    instr: Instr<'p, VarArg<'p>>,
    before: Seq<(UniqueSym<'p>, LiveSet<'p>)>,
) -> Seq<Access<'p>> {
    match instr {
        Instr::Add { src, dst }
        | Instr::Sub { src, dst }
        | Instr::And { src, dst }
        | Instr::Or { src, dst }
        | Instr::Xor { src, dst } => seq![(dst, ReadWriteOp::ReadWrite), (src, ReadWriteOp::Read)],
        Instr::Cmp { src, dst } => seq![(dst, ReadWriteOp::Read), (src, ReadWriteOp::Read)],
        Instr::Mov { src, dst } => seq![(dst, ReadWriteOp::Write), (src, ReadWriteOp::Read)],
        Instr::Push { src } => seq![(src, ReadWriteOp::Read)],
        Instr::Pop { dst } => seq![(dst, ReadWriteOp::Write)],
        Instr::Neg { dst } | Instr::Not { dst } => seq![(dst, ReadWriteOp::ReadWrite)],
        Instr::CallDirect { arity, .. } => call_accesses(arity),
        Instr::Syscall { arity } => syscall_accesses(arity),
        Instr::Ret => seq![(VarArg::Reg(Reg::RAX), ReadWriteOp::Read)],
        Instr::Setcc { .. } => seq![(VarArg::Reg(Reg::RAX), ReadWriteOp::Write)],
        Instr::Mul { src } => seq![
            (VarArg::Reg(Reg::RDX), ReadWriteOp::Write),
            (VarArg::Reg(Reg::RAX), ReadWriteOp::ReadWrite),
            (src, ReadWriteOp::Read),
        ],
        Instr::Div { divisor } => seq![
            (VarArg::Reg(Reg::RDX), ReadWriteOp::ReadWrite),
            (VarArg::Reg(Reg::RAX), ReadWriteOp::ReadWrite),
            (divisor, ReadWriteOp::Read),
        ],
        Instr::Jmp { lbl } | Instr::Jcc { lbl, .. } => jump_accesses(live_at_target(before, lbl)),
        Instr::LoadLbl { dst, .. } => seq![(dst, ReadWriteOp::Write)],
        Instr::CallIndirect { src, arity } => call_accesses(arity).push((src, ReadWriteOp::Read)),
    }
}

/// Appends accesses of kind `op` to the registers `regs[from..to]`.
fn push_reg_accesses<'p>(
    out: &mut Vec<Access<'p>>,
    regs: &[Reg],
    from: usize,
    to: usize,
    op: ReadWriteOp,
)
    requires
        from <= to <= regs@.len(),
    ensures
        final(out)@ == old(out)@ + reg_accesses(regs@.subrange(from as int, to as int), op),
{
    let mut i: usize = from;
    while i < to
        invariant
            from <= i <= to <= regs@.len(),
            out@ == old(out)@ + reg_accesses(regs@.subrange(from as int, i as int), op),
        decreases to - i,
    {
        out.push((VarArg::Reg(regs[i]), op));
        assert(out@ =~= old(out)@ + reg_accesses(regs@.subrange(from as int, i + 1), op));
        i += 1;
    }
}

/// Appends [`call_accesses`] to `out`.
fn push_call_accesses<'p>(out: &mut Vec<Access<'p>>, arity: usize)
    ensures
        final(out)@ == old(out)@ + call_accesses(arity),
{
    let n: usize = if arity <= 9 {
        arity
    } else {
        9
    };
    let regs = CALLER_SAVED;
    assert(regs@ =~= caller_saved());
    push_reg_accesses(out, regs.as_slice(), n, 9, ReadWriteOp::Write);
    push_reg_accesses(out, regs.as_slice(), 0, n, ReadWriteOp::ReadWrite);
    assert(regs@.subrange(n as int, 9) =~= caller_saved().skip(n as int));
    assert(regs@.subrange(0, n as int) =~= caller_saved().take(n as int));
    assert(out@ =~= old(out)@ + call_accesses(arity));
}

/// Lists the operands that `instr` touches, with what it does to each.
///
/// `before_map` holds, for the blocks analysed so far, what is live at
/// their start; a jump reads all of that.
pub fn handle_instr<'p>(
    instr: &Instr<'p, VarArg<'p>>,
    before_map: &SymMap<'p, LiveSet<'p>>,
) -> (accs: Vec<Access<'p>>)
    ensures
        accs@ == accesses(*instr, before_map@),
{
    let mut out: Vec<Access<'p>> = Vec::new();
    match instr {
        Instr::Add { src, dst }
        | Instr::Sub { src, dst }
        | Instr::And { src, dst }
        | Instr::Or { src, dst }
        | Instr::Xor { src, dst } => {
            out.push((*dst, ReadWriteOp::ReadWrite));
            out.push((*src, ReadWriteOp::Read));
        },
        Instr::Cmp { src, dst } => {
            out.push((*dst, ReadWriteOp::Read));
            out.push((*src, ReadWriteOp::Read));
        },
        Instr::Mov { src, dst } => {
            out.push((*dst, ReadWriteOp::Write));
            out.push((*src, ReadWriteOp::Read));
        },
        Instr::Push { src } => {
            out.push((*src, ReadWriteOp::Read));
        },
        Instr::Pop { dst } => {
            out.push((*dst, ReadWriteOp::Write));
        },
        Instr::Neg { dst } | Instr::Not { dst } => {
            out.push((*dst, ReadWriteOp::ReadWrite));
        },
        Instr::CallDirect { arity, .. } => {
            push_call_accesses(&mut out, *arity);
        },
        Instr::Syscall { arity } => {
            let n: usize = if *arity <= 6 {
                *arity
            } else {
                6
            };
            let saved = CALLER_SAVED;
            let args = SYSCALL_REGS;
            assert(saved@ =~= caller_saved());
            assert(args@ =~= syscall_regs());
            push_reg_accesses(&mut out, saved.as_slice(), 0, 9, ReadWriteOp::Write);
            push_reg_accesses(&mut out, args.as_slice(), 0, n, ReadWriteOp::Read);
            assert(saved@.subrange(0, 9) =~= caller_saved());
            assert(args@.subrange(0, n as int) =~= syscall_regs().take(n as int));
        },
        Instr::Ret => {
            out.push((VarArg::Reg(Reg::RAX), ReadWriteOp::Read));
        },
        Instr::Setcc { .. } => {
            out.push((VarArg::Reg(Reg::RAX), ReadWriteOp::Write));
        },
        Instr::Mul { src } => {
            out.push((VarArg::Reg(Reg::RDX), ReadWriteOp::Write));
            out.push((VarArg::Reg(Reg::RAX), ReadWriteOp::ReadWrite));
            out.push((*src, ReadWriteOp::Read));
        },
        Instr::Div { divisor } => {
            out.push((VarArg::Reg(Reg::RDX), ReadWriteOp::ReadWrite));
            out.push((VarArg::Reg(Reg::RAX), ReadWriteOp::ReadWrite));
            out.push((*divisor, ReadWriteOp::Read));
        },
        Instr::Jmp { lbl } | Instr::Jcc { lbl, .. } => {
            if let Some(live) = before_map.get(lbl.id) {
                let mut i: usize = 0;
                while i < live.len()
                    invariant
                        i <= live@.len(),
                        out@ == jump_accesses(live@.take(i as int)),
                    decreases live@.len() - i,
                {
                    out.push((live.get(i).to_var_arg(), ReadWriteOp::Read));
                    assert(out@ =~= jump_accesses(live@.take(i + 1)));
                    i += 1;
                }
                assert(live@.take(i as int) =~= live@);
            }
        },
        Instr::LoadLbl { dst, .. } => {
            out.push((*dst, ReadWriteOp::Write));
        },
        Instr::CallIndirect { src, arity } => {
            push_call_accesses(&mut out, *arity);
            out.push((*src, ReadWriteOp::Read));
        },
    }
    assert(out@ =~= accesses(*instr, before_map@));
    out
}


/// What is live before an access, given what is live after it: a location
/// that is overwritten stops being live, one that is read becomes live, and
/// a memory operand reads its base register whatever is done to the memory.
pub open spec fn apply_access<'p>(live: Set<Key>, arg: VarArg<'p>, op: ReadWriteOp) -> Set<Key> {
    match arg {
        VarArg::Imm(_) => live,
        VarArg::Reg(reg) => if op == ReadWriteOp::Write {
            live.remove((LArg::Reg { reg }).key())
        } else {
            live.insert((LArg::Reg { reg }).key())
        },
        VarArg::XVar(sym) => if op == ReadWriteOp::Write {
            live.remove((LArg::Var { sym }).key())
        } else {
            live.insert((LArg::Var { sym }).key())
        },
        VarArg::Deref { reg, .. } => live.insert((LArg::Reg { reg }).key()),
    }
}

/// [`apply_access`] for each access of `accs` in turn.
pub open spec fn apply_accesses<'p>(live: Set<Key>, accs: Seq<Access<'p>>) -> Set<Key>
    decreases accs.len(),
{
    if accs.len() == 0 {
        live
    } else {
        apply_access(apply_accesses(live, accs.drop_last()), accs.last().0, accs.last().1)
    }
}

/// For each block looked at so far, the keys of what is live at its start.
pub type LiveMap = Map<usize, Set<Key>>;

/// What `before` says, as a map from the number of a label to a set of keys.
pub open spec fn live_sets<'p>(before: Seq<(UniqueSym<'p>, LiveSet<'p>)>) -> LiveMap {
    Map::new(|id: usize| has_id(before, id), |id: usize| value_of(before, id).keys())
}

/// The label that `instr` may jump to.
pub open spec fn jump_target<'p>(instr: Instr<'p, VarArg<'p>>) -> Option<UniqueSym<'p>> {
    match instr {
        Instr::Jmp { lbl } | Instr::Jcc { lbl, .. } => Some(lbl),
        _ => None,
    }
}

/// What is live before `instr`, given what is live after it and at the
/// start of the blocks it may jump to.
///
/// A jump keeps alive whatever its target needs. Any other instruction
/// keeps alive what it does not overwrite, and makes live what it reads.
pub open spec fn live_before<'p>(
    instr: Instr<'p, VarArg<'p>>,
    targets: LiveMap,
    after: Set<Key>,
) -> Set<Key> {
    match jump_target(instr) {
        Some(lbl) => if targets.dom().contains(lbl.id) {
            after.union(targets[lbl.id])
        } else {
            after
        },
        None => apply_accesses(after, accesses(instr, Seq::empty())),
    }
}

/// What is live before the `i`-th instruction of `code`; nothing is live
/// at the end of a block.
pub open spec fn live_at<'p>(code: Seq<Instr<'p, VarArg<'p>>>, targets: LiveMap, i: int) -> Set<
    Key,
>
    decreases code.len() - i,
{
    if i < 0 || i >= code.len() {
        Set::empty()
    } else {
        live_before(code[i], targets, live_at(code, targets, i + 1))
    }
}

/// Reading every location of `s` adds the keys of `s` to what is live.
pub proof fn lemma_jump_accesses<'p>(after: Set<Key>, s: Seq<LArg<'p>>)
    ensures
        apply_accesses(after, jump_accesses(s)) == after.union(key_set(s)),
    decreases s.len(),
{
    let accs = jump_accesses(s);
    if s.len() == 0 {
        assert(after.union(key_set(s)) =~= after);
    } else {
        let t = s.drop_last();
        lemma_jump_accesses(after, t);
        assert(accs.drop_last() =~= jump_accesses(t));
        let k = s.last().key();
        assert(accs.last() == (s.last().lift(), ReadWriteOp::Read));
        assert(apply_accesses(after, accs) == after.union(key_set(t)).insert(k));
        assert forall|x: Key| key_set(s).contains(x) <==> key_set(t).insert(k).contains(x) by {
            if key_set(s).contains(x) {
                let i = choose|i: int| 0 <= i < s.len() && #[trigger] s[i].key() == x;
                if i < t.len() {
                    assert(t[i].key() == x);
                }
            }
            if key_set(t).contains(x) {
                let i = choose|i: int| 0 <= i < t.len() && #[trigger] t[i].key() == x;
                assert(s[i].key() == x);
            }
            if x == k {
                assert(s[s.len() - 1].key() == x);
            }
        }
        assert(key_set(s) =~= key_set(t).insert(k));
        assert(after.union(key_set(t)).insert(k) =~= after.union(key_set(s)));
    }
}

/// Taking the accesses of `instr` one by one computes [`live_before`].
pub proof fn lemma_accesses_live_before<'p>(
    instr: Instr<'p, VarArg<'p>>,
    before: Seq<(UniqueSym<'p>, LiveSet<'p>)>,
    after: Set<Key>,
)
    ensures
        apply_accesses(after, accesses(instr, before)) == live_before(
            instr,
            live_sets(before),
            after,
        ),
{
    match jump_target(instr) {
        Some(lbl) => {
            lemma_jump_accesses(after, live_at_target(before, lbl));
            if has_id(before, lbl.id) {
            } else {
                assert(after.union(key_set(Seq::<LArg<'p>>::empty())) =~= after);
            }
        },
        None => {
            assert(accesses(instr, before) == accesses(instr, Seq::empty()));
        },
    }
}

/// A block whose instructions each carry the set of locations that are
/// live after them.
#[derive(Debug)]
pub struct LBlock<'p> {
    pub instrs: Vec<(Instr<'p, VarArg<'p>>, LiveSet<'p>)>,
}

impl<'p> LBlock<'p> {
    /// The instructions without their annotations.
    pub open spec fn code(self) -> Seq<Instr<'p, VarArg<'p>>> {
        Seq::new(self.instrs@.len(), |i: int| self.instrs@[i].0)
    }

    /// Every annotation is what the liveness equations give for `targets`.
    pub open spec fn annotated(self, targets: LiveMap) -> bool {
        forall|i: int|
            0 <= i < self.instrs@.len() ==> (#[trigger] self.instrs@[i]).1.keys() == live_at(
                self.code(),
                targets,
                i + 1,
            )
    }
}

/// Takes the effect of one access on `live`.
fn update_live<'p>(live: &mut LiveSet<'p>, arg: &VarArg<'p>, op: ReadWriteOp)
    ensures
        final(live).keys() == apply_access(old(live).keys(), *arg, op),
{
    match arg {
        VarArg::Imm(_) => {},
        VarArg::Reg(reg) => {
            let a = LArg::Reg { reg: *reg };
            match op {
                ReadWriteOp::Write => live.remove(&a),
                _ => live.insert(a),
            }
        },
        VarArg::XVar(sym) => {
            let a = LArg::Var { sym: *sym };
            match op {
                ReadWriteOp::Write => live.remove(&a),
                _ => live.insert(a),
            }
        },
        VarArg::Deref { reg, .. } => {
            live.insert(LArg::Reg { reg: *reg });
        },
    }
}

/// Walks `block` from its end to its start, writes down after each
/// instruction what is live there, and returns what is live at the start.
///
/// `before_map` tells what is live at the targets of the block's jumps.
pub fn block_liveness<'p>(block: &mut LBlock<'p>, before_map: &SymMap<'p, LiveSet<'p>>) -> (live:
    LiveSet<'p>)
    ensures
        final(block).code() == old(block).code(),
        final(block).annotated(live_sets(before_map@)),
        live.keys() == live_at(old(block).code(), live_sets(before_map@), 0),
{
    let ghost code = block.code();
    let ghost before = live_sets(before_map@);
    let mut live = LiveSet::new();
    let mut i: usize = block.instrs.len();
    while i > 0
        invariant
            i <= block.instrs@.len(),
            block.code() == code,
            before == live_sets(before_map@),
            live.keys() == live_at(code, before, i as int),
            forall|j: int|
                i <= j < block.instrs@.len() ==> (#[trigger] block.instrs@[j]).1.keys() == live_at(
                    code,
                    before,
                    j + 1,
                ),
        decreases i,
    {
        i -= 1;
        let instr = block.instrs[i].0;
        let last_live = live.copy();
        let accs = handle_instr(&instr, before_map);
        let mut j: usize = 0;
        while j < accs.len()
            invariant
                j <= accs@.len(),
                live.keys() == apply_accesses(last_live.keys(), accs@.take(j as int)),
            decreases accs@.len() - j,
        {
            let op = accs[j].1;
            update_live(&mut live, &accs[j].0, op);
            assert(accs@.take(j + 1).drop_last() =~= accs@.take(j as int));
            j += 1;
        }
        assert(accs@.take(j as int) =~= accs@);
        assert(instr == code[i as int]);
        proof {
            lemma_accesses_live_before(instr, before_map@, last_live.keys());
        }
        block.instrs.set(i, (instr, last_live));
        assert(block.code() =~= code);
    }
    live
}

} // verus!
