//! Patching: instructions with operands that the processor has no form for
//! are rewritten to go through `RAX`.

use vstd::prelude::*;
use crate::assign::assign_homes::{AX86Program, FunAssigned};
use crate::error::CompileError;
use crate::sym_map::{has_id, SymMap};
use crate::symbol::UniqueSym;
use crate::x86::{Arg, Block, Instr, Reg};

verus! {

/// A function after patching.
pub type FunPatched<'p> = FunAssigned<'p>;

/// A program in which every instruction has operands that the processor
/// has a form for.
#[derive(Debug)]
pub struct X86Patched<'p> {
    pub fns: SymMap<'p, FunPatched<'p>>,
    pub entry: UniqueSym<'p>,
}

/// The instructions that take a source and a destination.
#[derive(Clone, Copy, Debug, PartialEq, Eq, Structural)]
pub enum BinaryKind {
    Add,
    Sub,
    And,
    Or,
    Xor,
    Cmp,
    Mov,
}

/// The instruction of kind `kind` from `src` to `dst`.
pub open spec fn binary<'p>(kind: BinaryKind, src: Arg, dst: Arg) -> Instr<'p, Arg> {
    match kind {
        BinaryKind::Add => Instr::Add { src, dst },
        BinaryKind::Sub => Instr::Sub { src, dst },
        BinaryKind::And => Instr::And { src, dst },
        BinaryKind::Or => Instr::Or { src, dst },
        BinaryKind::Xor => Instr::Xor { src, dst },
        BinaryKind::Cmp => Instr::Cmp { src, dst },
        BinaryKind::Mov => Instr::Mov { src, dst },
    }
}

/// Computes [`binary`].
fn make_binary<'p>(kind: BinaryKind, src: Arg, dst: Arg) -> (instr: Instr<'p, Arg>)
    ensures
        instr == binary::<'p>(kind, src, dst),
{
    match kind {
        BinaryKind::Add => Instr::Add { src, dst },
        BinaryKind::Sub => Instr::Sub { src, dst },
        BinaryKind::And => Instr::And { src, dst },
        BinaryKind::Or => Instr::Or { src, dst },
        BinaryKind::Xor => Instr::Xor { src, dst },
        BinaryKind::Cmp => Instr::Cmp { src, dst },
        BinaryKind::Mov => Instr::Mov { src, dst },
    }
}

/// The kind, source and destination of a two-operand instruction.
pub open spec fn as_binary<'p>(instr: Instr<'p, Arg>) -> Option<(BinaryKind, Arg, Arg)> {
    match instr {
        Instr::Add { src, dst } => Some((BinaryKind::Add, src, dst)),
        Instr::Sub { src, dst } => Some((BinaryKind::Sub, src, dst)),
        Instr::And { src, dst } => Some((BinaryKind::And, src, dst)),
        Instr::Or { src, dst } => Some((BinaryKind::Or, src, dst)),
        Instr::Xor { src, dst } => Some((BinaryKind::Xor, src, dst)),
        Instr::Cmp { src, dst } => Some((BinaryKind::Cmp, src, dst)),
        Instr::Mov { src, dst } => Some((BinaryKind::Mov, src, dst)),
        _ => None,
    }
}

/// The operand in destination position, if the instruction has one.
pub open spec fn destination<'p>(instr: Instr<'p, Arg>) -> Option<Arg> {
    match instr {
        Instr::Add { dst, .. }
        | Instr::Sub { dst, .. }
        | Instr::And { dst, .. }
        | Instr::Or { dst, .. }
        | Instr::Xor { dst, .. }
        | Instr::Cmp { dst, .. }
        | Instr::Mov { dst, .. }
        | Instr::Pop { dst }
        | Instr::Neg { dst }
        | Instr::Not { dst }
        | Instr::LoadLbl { dst, .. } => Some(dst),
        _ => None,
    }
}

/// Whether a two-operand instruction names memory twice.
pub open spec fn two_memory_operands<'p>(instr: Instr<'p, Arg>) -> bool {
    match as_binary(instr) {
        Some((_, src, dst)) => src is Deref && dst is Deref,
        None => false,
    }
}

/// Whether the instruction has an immediate in destination position.
pub open spec fn immediate_destination<'p>(instr: Instr<'p, Arg>) -> bool {
    match destination(instr) {
        Some(dst) => dst is Imm,
        None => false,
    }
}

/// Whether the processor has a form for the operands of `instr`.
pub open spec fn legal<'p>(instr: Instr<'p, Arg>) -> bool {
    !two_memory_operands(instr) && !immediate_destination(instr)
}

/// What patching makes of a two-operand instruction.
///
/// A comparison with an immediate in destination position first loads the
/// immediate into `RAX`; any other instruction into an immediate cannot be
/// mended. From memory to memory, the source first goes to `RAX`. A move
/// from a register to itself is dropped.
pub open spec fn patched_binary<'p>(kind: BinaryKind, src: Arg, dst: Arg) -> Option<
    Seq<Instr<'p, Arg>>,
> {
    if dst is Imm {
        if kind == BinaryKind::Cmp {
            Some(
                seq![
                    Instr::Mov { src: dst, dst: Arg::Reg(Reg::RAX) },
                    Instr::Cmp { src, dst: Arg::Reg(Reg::RAX) },
                ],
            )
        } else {
            None
        }
    } else if src is Deref && dst is Deref {
        Some(
            seq![
                Instr::Mov { src, dst: Arg::Reg(Reg::RAX) },
                binary(kind, Arg::Reg(Reg::RAX), dst),
            ],
        )
    } else if kind == BinaryKind::Mov && src is Reg && src == dst {
        Some(Seq::empty())
    } else {
        Some(seq![binary(kind, src, dst)])
    }
}

/// What patching makes of an instruction, or `None` if it has an immediate
/// in destination position that cannot be mended.
///
/// Besides the two-operand instructions, three more need mending. The
/// address of a label can only be loaded into a register, so that it
/// reaches memory through `RAX`. A multiplication cannot take an
/// immediate, which therefore first goes to `RDX`, a register that the
/// multiplication overwrites anyway. Nor can a division, which has no
/// register to spare: its immediate goes on the stack for as long as the
/// division takes.
pub open spec fn patched<'p>(instr: Instr<'p, Arg>) -> Option<Seq<Instr<'p, Arg>>> {
    match as_binary(instr) {
        Some((kind, src, dst)) => patched_binary(kind, src, dst),
        None => if immediate_destination(instr) {
            None
        } else {
            match instr {
                Instr::LoadLbl { lbl, dst } => if dst is Deref {
                    Some(
                        seq![
                            Instr::LoadLbl { lbl, dst: Arg::Reg(Reg::RAX) },
                            Instr::Mov { src: Arg::Reg(Reg::RAX), dst },
                        ],
                    )
                } else {
                    Some(seq![instr])
                },
                Instr::Mul { src } => if src is Imm {
                    Some(
                        seq![
                            Instr::Mov { src, dst: Arg::Reg(Reg::RDX) },
                            Instr::Mul { src: Arg::Reg(Reg::RDX) },
                        ],
                    )
                } else {
                    Some(seq![instr])
                },
                Instr::Div { divisor } => if divisor is Imm {
                    Some(
                        seq![
                            Instr::Push { src: divisor },
                            Instr::Div { divisor: Arg::Deref { reg: Reg::RSP, off: 0 } },
                            Instr::Add { src: Arg::Imm(8), dst: Arg::Reg(Reg::RSP) },
                        ],
                    )
                } else {
                    Some(seq![instr])
                },
                _ => Some(seq![instr]),
            }
        },
    }
}

/// What patching makes of the first `n` instructions of `code`.
pub open spec fn patched_code<'p>(code: Seq<Instr<'p, Arg>>, n: int) -> Option<Seq<Instr<'p, Arg>>>
    decreases n,
{
    if n <= 0 {
        Some(Seq::empty())
    } else {
        match (patched_code(code, n - 1), patched(code[n - 1])) {
            (Some(before), Some(here)) => Some(before + here),
            _ => None,
        }
    }
}

/// Every instruction that patching produces is legal.
pub proof fn lemma_patched_legal<'p>(instr: Instr<'p, Arg>, k: int)
    requires
        patched(instr) is Some,
        0 <= k < patched(instr)->Some_0.len(),
    ensures
        legal(patched(instr)->Some_0[k]),
{
}

/// Every instruction of patched code is legal: none names memory twice,
/// and none has an immediate in destination position.
pub proof fn lemma_patched_code_legal<'p>(code: Seq<Instr<'p, Arg>>, n: int, k: int)
    requires
        0 <= n <= code.len(),
        patched_code(code, n) is Some,
        0 <= k < patched_code(code, n)->Some_0.len(),
    ensures
        legal(patched_code(code, n)->Some_0[k]),
    decreases n,
{
    if n > 0 {
        let before = patched_code(code, n - 1)->Some_0;
        if k < before.len() {
            lemma_patched_code_legal(code, n - 1, k);
        } else {
            lemma_patched_legal(code[n - 1], k - before.len());
        }
    }
}

/// Whether an operand names memory.
fn is_deref(a: &Arg) -> (b: bool)
    ensures
        b == (*a is Deref),
{
    match a {
        Arg::Deref { .. } => true,
        _ => false,
    }
}

/// Whether an operand is an immediate.
fn is_imm(a: &Arg) -> (b: bool)
    ensures
        b == (*a is Imm),
{
    match a {
        Arg::Imm(_) => true,
        _ => false,
    }
}

/// Whether both operands are the same register.
fn same_reg(a: &Arg, b: &Arg) -> (r: bool)
    ensures
        r == (*a is Reg && *a == *b),
{
    match (a, b) {
        (Arg::Reg(x), Arg::Reg(y)) => x.index() == y.index(),
        _ => false,
    }
}

/// Patches the two-operand instruction of kind `kind` from `src` to `dst`.
pub fn patch_args<'p>(src: Arg, dst: Arg, kind: BinaryKind) -> (r: Result<
    Vec<Instr<'p, Arg>>,
    CompileError,
>)
    ensures
        match patched_binary::<'p>(kind, src, dst) {
            Some(instrs) => r is Ok && r->Ok_0@ == instrs,
            None => r == Err::<Vec<Instr<'p, Arg>>, CompileError>(CompileError::Unreachable),
        },
{
    let mut out: Vec<Instr<'p, Arg>> = Vec::new();
    if is_imm(&dst) {
        match kind {
            BinaryKind::Cmp => {
                out.push(Instr::Mov { src: dst, dst: Arg::Reg(Reg::RAX) });
                out.push(Instr::Cmp { src, dst: Arg::Reg(Reg::RAX) });
            },
            _ => {
                return Err(CompileError::Unreachable);
            },
        }
    } else if is_deref(&src) && is_deref(&dst) {
        out.push(Instr::Mov { src, dst: Arg::Reg(Reg::RAX) });
        out.push(make_binary(kind, Arg::Reg(Reg::RAX), dst));
    } else {
        let is_mov = match kind {
            BinaryKind::Mov => true,
            _ => false,
        };
        if !(is_mov && same_reg(&src, &dst)) {
            out.push(make_binary(kind, src, dst));
        }
    }
    assert(out@ =~= patched_binary::<'p>(kind, src, dst)->Some_0);
    Ok(out)
}

/// Patches one instruction.
pub fn patch_instr<'p>(instr: Instr<'p, Arg>) -> (r: Result<Vec<Instr<'p, Arg>>, CompileError>)
    ensures
        match patched(instr) {
            Some(instrs) => r is Ok && r->Ok_0@ == instrs,
            None => r == Err::<Vec<Instr<'p, Arg>>, CompileError>(CompileError::Unreachable),
        },
{
    match instr {
        Instr::Add { src, dst } => patch_args(src, dst, BinaryKind::Add),
        Instr::Sub { src, dst } => patch_args(src, dst, BinaryKind::Sub),
        Instr::And { src, dst } => patch_args(src, dst, BinaryKind::And),
        Instr::Or { src, dst } => patch_args(src, dst, BinaryKind::Or),
        Instr::Xor { src, dst } => patch_args(src, dst, BinaryKind::Xor),
        Instr::Cmp { src, dst } => patch_args(src, dst, BinaryKind::Cmp),
        Instr::Mov { src, dst } => patch_args(src, dst, BinaryKind::Mov),
        Instr::Pop { dst } | Instr::Neg { dst } | Instr::Not { dst } => {
            if is_imm(&dst) {
                Err(CompileError::Unreachable)
            } else {
                let mut out: Vec<Instr<'p, Arg>> = Vec::new();
                out.push(instr);
                assert(out@ =~= seq![instr]);
                Ok(out)
            }
        },
        Instr::LoadLbl { lbl, dst } => {
            let mut out: Vec<Instr<'p, Arg>> = Vec::new();
            if is_imm(&dst) {
                return Err(CompileError::Unreachable);
            } else if is_deref(&dst) {
                out.push(Instr::LoadLbl { lbl, dst: Arg::Reg(Reg::RAX) });
                out.push(Instr::Mov { src: Arg::Reg(Reg::RAX), dst });
            } else {
                out.push(instr);
            }
            assert(out@ =~= patched(instr)->Some_0);
            Ok(out)
        },
        Instr::Div { divisor } => {
            let mut out: Vec<Instr<'p, Arg>> = Vec::new();
            if is_imm(&divisor) {
                out.push(Instr::Push { src: divisor });
                out.push(Instr::Div { divisor: Arg::Deref { reg: Reg::RSP, off: 0 } });
                out.push(Instr::Add { src: Arg::Imm(8), dst: Arg::Reg(Reg::RSP) });
            } else {
                out.push(instr);
            }
            assert(out@ =~= patched(instr)->Some_0);
            Ok(out)
        },
        Instr::Mul { src } => {
            let mut out: Vec<Instr<'p, Arg>> = Vec::new();
            if is_imm(&src) {
                out.push(Instr::Mov { src, dst: Arg::Reg(Reg::RDX) });
                out.push(Instr::Mul { src: Arg::Reg(Reg::RDX) });
            } else {
                out.push(instr);
            }
            assert(out@ =~= patched(instr)->Some_0);
            Ok(out)
        },
        _ => {
            let mut out: Vec<Instr<'p, Arg>> = Vec::new();
            out.push(instr);
            assert(out@ =~= seq![instr]);
            Ok(out)
        },
    }
}

/// Patches the instructions of a block, in order.
pub fn patch_block<'p>(block: &Block<'p, Arg>) -> (r: Result<Block<'p, Arg>, CompileError>)
    ensures
        match patched_code(block.instrs@, block.instrs@.len() as int) {
            Some(instrs) => r is Ok && r->Ok_0.instrs@ == instrs,
            None => r == Err::<Block<'p, Arg>, CompileError>(CompileError::Unreachable),
        },
{
    let mut out: Vec<Instr<'p, Arg>> = Vec::new();
    let mut i: usize = 0;
    while i < block.instrs.len()
        invariant
            i <= block.instrs@.len(),
            patched_code(block.instrs@, i as int) == Some(out@),
        decreases block.instrs@.len() - i,
    {
        let mut here = match patch_instr(block.instrs[i]) {
            Ok(here) => here,
            Err(e) => {
                proof {
                    lemma_patched_code_fails(block.instrs@, i + 1, block.instrs@.len() as int);
                }
                return Err(e);
            },
        };
        let ghost before = out@;
        let ghost added = here@;
        out.append(&mut here);
        assert(out@ =~= before + added);
        i += 1;
    }
    Ok(Block { instrs: out })
}

/// Code that cannot be patched up to some point cannot be patched beyond it.
proof fn lemma_patched_code_fails<'p>(code: Seq<Instr<'p, Arg>>, n: int, m: int)
    requires
        n <= m,
        patched_code(code, n) is None,
    ensures
        patched_code(code, m) is None,
    decreases m - n,
{
    if n < m {
        lemma_patched_code_fails(code, n, m - 1);
    }
}


/// Whether every block of `fun` can be patched.
pub open spec fn patchable<'p>(fun: FunAssigned<'p>) -> bool {
    forall|j: int|
        0 <= j < fun.blocks@.len() ==> patched_code(
            (#[trigger] fun.blocks@[j]).1.instrs@,
            fun.blocks@[j].1.instrs@.len() as int,
        ) is Some
}

/// Whether `out` is `fun` with the code of every block patched.
pub open spec fn is_patched<'p>(out: FunPatched<'p>, fun: FunAssigned<'p>) -> bool {
    &&& out.entry == fun.entry
    &&& out.exit == fun.exit
    &&& out.stack_space == fun.stack_space
    &&& out.blocks@.len() == fun.blocks@.len()
    &&& forall|j: int|
        0 <= j < out.blocks@.len() ==> (#[trigger] out.blocks@[j]).0 == fun.blocks@[j].0
            && Some(out.blocks@[j].1.instrs@) == patched_code(
            fun.blocks@[j].1.instrs@,
            fun.blocks@[j].1.instrs@.len() as int,
        )
}

/// Whether every instruction of `fun` is legal.
pub open spec fn all_legal<'p>(fun: FunPatched<'p>) -> bool {
    forall|j: int, i: int|
        0 <= j < fun.blocks@.len() && 0 <= i < fun.blocks@[j].1.instrs@.len() ==> legal(
            #[trigger] fun.blocks@[j].1.instrs@[i],
        )
}

/// Patches every block of a function.
pub fn patch_fun<'p>(fun: &FunAssigned<'p>) -> (r: Result<FunPatched<'p>, CompileError>)
    ensures
        match r {
            Ok(out) => patchable(*fun) && is_patched(out, *fun) && all_legal(out),
            Err(e) => !patchable(*fun) && e == CompileError::Unreachable,
        },
{
    let n = fun.blocks.len();
    let mut blocks: SymMap<'p, Block<'p, Arg>> = SymMap::new();
    let mut j: usize = 0;
    while j < n
        invariant
            j <= n,
            n == fun.blocks@.len(),
            fun.blocks.wf(),
            blocks@.len() == j,
            forall|k: int|
                0 <= k < j ==> (#[trigger] blocks@[k]).0 == fun.blocks@[k].0 && Some(
                    blocks@[k].1.instrs@,
                ) == patched_code(
                    fun.blocks@[k].1.instrs@,
                    fun.blocks@[k].1.instrs@.len() as int,
                ),
        decreases n - j,
    {
        let lbl = fun.blocks.key_at(j);
        let block = match patch_block(fun.blocks.value_at(j)) {
            Ok(block) => block,
            Err(e) => {
                assert(patched_code(
                    fun.blocks@[j as int].1.instrs@,
                    fun.blocks@[j as int].1.instrs@.len() as int,
                ) is None);
                return Err(e);
            },
        };
        proof {
            if has_id(blocks@, lbl.id) {
                let k = choose|k: int|
                    0 <= k < blocks@.len() && #[trigger] blocks@[k].0.id == lbl.id;
                assert(fun.blocks@[k].0.id != fun.blocks@[j as int].0.id);
            }
        }
        blocks.insert(lbl, block);
        j += 1;
    }
    let out = FunAssigned {
        blocks,
        entry: fun.entry,
        exit: fun.exit,
        stack_space: fun.stack_space,
    };
    proof {
        assert forall|k: int| 0 <= k < fun.blocks@.len() implies patched_code(
            (#[trigger] fun.blocks@[k]).1.instrs@,
            fun.blocks@[k].1.instrs@.len() as int,
        ) is Some by {
            assert(out.blocks@[k].0 == fun.blocks@[k].0);
        }
        assert forall|k: int, i: int|
            0 <= k < out.blocks@.len() && 0 <= i < out.blocks@[k].1.instrs@.len() implies legal(
            #[trigger] out.blocks@[k].1.instrs@[i],
        ) by {
            assert(out.blocks@[k].0 == fun.blocks@[k].0);
            lemma_patched_code_legal(
                fun.blocks@[k].1.instrs@,
                fun.blocks@[k].1.instrs@.len() as int,
                i,
            );
        }
    }
    Ok(out)
}

impl<'p> AX86Program<'p> {
    /// Whether every function of the program can be patched.
    pub open spec fn patchable(self) -> bool {
        forall|j: int| 0 <= j < self.fns@.len() ==> patchable((#[trigger] self.fns@[j]).1)
    }

    /// Patches every instruction of the program.
    ///
    /// In the result no instruction names memory twice, and none has an
    /// immediate in destination position. A program with an immediate
    /// destination that cannot be mended is refused.
    pub fn patch(self) -> (r: Result<X86Patched<'p>, CompileError>)
        ensures
            match r {
                Ok(out) => self.patchable() && out.entry == self.entry && out.fns@.len()
                    == self.fns@.len() && forall|j: int|
                    0 <= j < out.fns@.len() ==> (#[trigger] out.fns@[j]).0 == self.fns@[j].0
                        && is_patched(out.fns@[j].1, self.fns@[j].1) && all_legal(out.fns@[j].1),
                Err(e) => !self.patchable() && e == CompileError::Unreachable,
            },
    {
        let n = self.fns.len();
        let mut fns: SymMap<'p, FunPatched<'p>> = SymMap::new();
        let mut j: usize = 0;
        while j < n
            invariant
                j <= n,
                n == self.fns@.len(),
                self.fns.wf(),
                fns@.len() == j,
                forall|k: int|
                    0 <= k < j ==> (#[trigger] fns@[k]).0 == self.fns@[k].0 && patchable(
                        self.fns@[k].1,
                    ) && is_patched(fns@[k].1, self.fns@[k].1) && all_legal(fns@[k].1),
            decreases n - j,
        {
            let sym = self.fns.key_at(j);
            let fun = match patch_fun(self.fns.value_at(j)) {
                Ok(fun) => fun,
                Err(e) => {
                    assert(!patchable(self.fns@[j as int].1));
                    return Err(e);
                },
            };
            proof {
                if has_id(fns@, sym.id) {
                    let k = choose|k: int| 0 <= k < fns@.len() && #[trigger] fns@[k].0.id == sym.id;
                    assert(self.fns@[k].0.id != self.fns@[j as int].0.id);
                }
            }
            fns.insert(sym, fun);
            j += 1;
        }
        proof {
            assert forall|k: int| 0 <= k < self.fns@.len() implies patchable(
                (#[trigger] self.fns@[k]).1,
            ) by {
                assert(fns@[k].0 == self.fns@[k].0);
            }
        }
        Ok(X86Patched { fns, entry: self.entry })
    }
}

} // verus!
