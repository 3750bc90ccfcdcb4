//! Conclusion: frames get their size, calls get the blocks they go to, the
//! blocks of all functions come together, and a block is added that runs
//! the program and hands its result to the operating system.

use vstd::prelude::*;
use crate::assign::assign_homes::{is_frame_alloc, is_frame_release};
use crate::error::CompileError;
use crate::patch::{FunPatched, X86Patched};
use crate::sym_map::{distinct_ids, has_id, index_of, lemma_index_of, stored, value_of, SymMap};
use crate::symbol::{gen_sym, next_id, SymCounter, UniqueSym};
use crate::x86::{Arg, Block, Instr, Reg};

verus! {

/// A program as one collection of blocks, ready to be encoded.
#[derive(Debug)]
pub struct X86Concluded<'p> {
    pub blocks: SymMap<'p, Block<'p, Arg>>,
    /// The label of the block that runs first.
    pub entry: UniqueSym<'p>,
}

/// Labelled code.
pub type Listing<'p> = Seq<(UniqueSym<'p>, Seq<Instr<'p, Arg>>)>;

/// The labels and the code of `blocks`.
pub open spec fn listing<'p>(blocks: Seq<(UniqueSym<'p>, Block<'p, Arg>)>) -> Listing<'p> {
    Seq::new(blocks.len(), |k: int| (blocks[k].0, blocks[k].1.instrs@))
}

/// The number of the system call that ends the process.
pub const SYSCALL_EXIT: i32 = 0x3C;

/// Whether the frame of every function has a size that fits an immediate.
pub open spec fn frames_fit<'p>(fns: Seq<(UniqueSym<'p>, FunPatched<'p>)>) -> bool {
    forall|j: int| 0 <= j < fns.len() ==> (#[trigger] fns[j]).1.stack_space <= i32::MAX
}

/// Whether the label that `instr` refers to, if it calls a function or
/// takes the address of one, is that of a function.
pub open spec fn target_known<'p>(
    instr: Instr<'p, Arg>,
    fns: Seq<(UniqueSym<'p>, FunPatched<'p>)>,
) -> bool {
    match instr {
        Instr::CallDirect { lbl, .. } | Instr::LoadLbl { lbl, .. } => has_id(fns, lbl.id),
        _ => true,
    }
}

/// Whether `fun` has its entry and exit blocks, and refers to functions of
/// the program only.
pub open spec fn fun_shaped<'p>(
    fun: FunPatched<'p>,
    fns: Seq<(UniqueSym<'p>, FunPatched<'p>)>,
) -> bool {
    &&& has_id(fun.blocks@, fun.entry.id)
    &&& has_id(fun.blocks@, fun.exit.id)
    &&& forall|k: int, i: int|
        0 <= k < fun.blocks@.len() && 0 <= i < fun.blocks@[k].1.instrs@.len() ==> target_known(
            #[trigger] fun.blocks@[k].1.instrs@[i],
            fns,
        )
}

/// Whether the program has the shape that the earlier passes give it.
pub open spec fn well_shaped<'p>(prog: X86Patched<'p>) -> bool {
    &&& has_id(prog.fns@, prog.entry.id)
    &&& forall|j: int| 0 <= j < prog.fns@.len()
        ==> fun_shaped((#[trigger] prog.fns@[j]).1, prog.fns@)
}

/// The label of the entry block of the function whose symbol has the
/// number `id`.
pub open spec fn entry_of<'p>(fns: Seq<(UniqueSym<'p>, FunPatched<'p>)>, id: usize) -> UniqueSym<
    'p,
> {
    value_of(fns, id).entry
}

/// What conclusion makes of an instruction.
///
/// A reference to a function becomes a reference to its entry block. Where
/// `fix` is set, which it is in entry and exit blocks, the instructions
/// that make room for the frame and give it back get its size.
pub open spec fn concluded_instr<'p>(
    instr: Instr<'p, Arg>,
    fns: Seq<(UniqueSym<'p>, FunPatched<'p>)>,
    fix: bool,
    frame: i32,
) -> Instr<'p, Arg> {
    match instr {
        Instr::CallDirect { lbl, arity } => Instr::CallDirect {
            lbl: entry_of(fns, lbl.id),
            arity,
        },
        Instr::LoadLbl { lbl, dst } => Instr::LoadLbl { lbl: entry_of(fns, lbl.id), dst },
        Instr::Sub { src, dst } => if fix && is_frame_alloc(instr) {
            Instr::Sub { src: Arg::Imm(frame), dst }
        } else {
            instr
        },
        Instr::Add { src, dst } => if fix && is_frame_release(instr) {
            Instr::Add { src: Arg::Imm(frame), dst }
        } else {
            instr
        },
        _ => instr,
    }
}

/// What conclusion makes of the code of a block.
pub open spec fn concluded_code<'p>(
    code: Seq<Instr<'p, Arg>>,
    fns: Seq<(UniqueSym<'p>, FunPatched<'p>)>,
    fix: bool,
    frame: i32,
) -> Seq<Instr<'p, Arg>> {
    Seq::new(code.len(), |i: int| concluded_instr(code[i], fns, fix, frame))
}

/// `acc` with the first `n` blocks of `fun` stored in it.
pub open spec fn with_blocks<'p>(
    acc: Listing<'p>,
    fun: FunPatched<'p>,
    fns: Seq<(UniqueSym<'p>, FunPatched<'p>)>,
    n: int,
) -> Listing<'p>
    decreases n,
{
    if n <= 0 {
        acc
    } else {
        stored(
            with_blocks(acc, fun, fns, n - 1),
            fun.blocks@[n - 1].0,
            concluded_code(
                fun.blocks@[n - 1].1.instrs@,
                fns,
                fun.blocks@[n - 1].0.id == fun.entry.id || fun.blocks@[n - 1].0.id == fun.exit.id,
                fun.stack_space as i32,
            ),
        )
    }
}

/// The blocks of the first `n` functions, stored one after the other.
pub open spec fn with_fns<'p>(fns: Seq<(UniqueSym<'p>, FunPatched<'p>)>, n: int) -> Listing<'p>
    decreases n,
{
    if n <= 0 {
        Seq::empty()
    } else {
        with_blocks(with_fns(fns, n - 1), fns[n - 1].1, fns, fns[n - 1].1.blocks@.len() as int)
    }
}

/// The code that runs the program: it calls the block `main`, and ends the
/// process with what the call returned as its status.
pub open spec fn runtime_code<'p>(main: UniqueSym<'p>) -> Seq<Instr<'p, Arg>> {
    seq![
        Instr::CallDirect { lbl: main, arity: 0 },
        Instr::Mov { src: Arg::Reg(Reg::RAX), dst: Arg::Reg(Reg::RDI) },
        Instr::Mov { src: Arg::Imm(SYSCALL_EXIT), dst: Arg::Reg(Reg::RAX) },
        Instr::Syscall { arity: 2 },
    ]
}

proof fn lemma_listing_stored<'p>(
    blocks: Seq<(UniqueSym<'p>, Block<'p, Arg>)>,
    sym: UniqueSym<'p>,
    block: Block<'p, Arg>,
)
    requires
        distinct_ids(blocks),
    ensures
        listing(stored(blocks, sym, block)) == stored(listing(blocks), sym, block.instrs@),
{
    let l = listing(blocks);
    assert(distinct_ids(l));
    if has_id(blocks, sym.id) {
        let i = index_of(blocks, sym.id);
        assert(0 <= i < blocks.len() && blocks[i].0.id == sym.id);
        assert(l[i].0.id == sym.id);
        lemma_index_of(l, i);
        assert(listing(stored(blocks, sym, block)) =~= stored(l, sym, block.instrs@));
    } else {
        if has_id(l, sym.id) {
            let i = index_of(l, sym.id);
            assert(0 <= i < l.len() && l[i].0.id == sym.id);
            assert(blocks[i].0.id == sym.id);
        }
        assert(listing(stored(blocks, sym, block)) =~= stored(l, sym, block.instrs@));
    }
}

/// Fixes stack allocation for spilled variables: gives the instructions
/// that make room for the frame and give it back the size of the frame.
pub fn fix_stack_space<'p>(block: &mut Block<'p, Arg>, stack_space: i32)
    ensures
        final(block).instrs@.len() == old(block).instrs@.len(),
        forall|i: int|
            0 <= i < old(block).instrs@.len() ==> #[trigger] final(block).instrs@[i] == (
            match old(block).instrs@[i] {
                Instr::Sub { src, dst } => if is_frame_alloc(old(block).instrs@[i]) {
                    Instr::Sub { src: Arg::Imm(stack_space), dst }
                } else {
                    old(block).instrs@[i]
                },
                Instr::Add { src, dst } => if is_frame_release(old(block).instrs@[i]) {
                    Instr::Add { src: Arg::Imm(stack_space), dst }
                } else {
                    old(block).instrs@[i]
                },
                _ => old(block).instrs@[i],
            }),
{
    let mut i: usize = 0;
    while i < block.instrs.len()
        invariant
            i <= block.instrs@.len(),
            block.instrs@.len() == old(block).instrs@.len(),
            forall|k: int| i <= k < block.instrs@.len() ==> block.instrs@[k]
                == old(block).instrs@[k],
            forall|k: int|
                0 <= k < i ==> #[trigger] block.instrs@[k] == (match old(block).instrs@[k] {
                    Instr::Sub { src, dst } => if is_frame_alloc(old(block).instrs@[k]) {
                        Instr::Sub { src: Arg::Imm(stack_space), dst }
                    } else {
                        old(block).instrs@[k]
                    },
                    Instr::Add { src, dst } => if is_frame_release(old(block).instrs@[k]) {
                        Instr::Add { src: Arg::Imm(stack_space), dst }
                    } else {
                        old(block).instrs@[k]
                    },
                    _ => old(block).instrs@[k],
                }),
        decreases block.instrs@.len() - i,
    {
        let instr = block.instrs[i];
        match instr {
            Instr::Sub { src: Arg::Imm(val), dst: Arg::Reg(Reg::RSP) } => {
                if val == crate::x86::STACK_PLACEHOLDER {
                    block.instrs.set(
                        i,
                        Instr::Sub { src: Arg::Imm(stack_space), dst: Arg::Reg(Reg::RSP) },
                    );
                }
            },
            Instr::Add { src: Arg::Imm(val), dst: Arg::Reg(Reg::RSP) } => {
                if val == crate::x86::STACK_PLACEHOLDER {
                    block.instrs.set(
                        i,
                        Instr::Add { src: Arg::Imm(stack_space), dst: Arg::Reg(Reg::RSP) },
                    );
                }
            },
            _ => {},
        }
        i += 1;
    }
}


/// Whether every instruction of `code` refers to functions of the program
/// only.
pub open spec fn targets_known<'p>(
    code: Seq<Instr<'p, Arg>>,
    fns: Seq<(UniqueSym<'p>, FunPatched<'p>)>,
) -> bool {
    forall|i: int| 0 <= i < code.len() ==> target_known(#[trigger] code[i], fns)
}

/// Concludes the code of one block.
fn conclude_block<'p>(
    block: &Block<'p, Arg>,
    fns: &SymMap<'p, FunPatched<'p>>,
    fix: bool,
    frame: i32,
) -> (r: Result<Block<'p, Arg>, CompileError>)
    ensures
        match r {
            Ok(out) => targets_known(block.instrs@, fns@) && out.instrs@ == concluded_code(
                block.instrs@,
                fns@,
                fix,
                frame,
            ),
            Err(e) => !targets_known(block.instrs@, fns@) && e == CompileError::Unreachable,
        },
{
    let ghost code = block.instrs@;
    let mut instrs: Vec<Instr<'p, Arg>> = Vec::new();
    let mut i: usize = 0;
    while i < block.instrs.len()
        invariant
            i <= block.instrs@.len(),
            instrs@ == block.instrs@.take(i as int),
        decreases block.instrs@.len() - i,
    {
        instrs.push(block.instrs[i]);
        assert(instrs@ =~= block.instrs@.take(i + 1));
        i += 1;
    }
    assert(block.instrs@.take(i as int) =~= code);
    let mut out = Block { instrs };
    if fix {
        fix_stack_space(&mut out, frame);
    }
    let ghost fixed = out.instrs@;
    let mut i: usize = 0;
    while i < out.instrs.len()
        invariant
            i <= out.instrs@.len(),
            code == block.instrs@,
            out.instrs@.len() == code.len(),
            fixed.len() == code.len(),
            forall|k: int|
                0 <= k < code.len() ==> #[trigger] fixed[k] == (match code[k] {
                    Instr::Sub { src, dst } => if fix && is_frame_alloc(code[k]) {
                        Instr::Sub { src: Arg::Imm(frame), dst }
                    } else {
                        code[k]
                    },
                    Instr::Add { src, dst } => if fix && is_frame_release(code[k]) {
                        Instr::Add { src: Arg::Imm(frame), dst }
                    } else {
                        code[k]
                    },
                    _ => code[k],
                }),
            forall|k: int| i <= k < code.len() ==> out.instrs@[k] == fixed[k],
            forall|k: int| 0 <= k < i ==> target_known(#[trigger] code[k], fns@),
            forall|k: int|
                0 <= k < i ==> #[trigger] out.instrs@[k] == concluded_instr(
                    code[k],
                    fns@,
                    fix,
                    frame,
                ),
        decreases out.instrs@.len() - i,
    {
        let instr = out.instrs[i];
        assert(instr == fixed[i as int]);
        match instr {
            Instr::CallDirect { lbl, arity } => match fns.get(lbl.id) {
                Some(fun) => {
                    out.instrs.set(i, Instr::CallDirect { lbl: fun.entry, arity });
                },
                None => {
                    assert(!target_known(code[i as int], fns@));
                    return Err(CompileError::Unreachable);
                },
            },
            Instr::LoadLbl { lbl, dst } => match fns.get(lbl.id) {
                Some(fun) => {
                    out.instrs.set(i, Instr::LoadLbl { lbl: fun.entry, dst });
                },
                None => {
                    assert(!target_known(code[i as int], fns@));
                    return Err(CompileError::Unreachable);
                },
            },
            _ => {},
        }
        i += 1;
    }
    assert(out.instrs@ =~= concluded_code(code, fns@, fix, frame));
    Ok(out)
}

/// Whether the first `n` functions have the shape that `fun_shaped` asks for.
spec fn shaped_upto<'p>(fns: Seq<(UniqueSym<'p>, FunPatched<'p>)>, n: int) -> bool {
    forall|j: int| 0 <= j < n ==> fun_shaped((#[trigger] fns[j]).1, fns)
}

impl<'p> X86Patched<'p> {
    /// Turns the functions of the program into one collection of blocks
    /// and adds the block that runs the program, under a fresh label.
    ///
    /// A frame that is too large for an immediate is an
    /// `EncodingOverflow`; a function without entry or exit block, or a
    /// reference to a function that the program does not have, is
    /// `Unreachable`. The counter moves only if the program is concluded.
    pub fn conclude(self, counter: &mut SymCounter) -> (r: Result<X86Concluded<'p>, CompileError>)
        ensures
            match r {
                Ok(out) => {
                    &&& frames_fit(self.fns@)
                    &&& well_shaped(self)
                    &&& out.entry.id == old(counter).next
                    &&& out.entry.sym == "runtime"
                    &&& final(counter).next == next_id(old(counter).next)
                    &&& listing(out.blocks@) == stored(
                        with_fns(self.fns@, self.fns@.len() as int),
                        out.entry,
                        runtime_code(entry_of(self.fns@, self.entry.id)),
                    )
                },
                Err(e) => *final(counter) == *old(counter) && if !frames_fit(self.fns@) {
                    e == CompileError::EncodingOverflow
                } else {
                    !well_shaped(self) && e == CompileError::Unreachable
                },
            },
    {
        let n = self.fns.len();
        let mut j: usize = 0;
        while j < n
            invariant
                j <= n,
                n == self.fns@.len(),
                forall|k: int| 0 <= k < j ==> (#[trigger] self.fns@[k]).1.stack_space <= i32::MAX,
            decreases n - j,
        {
            if self.fns.value_at(j).stack_space > i32::MAX as usize {
                return Err(CompileError::EncodingOverflow);
            }
            j += 1;
        }
        let main = match self.fns.get(self.entry.id) {
            Some(fun) => fun.entry,
            None => {
                return Err(CompileError::Unreachable);
            },
        };
        let mut blocks: SymMap<'p, Block<'p, Arg>> = SymMap::new();
        assert(listing(blocks@) =~= with_fns(self.fns@, 0));
        let mut j: usize = 0;
        while j < n
            invariant
                j <= n,
                n == self.fns@.len(),
                frames_fit(self.fns@),
                shaped_upto(self.fns@, j as int),
                listing(blocks@) == with_fns(self.fns@, j as int),
                *counter == *old(counter),
            decreases n - j,
        {
            let fun = self.fns.value_at(j);
            if !fun.blocks.contains(fun.entry.id) || !fun.blocks.contains(fun.exit.id) {
                assert(!fun_shaped(self.fns@[j as int].1, self.fns@));
                return Err(CompileError::Unreachable);
            }
            let frame = fun.stack_space as i32;
            let m = fun.blocks.len();
            let ghost acc = listing(blocks@);
            let mut k: usize = 0;
            while k < m
                invariant
                    k <= m,
                    m == fun.blocks@.len(),
                    *fun == self.fns@[j as int].1,
                    j < n,
                    n == self.fns@.len(),
                    frames_fit(self.fns@),
                    frame == fun.stack_space as i32,
                    forall|b: int, i: int|
                        0 <= b < k && 0 <= i < fun.blocks@[b].1.instrs@.len() ==> target_known(
                            #[trigger] fun.blocks@[b].1.instrs@[i],
                            self.fns@,
                        ),
                    listing(blocks@) == with_blocks(acc, *fun, self.fns@, k as int),
                    *counter == *old(counter),
                decreases m - k,
            {
                let lbl = fun.blocks.key_at(k);
                let fix = lbl.id == fun.entry.id || lbl.id == fun.exit.id;
                let block = match conclude_block(fun.blocks.value_at(k), &self.fns, fix, frame) {
                    Ok(block) => block,
                    Err(e) => {
                        proof {
                            let code = fun.blocks@[k as int].1.instrs@;
                            let i = choose|i: int|
                                0 <= i < code.len() && !target_known(#[trigger] code[i], self.fns@);
                            assert(!target_known(fun.blocks@[k as int].1.instrs@[i], self.fns@));
                            assert(!fun_shaped(self.fns@[j as int].1, self.fns@));
                        }
                        return Err(e);
                    },
                };
                proof {
                    use_type_invariant(&blocks);
                    lemma_listing_stored(blocks@, lbl, block);
                }
                blocks.insert(lbl, block);
                k += 1;
            }
            assert(fun_shaped(self.fns@[j as int].1, self.fns@));
            j += 1;
        }
        let entry = gen_sym("runtime", counter);
        let mut instrs: Vec<Instr<'p, Arg>> = Vec::new();
        instrs.push(Instr::CallDirect { lbl: main, arity: 0 });
        instrs.push(Instr::Mov { src: Arg::Reg(Reg::RAX), dst: Arg::Reg(Reg::RDI) });
        instrs.push(Instr::Mov { src: Arg::Imm(SYSCALL_EXIT), dst: Arg::Reg(Reg::RAX) });
        instrs.push(Instr::Syscall { arity: 2 });
        let block = Block { instrs };
        assert(block.instrs@ =~= runtime_code(main));
        proof {
            use_type_invariant(&blocks);
            lemma_listing_stored(blocks@, entry, block);
        }
        blocks.insert(entry, block);
        Ok(X86Concluded { blocks, entry })
    }
}

} // verus!
