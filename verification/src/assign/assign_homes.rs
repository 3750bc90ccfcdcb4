//! Assignment of homes: every variable is replaced by the register or the
//! stack slot that its colour stands for.

use vstd::prelude::*;
use crate::assign::color::{
    color_graph,
    greedy,
    is_coloring,
    is_reg,
    is_reserved,
    lemma_reg_color,
    palette,
    reg_color,
    reserved,
    Coloring,
};
use crate::assign::compute_interference::{FunWithInterference, X86WithInterference};
use crate::assign::graph::{adjacent, nodes};
use crate::assign::live_set::Key;
use crate::error::CompileError;
use crate::sym_map::{has_id, SymMap};
use crate::symbol::UniqueSym;
use crate::x86::{Arg, Block, Instr, Reg, VarArg, STACK_PLACEHOLDER};

verus! {

/// A function whose operands are registers, immediates and memory.
#[derive(Debug)]
pub struct FunAssigned<'p> {
    pub blocks: SymMap<'p, Block<'p, Arg>>,
    pub entry: UniqueSym<'p>,
    pub exit: UniqueSym<'p>,
    /// The number of bytes that the function's frame takes below the saved
    /// base pointer.
    pub stack_space: usize,
}

/// A program whose operands are registers, immediates and memory.
#[derive(Debug)]
pub struct AX86Program<'p> {
    pub fns: SymMap<'p, FunAssigned<'p>>,
    pub entry: UniqueSym<'p>,
}

/// Whether the stack slot of the colour `c` can be addressed with a 32-bit
/// displacement.
pub open spec fn slot_fits(c: usize) -> bool {
    c < 13 || 8 * (c - 12) <= 0x8000_0000
}

/// The home that the colour `c` stands for: a register of the palette, or,
/// from the thirteenth colour on, a slot of eight bytes below the base
/// pointer.
pub open spec fn home_of_color(c: usize) -> Arg {
    if c < 13 {
        Arg::Reg(palette()[c as int])
    } else {
        Arg::Deref { reg: Reg::RBP, off: (-8 * (c - 12)) as i32 }
    }
}

/// The home of a node of the interference graph: a register is its own
/// home, and a variable has the home of its colour.
pub open spec fn home(k: Key, c: Map<Key, usize>) -> Arg {
    if is_reg(k) {
        Arg::Reg(Reg::numbered(k.1 as int))
    } else {
        home_of_color(c[k])
    }
}

/// Two nodes that interfere have different homes.
pub proof fn lemma_homes_differ(
    c: Map<Key, usize>,
    all: Set<Key>,
    edges: Set<(Key, Key)>,
    a: Key,
    b: Key,
)
    requires
        greedy(c, all, edges),
        edges.contains((a, b)),
        a != b,
        all.contains(a),
        all.contains(b),
        !is_reg(a) ==> slot_fits(c[a]),
        !is_reg(b) ==> slot_fits(c[b]),
    ensures
        home(a, c) != home(b, c),
{
    assert(c.dom().contains(a) <==> !is_reserved(a));
    assert(c.dom().contains(b) <==> !is_reserved(b));
    if is_reg(a) && is_reg(b) {
        assert(a.1 != b.1);
    } else if is_reg(a) {
        lemma_reg_home(a, c[b]);
    } else if is_reg(b) {
        lemma_reg_home(b, c[a]);
    } else {
        assert(c[a] != c[b]);
        lemma_color_homes(c[a], c[b]);
    }
}

proof fn lemma_color_homes(x: usize, y: usize)
    requires
        x != y,
        slot_fits(x),
        slot_fits(y),
    ensures
        home_of_color(x) != home_of_color(y),
{
    if x < 13 && y < 13 {
        assert(palette()[x as int] != palette()[y as int]);
    }
}

proof fn lemma_reg_home(r: Key, c: usize)
    requires
        is_reg(r),
    ensures
        home_of_color(c) == Arg::Reg(Reg::numbered(r.1 as int)) ==> c < 13
            && !reserved(r.1) && reg_color(r.1) == c,
{
    if c < 13 {
        lemma_reg_color(c as int);
    }
}

/// The number of bytes of a frame with `spills` stack slots, in a function
/// that saves `saved` registers on entry, the base pointer among them:
/// eight bytes for each slot, and eight more where that is needed to keep
/// the stack pointer a multiple of sixteen.
pub open spec fn frame_size(spills: int, saved: int) -> int {
    if (8 * spills + 8 * saved + 8) % 16 == 0 {
        8 * spills
    } else {
        8 * spills + 8
    }
}

/// A function that is entered with the stack pointer a multiple of sixteen
/// before the call has it a multiple of sixteen again once the return
/// address, the saved registers and the frame are on the stack.
pub proof fn lemma_stack_aligned(rsp: int, spills: int, saved: int)
    requires
        rsp % 16 == 0,
        spills >= 0,
        saved >= 0,
    ensures
        (frame_size(spills, saved) + 8 * saved + 8) % 16 == 0,
        (rsp - 8 - 8 * saved - frame_size(spills, saved)) % 16 == 0,
        8 * spills <= frame_size(spills, saved) <= 8 * spills + 8,
{
}

/// The operand `a` with a variable replaced by its home.
pub open spec fn arg_home<'p>(a: VarArg<'p>, c: Map<Key, usize>) -> Arg {
    match a {
        VarArg::Imm(val) => Arg::Imm(val),
        VarArg::Reg(reg) => Arg::Reg(reg),
        VarArg::Deref { reg, off } => Arg::Deref { reg, off },
        VarArg::XVar(sym) => home_of_color(c[(1u8, sym.id)]),
    }
}

/// Whether the operand `a`, if it is a variable, has a colour.
pub open spec fn arg_known<'p>(a: VarArg<'p>, c: Map<Key, usize>) -> bool {
    match a {
        VarArg::XVar(sym) => c.dom().contains((1u8, sym.id)),
        _ => true,
    }
}

/// Whether every variable that `instr` names has a colour.
pub open spec fn instr_known<'p>(instr: Instr<'p, VarArg<'p>>, c: Map<Key, usize>) -> bool {
    forall|k: int| 0 <= k < instr.args().len() ==> arg_known(#[trigger] instr.args()[k], c)
}

/// The instruction with every variable replaced by its home.
pub open spec fn instr_home<'p>(instr: Instr<'p, VarArg<'p>>, c: Map<Key, usize>) -> Instr<
    'p,
    Arg,
> {
    instr.map_args(|a: VarArg<'p>| arg_home(a, c))
}

/// Whether every variable has a colour whose home can be addressed.
pub open spec fn fits(c: Map<Key, usize>) -> bool {
    forall|k: Key| #[trigger] c.dom().contains(k) && !is_reg(k) ==> slot_fits(c[k])
}

/// Whether some variable has the colour `idx`.
pub open spec fn color_in_use(c: Map<Key, usize>, idx: usize) -> bool {
    exists|k: Key| #[trigger] c.dom().contains(k) && !is_reg(k) && c[k] == idx
}

/// Whether the variables take up `n` stack slots: no colour lies beyond
/// the `n`-th slot, and the `n`-th slot, if there is one, is in use.
pub open spec fn is_spill_count(c: Map<Key, usize>, n: int) -> bool {
    &&& n >= 0
    &&& forall|k: Key| #[trigger] c.dom().contains(k) && !is_reg(k) ==> c[k] < 13 + n
    &&& n > 0 ==> color_in_use(c, (12 + n) as usize)
}

/// The callee-saved registers among the first `n` of the palette that are
/// the home of a variable, in the order of the palette.
pub open spec fn saved_upto(c: Map<Key, usize>, n: int) -> Seq<Reg>
    decreases n,
{
    if n <= 8 {
        Seq::empty()
    } else if color_in_use(c, (n - 1) as usize) {
        saved_upto(c, n - 1).push(palette()[n - 1])
    } else {
        saved_upto(c, n - 1)
    }
}

/// The callee-saved registers that the function has to save because a
/// variable lives in them.
pub open spec fn saved_regs(c: Map<Key, usize>) -> Seq<Reg> {
    saved_upto(c, 13)
}

/// Whether `instr` is where the entry block makes room for the frame.
pub open spec fn is_frame_alloc<'p>(instr: Instr<'p, Arg>) -> bool {
    match instr {
        Instr::Sub { src, dst } => src == Arg::Imm(STACK_PLACEHOLDER) && dst == Arg::Reg(Reg::RSP),
        _ => false,
    }
}

/// Whether `instr` is where the exit block gives the frame back.
pub open spec fn is_frame_release<'p>(instr: Instr<'p, Arg>) -> bool {
    match instr {
        Instr::Add { src, dst } => src == Arg::Imm(STACK_PLACEHOLDER) && dst == Arg::Reg(Reg::RSP),
        _ => false,
    }
}

/// Pushes of the registers `saved`, in order.
pub open spec fn pushes<'p>(saved: Seq<Reg>) -> Seq<Instr<'p, Arg>> {
    Seq::new(saved.len(), |i: int| Instr::Push { src: Arg::Reg(saved[i]) })
}

/// Pops of the registers `saved`, last first.
pub open spec fn pops<'p>(saved: Seq<Reg>) -> Seq<Instr<'p, Arg>> {
    Seq::new(saved.len(), |i: int| Instr::Pop { dst: Arg::Reg(saved[saved.len() - 1 - i]) })
}

/// What becomes of the instruction `instr`: in the entry block, the
/// registers `saved` are pushed once the frame is there; in the exit block,
/// they are popped before the frame goes.
pub open spec fn saved_around<'p>(
    instr: Instr<'p, Arg>,
    entry: bool,
    exit: bool,
    saved: Seq<Reg>,
) -> Seq<Instr<'p, Arg>> {
    (if exit && is_frame_release(instr) {
        pops(saved)
    } else {
        Seq::empty()
    }).push(instr) + (if entry && is_frame_alloc(instr) {
        pushes(saved)
    } else {
        Seq::empty()
    })
}

/// The first `n` instructions of `code` with their variables replaced by
/// their homes, and with the saving and restoring of registers put in.
pub open spec fn assigned_code<'p>(
    code: Seq<Instr<'p, VarArg<'p>>>,
    c: Map<Key, usize>,
    entry: bool,
    exit: bool,
    n: int,
) -> Seq<Instr<'p, Arg>>
    decreases n,
{
    if n <= 0 {
        Seq::empty()
    } else {
        assigned_code(code, c, entry, exit, n - 1) + saved_around(
            instr_home(code[n - 1], c),
            entry,
            exit,
            saved_regs(c),
        )
    }
}

/// Whether every variable in the blocks has a colour.
pub open spec fn all_known<'p>(
    blocks: Seq<(UniqueSym<'p>, Block<'p, VarArg<'p>>)>,
    c: Map<Key, usize>,
) -> bool {
    forall|j: int, i: int|
        0 <= j < blocks.len() && 0 <= i < blocks[j].1.instrs@.len() ==> instr_known(
            #[trigger] blocks[j].1.instrs@[i],
            c,
        )
}

/// Whether `r` is what assigning homes to `fun` with the colouring `c`
/// gives.
///
/// A colour whose stack slot is out of reach is an `EncodingOverflow`; a
/// variable without a colour is `Unreachable`. Otherwise every block
/// keeps its label and has its code rewritten, and the frame has room for
/// the stack slots in use.
pub open spec fn is_assignment<'p>(
    fun: FunWithInterference<'p>,
    c: Map<Key, usize>,
    r: Result<FunAssigned<'p>, CompileError>,
) -> bool {
    match r {
        Err(e) => if !fits(c) {
            e == CompileError::EncodingOverflow
        } else {
            !all_known(fun.blocks@, c) && e == CompileError::Unreachable
        },
        Ok(out) => {
            &&& fits(c)
            &&& all_known(fun.blocks@, c)
            &&& out.entry == fun.entry
            &&& out.exit == fun.exit
            &&& exists|n: int|
                is_spill_count(c, n) && out.stack_space == #[trigger] frame_size(
                    n,
                    1 + saved_regs(c).len() as int,
                )
            &&& out.blocks@.len() == fun.blocks@.len()
            &&& forall|j: int|
                0 <= j < out.blocks@.len() ==> (#[trigger] out.blocks@[j]).0 == fun.blocks@[j].0
                    && out.blocks@[j].1.instrs@ == assigned_code(
                    fun.blocks@[j].1.instrs@,
                    c,
                    fun.blocks@[j].0.id == fun.entry.id,
                    fun.blocks@[j].0.id == fun.exit.id,
                    fun.blocks@[j].1.instrs@.len() as int,
                )
        },
    }
}


/// Computes the `c`-th register of [`palette`].
fn palette_reg(c: usize) -> (r: Reg)
    requires
        c < 13,
    ensures
        r == palette()[c as int],
{
    if c == 0 {
        Reg::RCX
    } else if c == 1 {
        Reg::RDX
    } else if c == 2 {
        Reg::RSI
    } else if c == 3 {
        Reg::RDI
    } else if c == 4 {
        Reg::R8
    } else if c == 5 {
        Reg::R9
    } else if c == 6 {
        Reg::R10
    } else if c == 7 {
        Reg::R11
    } else if c == 8 {
        Reg::RBX
    } else if c == 9 {
        Reg::R12
    } else if c == 10 {
        Reg::R13
    } else if c == 11 {
        Reg::R14
    } else {
        Reg::R15
    }
}

/// Computes [`home_of_color`].
fn home_for(c: usize) -> (r: Arg)
    requires
        slot_fits(c),
    ensures
        r == home_of_color(c),
{
    if c < 13 {
        Arg::Reg(palette_reg(c))
    } else {
        let slots: i64 = (c - 12) as i64;
        let off: i64 = -8 * slots;
        Arg::Deref { reg: Reg::RBP, off: off as i32 }
    }
}

/// Whether `k` is the key of a register.
fn key_is_reg(k: &Key) -> (b: bool)
    ensures
        b == is_reg(*k),
{
    k.0 == 0 && k.1 < 16
}

/// Goes through the colours of the variables: counts the stack slots in
/// use and collects the callee-saved registers in use.
fn summarize(coloring: &Coloring) -> (r: Result<(usize, Vec<Reg>), CompileError>)
    ensures
        match r {
            Ok((n, saved)) => fits(coloring@) && is_spill_count(coloring@, n as int) && saved@
                == saved_regs(coloring@) && n <= 0x1000_0000,
            Err(e) => !fits(coloring@) && e == CompileError::EncodingOverflow,
        },
{
    let ghost c = coloring@;
    let n = coloring.len();
    let ghost keys = coloring.nodes();
    let mut slots: usize = 0;
    let mut used: Vec<bool> = Vec::new();
    used.push(false);
    used.push(false);
    used.push(false);
    used.push(false);
    used.push(false);
    let mut i: usize = 0;
    while i < n
        invariant
            i <= n,
            n == keys.len(),
            keys == coloring.nodes(),
            c == coloring@,
            keys.to_set() == c.dom(),
            used@.len() == 5,
            slots <= 0x1000_0000,
            forall|t: int|
                0 <= t < i && !is_reg(#[trigger] keys[t]) ==> slot_fits(c[keys[t]]) && c[keys[t]]
                    < 13 + slots,
            slots > 0 ==> exists|t: int|
                0 <= t < i && !is_reg(#[trigger] keys[t]) && c[keys[t]] == 12 + slots,
            forall|idx: int|
                8 <= idx < 13 ==> (#[trigger] used@[idx - 8] <==> exists|t: int|
                    0 <= t < i && !is_reg(#[trigger] keys[t]) && c[keys[t]] == idx),
        decreases n - i,
    {
        let (k, color) = coloring.node_at(i);
        let ghost used0 = used@;
        if !key_is_reg(&k) {
            if color >= 13 {
                if color - 12 > 0x1000_0000 {
                    proof {
                        assert(c.dom().contains(k) && !is_reg(k) && !slot_fits(c[k]));
                    }
                    return Err(CompileError::EncodingOverflow);
                }
                if color - 12 > slots {
                    slots = color - 12;
                }
            } else if color >= 8 {
                used.set(color - 8, true);
            }
        }
        proof {
            assert forall|idx: int| 8 <= idx < 13 implies (#[trigger] used@[idx - 8] <==> exists|
                t: int,
            |
                0 <= t < i + 1 && !is_reg(#[trigger] keys[t]) && c[keys[t]] == idx) by {
                if used0[idx - 8] {
                    let t = choose|t: int|
                        0 <= t < i && !is_reg(#[trigger] keys[t]) && c[keys[t]] == idx;
                    assert(0 <= t < i + 1 && !is_reg(keys[t]) && c[keys[t]] == idx);
                }
                if exists|t: int|
                    0 <= t < i + 1 && !is_reg(#[trigger] keys[t]) && c[keys[t]] == idx {
                    let t = choose|t: int|
                        0 <= t < i + 1 && !is_reg(#[trigger] keys[t]) && c[keys[t]] == idx;
                    if t < i {
                        assert(used0[idx - 8]);
                    }
                }
                if !is_reg(k) && color == idx {
                    assert(!is_reg(keys[i as int]) && c[keys[i as int]] == idx);
                }
            }
            if slots > 0 {
                if !is_reg(k) && color == 12 + slots {
                    assert(!is_reg(keys[i as int]) && c[keys[i as int]] == 12 + slots);
                } else {
                    let t = choose|t: int|
                        0 <= t < i && !is_reg(#[trigger] keys[t]) && c[keys[t]] == 12 + slots;
                    assert(0 <= t < i + 1 && !is_reg(keys[t]) && c[keys[t]] == 12 + slots);
                }
            }
        }
        i += 1;
    }
    proof {
        assert forall|k: Key| #[trigger] c.dom().contains(k) && !is_reg(k) implies slot_fits(c[k])
            && c[k] < 13 + slots by {
            assert(keys.to_set().contains(k));
            let t = choose|t: int| 0 <= t < keys.len() && keys[t] == k;
            assert(!is_reg(keys[t]));
        }
        if slots > 0 {
            let t = choose|t: int|
                0 <= t < n && !is_reg(#[trigger] keys[t]) && c[keys[t]] == 12 + slots;
            assert(keys.to_set().contains(keys[t]));
            assert(color_in_use(c, (12 + slots) as usize));
        }
        assert forall|idx: int| 8 <= idx < 13 implies (#[trigger] used@[idx - 8] <==> color_in_use(
            c,
            idx as usize,
        )) by {
            if used@[idx - 8] {
                let t = choose|t: int|
                    0 <= t < n && !is_reg(#[trigger] keys[t]) && c[keys[t]] == idx;
                assert(keys.to_set().contains(keys[t]));
            }
            if color_in_use(c, idx as usize) {
                let k = choose|k: Key| #[trigger] c.dom().contains(k) && !is_reg(k) && c[k] == idx;
                assert(keys.to_set().contains(k));
                let t = choose|t: int| 0 <= t < keys.len() && keys[t] == k;
                assert(!is_reg(keys[t]) && c[keys[t]] == idx);
            }
        }
    }
    let mut saved: Vec<Reg> = Vec::new();
    let mut idx: usize = 8;
    while idx < 13
        invariant
            8 <= idx <= 13,
            used@.len() == 5,
            saved@ == saved_upto(c, idx as int),
            forall|x: int| 8 <= x < 13 ==> (#[trigger] used@[x - 8]
                <==> color_in_use(c, x as usize)),
        decreases 13 - idx,
    {
        assert(used@[(idx as int) - 8] <==> color_in_use(c, idx));
        if used[idx - 8] {
            saved.push(palette_reg(idx));
        }
        idx += 1;
    }
    Ok((slots, saved))
}

/// Computes [`frame_size`].
fn frame_bytes(spills: usize, saved: usize) -> (r: usize)
    requires
        spills <= 0x1000_0000,
        saved <= 16,
    ensures
        r == frame_size(spills as int, saved as int),
{
    let raw = 8 * spills;
    if (raw + 8 * saved + 8) % 16 == 0 {
        raw
    } else {
        raw + 8
    }
}

/// Replaces a variable by its home.
fn operand_home<'p>(a: &VarArg<'p>, coloring: &Coloring) -> (r: Result<Arg, CompileError>)
    requires
        fits(coloring@),
    ensures
        match r {
            Ok(home) => arg_known(*a, coloring@) && home == arg_home(*a, coloring@),
            Err(e) => !arg_known(*a, coloring@) && e == CompileError::Unreachable,
        },
{
    match a {
        VarArg::Imm(val) => Ok(Arg::Imm(*val)),
        VarArg::Reg(reg) => Ok(Arg::Reg(*reg)),
        VarArg::Deref { reg, off } => Ok(Arg::Deref { reg: *reg, off: *off }),
        VarArg::XVar(sym) => match coloring.get((1u8, sym.id)) {
            Some(c) => Ok(home_for(c)),
            None => Err(CompileError::Unreachable),
        },
    }
}


/// Replaces every variable in `instr` by its home.
fn instr_with_homes<'p>(instr: &Instr<'p, VarArg<'p>>, coloring: &Coloring) -> (r: Result<
    Instr<'p, Arg>,
    CompileError,
>)
    requires
        fits(coloring@),
    ensures
        match r {
            Ok(out) => instr_known(*instr, coloring@) && out == instr_home(*instr, coloring@),
            Err(e) => !instr_known(*instr, coloring@) && e == CompileError::Unreachable,
        },
{
    let ghost args = instr.args();
    match instr {
        Instr::Add { src, dst } => {
            assert(args[0] == *src && args[1] == *dst);
            let src = operand_home(src, coloring)?;
            let dst = operand_home(dst, coloring)?;
            Ok(Instr::Add { src, dst })
        },
        Instr::Sub { src, dst } => {
            assert(args[0] == *src && args[1] == *dst);
            let src = operand_home(src, coloring)?;
            let dst = operand_home(dst, coloring)?;
            Ok(Instr::Sub { src, dst })
        },
        Instr::And { src, dst } => {
            assert(args[0] == *src && args[1] == *dst);
            let src = operand_home(src, coloring)?;
            let dst = operand_home(dst, coloring)?;
            Ok(Instr::And { src, dst })
        },
        Instr::Or { src, dst } => {
            assert(args[0] == *src && args[1] == *dst);
            let src = operand_home(src, coloring)?;
            let dst = operand_home(dst, coloring)?;
            Ok(Instr::Or { src, dst })
        },
        Instr::Xor { src, dst } => {
            assert(args[0] == *src && args[1] == *dst);
            let src = operand_home(src, coloring)?;
            let dst = operand_home(dst, coloring)?;
            Ok(Instr::Xor { src, dst })
        },
        Instr::Cmp { src, dst } => {
            assert(args[0] == *src && args[1] == *dst);
            let src = operand_home(src, coloring)?;
            let dst = operand_home(dst, coloring)?;
            Ok(Instr::Cmp { src, dst })
        },
        Instr::Mov { src, dst } => {
            assert(args[0] == *src && args[1] == *dst);
            let src = operand_home(src, coloring)?;
            let dst = operand_home(dst, coloring)?;
            Ok(Instr::Mov { src, dst })
        },
        Instr::Push { src } => {
            assert(args[0] == *src);
            Ok(Instr::Push { src: operand_home(src, coloring)? })
        },
        Instr::Pop { dst } => {
            assert(args[0] == *dst);
            Ok(Instr::Pop { dst: operand_home(dst, coloring)? })
        },
        Instr::Neg { dst } => {
            assert(args[0] == *dst);
            Ok(Instr::Neg { dst: operand_home(dst, coloring)? })
        },
        Instr::Not { dst } => {
            assert(args[0] == *dst);
            Ok(Instr::Not { dst: operand_home(dst, coloring)? })
        },
        Instr::Mul { src } => {
            assert(args[0] == *src);
            Ok(Instr::Mul { src: operand_home(src, coloring)? })
        },
        Instr::Div { divisor } => {
            assert(args[0] == *divisor);
            Ok(Instr::Div { divisor: operand_home(divisor, coloring)? })
        },
        Instr::Jmp { lbl } => Ok(Instr::Jmp { lbl: *lbl }),
        Instr::Jcc { lbl, cnd } => Ok(Instr::Jcc { lbl: *lbl, cnd: *cnd }),
        Instr::Setcc { cnd } => Ok(Instr::Setcc { cnd: *cnd }),
        Instr::LoadLbl { lbl, dst } => {
            assert(args[0] == *dst);
            Ok(Instr::LoadLbl { lbl: *lbl, dst: operand_home(dst, coloring)? })
        },
        Instr::CallDirect { lbl, arity } => Ok(Instr::CallDirect { lbl: *lbl, arity: *arity }),
        Instr::CallIndirect { src, arity } => {
            assert(args[0] == *src);
            Ok(Instr::CallIndirect { src: operand_home(src, coloring)?, arity: *arity })
        },
        Instr::Syscall { arity } => Ok(Instr::Syscall { arity: *arity }),
        Instr::Ret => Ok(Instr::Ret),
    }
}

/// Whether every variable in the first `n` instructions has a colour.
spec fn known_upto<'p>(code: Seq<Instr<'p, VarArg<'p>>>, c: Map<Key, usize>, n: int) -> bool {
    forall|i: int| 0 <= i < n ==> instr_known(#[trigger] code[i], c)
}

/// Rewrites the code of one block.
fn block_with_homes<'p>(
    block: &Block<'p, VarArg<'p>>,
    coloring: &Coloring,
    saved: &Vec<Reg>,
    entry: bool,
    exit: bool,
) -> (r: Result<Block<'p, Arg>, CompileError>)
    requires
        fits(coloring@),
        saved@ == saved_regs(coloring@),
    ensures
        match r {
            Ok(out) => known_upto(block.instrs@, coloring@, block.instrs@.len() as int)
                && out.instrs@ == assigned_code(
                block.instrs@,
                coloring@,
                entry,
                exit,
                block.instrs@.len() as int,
            ),
            Err(e) => !known_upto(block.instrs@, coloring@, block.instrs@.len() as int) && e
                == CompileError::Unreachable,
        },
{
    let ghost c = coloring@;
    let ghost code = block.instrs@;
    let mut out: Vec<Instr<'p, Arg>> = Vec::new();
    let mut i: usize = 0;
    while i < block.instrs.len()
        invariant
            i <= block.instrs@.len(),
            code == block.instrs@,
            c == coloring@,
            fits(c),
            saved@ == saved_regs(c),
            known_upto(code, c, i as int),
            out@ == assigned_code(code, c, entry, exit, i as int),
        decreases block.instrs@.len() - i,
    {
        let instr = match instr_with_homes(&block.instrs[i], coloring) {
            Ok(instr) => instr,
            Err(e) => {
                return Err(e);
            },
        };
        let ghost before = out@;
        let release = match instr {
            Instr::Add { src: Arg::Imm(val), dst: Arg::Reg(Reg::RSP) } => val == STACK_PLACEHOLDER,
            _ => false,
        };
        let alloc = match instr {
            Instr::Sub { src: Arg::Imm(val), dst: Arg::Reg(Reg::RSP) } => val == STACK_PLACEHOLDER,
            _ => false,
        };
        assert(release == is_frame_release(instr));
        assert(alloc == is_frame_alloc(instr));
        if exit && release {
            let mut k: usize = saved.len();
            while k > 0
                invariant
                    k <= saved@.len(),
                    out@ == before + pops(saved@).take(saved@.len() - k),
                decreases k,
            {
                k -= 1;
                out.push(Instr::Pop { dst: Arg::Reg(saved[k]) });
                assert(out@ =~= before + pops(saved@).take(saved@.len() - k));
            }
            assert(pops(saved@).take(saved@.len() as int) =~= pops(saved@));
        }
        out.push(instr);
        let ghost middle = out@;
        if entry && alloc {
            let mut k: usize = 0;
            while k < saved.len()
                invariant
                    k <= saved@.len(),
                    out@ == middle + pushes(saved@).take(k as int),
                decreases saved@.len() - k,
            {
                out.push(Instr::Push { src: Arg::Reg(saved[k]) });
                assert(out@ =~= middle + pushes(saved@).take(k + 1));
                k += 1;
            }
            assert(pushes(saved@).take(saved@.len() as int) =~= pushes(saved@));
        }
        assert(out@ =~= before + saved_around(instr, entry, exit, saved@));
        i += 1;
    }
    Ok(Block { instrs: out })
}

/// Replaces the variables of `fun` by the homes that `coloring` gives
/// them, makes the function save the callee-saved registers it uses, and
/// works out the size of its frame.
pub fn apply_homes<'p>(fun: &FunWithInterference<'p>, coloring: &Coloring) -> (r: Result<
    FunAssigned<'p>,
    CompileError,
>)
    ensures
        is_assignment(*fun, coloring@, r),
{
    let ghost c = coloring@;
    let (slots, saved) = match summarize(coloring) {
        Ok(summary) => summary,
        Err(e) => {
            return Err(e);
        },
    };
    proof {
        lemma_saved_len(c, 13);
    }
    let stack_space = frame_bytes(slots, 1 + saved.len());
    let n = fun.blocks.len();
    let mut blocks: SymMap<'p, Block<'p, Arg>> = SymMap::new();
    let mut j: usize = 0;
    while j < n
        invariant
            j <= n,
            n == fun.blocks@.len(),
            fun.blocks.wf(),
            c == coloring@,
            fits(c),
            saved@ == saved_regs(c),
            blocks@.len() == j,
            forall|k: int, i: int|
                0 <= k < j && 0 <= i < fun.blocks@[k].1.instrs@.len() ==> instr_known(
                    #[trigger] fun.blocks@[k].1.instrs@[i],
                    c,
                ),
            forall|k: int|
                0 <= k < j ==> (#[trigger] blocks@[k]).0 == fun.blocks@[k].0
                    && blocks@[k].1.instrs@ == assigned_code(
                    fun.blocks@[k].1.instrs@,
                    c,
                    fun.blocks@[k].0.id == fun.entry.id,
                    fun.blocks@[k].0.id == fun.exit.id,
                    fun.blocks@[k].1.instrs@.len() as int,
                ),
        decreases n - j,
    {
        let lbl = fun.blocks.key_at(j);
        let block = match block_with_homes(
            fun.blocks.value_at(j),
            coloring,
            &saved,
            lbl.id == fun.entry.id,
            lbl.id == fun.exit.id,
        ) {
            Ok(block) => block,
            Err(e) => {
                proof {
                    let code = fun.blocks@[j as int].1.instrs@;
                    let i = choose|i: int| 0 <= i < code.len()
                        && !instr_known(#[trigger] code[i], c);
                    assert(!instr_known(fun.blocks@[j as int].1.instrs@[i], c));
                }
                return Err(e);
            },
        };
        proof {
            if has_id(blocks@, lbl.id) {
                let k = choose|k: int|
                    0 <= k < blocks@.len() && #[trigger] blocks@[k].0.id == lbl.id;
                assert(fun.blocks@[k].0.id != fun.blocks@[j as int].0.id);
            }
        }
        blocks.insert(lbl, block);
        j += 1;
    }
    let out = FunAssigned { blocks, entry: fun.entry, exit: fun.exit, stack_space };
    proof {
        assert(is_spill_count(c, slots as int) && out.stack_space == frame_size(
            slots as int,
            1 + saved_regs(c).len() as int,
        ));
    }
    Ok(out)
}

proof fn lemma_saved_len(c: Map<Key, usize>, n: int)
    requires
        8 <= n <= 13,
    ensures
        saved_upto(c, n).len() <= n - 8,
    decreases n,
{
    if n > 8 {
        lemma_saved_len(c, n - 1);
    }
}

impl<'p> FunWithInterference<'p> {
    /// Colours the interference graph and gives every variable the home of
    /// its colour.
    pub fn assign_homes(&self) -> (r: Result<FunAssigned<'p>, CompileError>)
        ensures
            exists|c: Map<Key, usize>, order: Seq<Key>|
                #[trigger] is_coloring(
                    c,
                    order,
                    nodes(self.interference),
                    adjacent(self.interference),
                ) && is_assignment(*self, c, r),
    {
        let coloring = color_graph(&self.interference);
        let r = apply_homes(self, &coloring);
        assert(is_coloring(
            coloring@,
            coloring.nodes(),
            nodes(self.interference),
            adjacent(self.interference),
        ) && is_assignment(*self, coloring@, r));
        r
    }
}

impl<'p> X86WithInterference<'p> {
    /// Assigns homes in every function. The first function that cannot be
    /// dealt with decides the error.
    pub fn assign_homes(self) -> (r: Result<AX86Program<'p>, CompileError>)
        ensures
            match r {
                Ok(out) => out.entry == self.entry && out.fns@.len() == self.fns@.len() && forall|
                    j: int,
                |
                    0 <= j < out.fns@.len() ==> (#[trigger] out.fns@[j]).0 == self.fns@[j].0
                        && exists|c: Map<Key, usize>, order: Seq<Key>|
                        #[trigger] is_coloring(
                            c,
                            order,
                            nodes(self.fns@[j].1.interference),
                            adjacent(self.fns@[j].1.interference),
                        ) && is_assignment(
                            self.fns@[j].1,
                            c,
                            Ok::<FunAssigned<'p>, CompileError>(out.fns@[j].1),
                        ),
                Err(e) => exists|j: int, c: Map<Key, usize>, order: Seq<Key>|
                    0 <= j < self.fns@.len() && #[trigger] is_coloring(
                        c,
                        order,
                        nodes(self.fns@[j].1.interference),
                        adjacent(self.fns@[j].1.interference),
                    ) && is_assignment(
                        self.fns@[j].1,
                        c,
                        Err::<FunAssigned<'p>, CompileError>(e),
                    ),
            },
    {
        let n = self.fns.len();
        let mut fns: SymMap<'p, FunAssigned<'p>> = SymMap::new();
        let mut j: usize = 0;
        while j < n
            invariant
                j <= n,
                n == self.fns@.len(),
                self.fns.wf(),
                fns@.len() == j,
                forall|k: int|
                    0 <= k < j ==> (#[trigger] fns@[k]).0 == self.fns@[k].0 && exists|
                        c: Map<Key, usize>,
                        order: Seq<Key>,
                    |
                        #[trigger] is_coloring(
                            c,
                            order,
                            nodes(self.fns@[k].1.interference),
                            adjacent(self.fns@[k].1.interference),
                        ) && is_assignment(
                            self.fns@[k].1,
                            c,
                            Ok::<FunAssigned<'p>, CompileError>(fns@[k].1),
                        ),
            decreases n - j,
        {
            let sym = self.fns.key_at(j);
            let fun = match self.fns.value_at(j).assign_homes() {
                Ok(fun) => fun,
                Err(e) => {
                    return Err(e);
                },
            };
            proof {
                if has_id(fns@, sym.id) {
                    let k = choose|k: int| 0 <= k < fns@.len() && #[trigger] fns@[k].0.id == sym.id;
                    assert(self.fns@[k].0.id != self.fns@[j as int].0.id);
                }
            }
            fns.insert(sym, fun);
            j += 1;
        }
        Ok(AX86Program { fns, entry: self.entry })
    }
}

} // verus!
