//! Explication of control: nested expressions become labelled blocks in
//! tail form.
//!
//! Every expression is lowered together with what is to happen to its
//! value: the tail that goes on once the value is bound to a variable.

use vstd::prelude::*;
use crate::error::CompileError;
use crate::language::{AExpr, ALVarProgram, Atom, Def, Op};
use crate::sym_map::{distinct_ids, has_id, lemma_mapped_stored, mapped, stored, SymMap};
use crate::symbol::{gen_sym, next_id, SymCounter, UniqueSym};
use crate::value::Lit;

verus! {

/// The right-hand side of a binding: no control flow, and atoms for
/// operands.
#[derive(Debug, PartialEq, Eq)]
pub enum CExpr<'p> {
    Atom { atm: Atom<'p> },
    Prim { op: Op, args: Vec<Atom<'p>> },
    Apply { fun: Atom<'p>, args: Vec<Atom<'p>> },
    FunRef { sym: UniqueSym<'p> },
}

/// What a [`CExpr`] is, with sequences in place of vectors.
pub enum CExprView<'p> {
    Atom { atm: Atom<'p> },
    Prim { op: Op, args: Seq<Atom<'p>> },
    Apply { fun: Atom<'p>, args: Seq<Atom<'p>> },
    FunRef { sym: UniqueSym<'p> },
}

impl<'p> View for CExpr<'p> {
    type V = CExprView<'p>;

    open spec fn view(&self) -> CExprView<'p> {
        match self {
            CExpr::Atom { atm } => CExprView::Atom { atm: *atm },
            CExpr::Prim { op, args } => CExprView::Prim { op: *op, args: args@ },
            CExpr::Apply { fun, args } => CExprView::Apply { fun: *fun, args: args@ },
            CExpr::FunRef { sym } => CExprView::FunRef { sym: *sym },
        }
    }
}

/// The body of a block: bindings, one after the other, and at their end a
/// return, a branch on an atom, or a jump. Control never nests.
#[derive(Debug, PartialEq, Eq)]
pub enum Tail<'p> {
    /// The value of `expr` is the result of the function.
    Return { expr: CExpr<'p> },
    /// `bnd` is evaluated and bound to `sym`; then `tail` goes on.
    Bind { sym: UniqueSym<'p>, bnd: CExpr<'p>, tail: Box<Tail<'p>> },
    /// Goes on at `thn` if `cnd` is true, and at `els` otherwise.
    IfStmt { cnd: Atom<'p>, thn: UniqueSym<'p>, els: UniqueSym<'p> },
    Goto { lbl: UniqueSym<'p> },
}

/// What a [`Tail`] is, with sequences in place of vectors.
pub enum TailView<'p> {
    Return { expr: CExprView<'p> },
    Bind { sym: UniqueSym<'p>, bnd: CExprView<'p>, tail: Box<TailView<'p>> },
    IfStmt { cnd: Atom<'p>, thn: UniqueSym<'p>, els: UniqueSym<'p> },
    Goto { lbl: UniqueSym<'p> },
}

impl<'p> Tail<'p> {
    /// What the tail is, with sequences in place of vectors.
    pub open spec fn model(self) -> TailView<'p>
        decreases self,
    {
        match self {
            Tail::Return { expr } => TailView::Return { expr: expr@ },
            Tail::Bind { sym, bnd, tail } => TailView::Bind {
                sym,
                bnd: bnd@,
                tail: Box::new((*tail).model()),
            },
            Tail::IfStmt { cnd, thn, els } => TailView::IfStmt { cnd, thn, els },
            Tail::Goto { lbl } => TailView::Goto { lbl },
        }
    }
}

impl<'p> View for Tail<'p> {
    type V = TailView<'p>;

    open spec fn view(&self) -> TailView<'p> {
        self.model()
    }
}

/// A function in tail form.
#[derive(Debug)]
pub struct FunExplicated<'p> {
    pub params: Vec<UniqueSym<'p>>,
    pub blocks: SymMap<'p, Tail<'p>>,
    /// The label of the block where the function starts.
    pub entry: UniqueSym<'p>,
}

/// A program in tail form.
#[derive(Debug)]
pub struct PrgExplicated<'p> {
    pub fns: SymMap<'p, FunExplicated<'p>>,
    pub entry: UniqueSym<'p>,
}

/// The right-hand sides of a program whose values are all scalars. With no
/// algebraic data types to take apart, these are the right-hand sides that
/// explication leaves.
pub type EExpr<'p> = CExpr<'p>;

/// A program whose values are all scalars.
pub type PrgEliminated<'p> = PrgExplicated<'p>;

/// The loop that an expression stands in: where `continue` goes, where
/// `break` goes, and the variable that `break` gives its value to.
#[derive(Clone, Copy, Debug)]
pub struct LoopCtx<'p> {
    pub header: UniqueSym<'p>,
    pub after: UniqueSym<'p>,
    pub result: UniqueSym<'p>,
}

/// Labelled tails.
pub type Blocks<'p> = Seq<(UniqueSym<'p>, TailView<'p>)>;

/// The right-hand side that `e` is, if it is without control flow.
pub open spec fn simple<'p>(e: AExpr<'p>) -> Option<CExprView<'p>> {
    match e {
        AExpr::Atom { atm } => Some(CExprView::Atom { atm }),
        AExpr::FunRef { sym } => Some(CExprView::FunRef { sym }),
        AExpr::Prim { op, args } => Some(CExprView::Prim { op, args: args@ }),
        AExpr::Apply { fun, args } => Some(CExprView::Apply { fun, args: args@ }),
        _ => None,
    }
}

/// The symbol with the hint `hint` that is made when the counter is at `id`.
pub open spec fn fresh<'p>(hint: &'p str, id: usize) -> UniqueSym<'p> {
    UniqueSym { sym: hint, id }
}

/// The atom for the unit value.
pub open spec fn unit<'p>() -> Atom<'p> {
    Atom::Val { val: Lit::Unit }
}

/// The tail that evaluates `e`, binds its value to `sym` and goes on with
/// `tail`; with it, the blocks that this takes besides `blocks`, and where
/// the counter is afterwards. `None` for a `break` or a `continue` outside
/// of a loop.
///
/// - A binding of `e2` in `e3` first binds `e2` and then evaluates `e3`.
/// - A conditional puts `tail` in a block of its own, where both branches
///   go once they have bound their value.
/// - A loop puts `tail` in a block of its own, where `break` goes. Its body
///   is a block that jumps back to its own start.
/// - `return` leaves `tail` aside.
/// - In a sequence, the value of the statement goes to a variable that
///   nothing reads.
/// - An assignment binds the variable, and its own value is unit.
pub open spec fn assigned<'p>(
    sym: UniqueSym<'p>,
    e: AExpr<'p>,
    tail: TailView<'p>,
    lp: Option<LoopCtx<'p>>,
    blocks: Blocks<'p>,
    next: usize,
) -> Option<(TailView<'p>, Blocks<'p>, usize)>
    decreases e, 0nat,
{
    match e {
        AExpr::Let { sym: s2, bnd, bdy } => match assigned(sym, *bdy, tail, lp, blocks, next) {
            Some((t1, b1, n1)) => assigned(s2, *bnd, t1, lp, b1, n1),
            None => None,
        },
        AExpr::If { cnd, thn, els } => {
            let join = fresh("join", next);
            let b0 = stored(blocks, join, tail);
            match assigned(sym, *thn, TailView::Goto { lbl: join }, lp, b0, next_id(next)) {
                Some((tt, b1, n1)) => match assigned(
                    sym,
                    *els,
                    TailView::Goto { lbl: join },
                    lp,
                    b1,
                    n1,
                ) {
                    Some((te, b2, n2)) => branched(*cnd, tt, te, lp, b2, n2),
                    None => None,
                },
                None => None,
            }
        },
        AExpr::Loop { bdy } => {
            let header = fresh("loop", next);
            let after = fresh("after", next_id(next));
            let unused = fresh("", next_id(next_id(next)));
            let b0 = stored(blocks, after, tail);
            match assigned(
                unused,
                *bdy,
                TailView::Goto { lbl: header },
                Some(LoopCtx { header, after, result: sym }),
                b0,
                next_id(next_id(next_id(next))),
            ) {
                Some((tb, b1, n1)) => Some(
                    (TailView::Goto { lbl: header }, stored(b1, header, tb), n1),
                ),
                None => None,
            }
        },
        AExpr::Break { bdy } => match lp {
            Some(l) => assigned(l.result, *bdy, TailView::Goto { lbl: l.after }, lp, blocks, next),
            None => None,
        },
        AExpr::Continue => match lp {
            Some(l) => Some((TailView::Goto { lbl: l.header }, blocks, next)),
            None => None,
        },
        AExpr::Return { bdy } => returned(*bdy, lp, blocks, next),
        AExpr::Sequence { stmt, cnt } => match assigned(sym, *cnt, tail, lp, blocks, next) {
            Some((t1, b1, n1)) => assigned(fresh("", n1), *stmt, t1, lp, b1, next_id(n1)),
            None => None,
        },
        AExpr::Assign { sym: s2, bnd } => assigned(
            s2,
            *bnd,
            TailView::Bind { sym, bnd: CExprView::Atom { atm: unit() }, tail: Box::new(tail) },
            lp,
            blocks,
            next,
        ),
        _ => Some((TailView::Bind { sym, bnd: simple(e)->Some_0, tail: Box::new(tail) }, blocks,
            next)),
    }
}

/// The tail that evaluates `e` and returns its value from the function.
pub open spec fn returned<'p>(
    e: AExpr<'p>,
    lp: Option<LoopCtx<'p>>,
    blocks: Blocks<'p>,
    next: usize,
) -> Option<(TailView<'p>, Blocks<'p>, usize)>
    decreases e, 1nat,
{
    match e {
        AExpr::Let { sym, bnd, bdy } => match returned(*bdy, lp, blocks, next) {
            Some((t1, b1, n1)) => assigned(sym, *bnd, t1, lp, b1, n1),
            None => None,
        },
        AExpr::If { cnd, thn, els } => match returned(*thn, lp, blocks, next) {
            Some((tt, b1, n1)) => match returned(*els, lp, b1, n1) {
                Some((te, b2, n2)) => branched(*cnd, tt, te, lp, b2, n2),
                None => None,
            },
            None => None,
        },
        AExpr::Return { bdy } => returned(*bdy, lp, blocks, next),
        AExpr::Sequence { stmt, cnt } => match returned(*cnt, lp, blocks, next) {
            Some((t1, b1, n1)) => assigned(fresh("", n1), *stmt, t1, lp, b1, next_id(n1)),
            None => None,
        },
        AExpr::Loop { .. } | AExpr::Break { .. } | AExpr::Continue | AExpr::Assign { .. } => {
            let tmp = fresh("", next);
            assigned(
                tmp,
                e,
                TailView::Return { expr: CExprView::Atom { atm: Atom::Var { sym: tmp } } },
                lp,
                blocks,
                next_id(next),
            )
        },
        _ => Some((TailView::Return { expr: simple(e)->Some_0 }, blocks, next)),
    }
}

/// The tail that evaluates `cnd` and goes on with `thn` if it is true and
/// with `els` otherwise. Both get a block of their own; the branch is on
/// an atom, to which `cnd` is bound first if it is none.
pub open spec fn branched<'p>(
    cnd: AExpr<'p>,
    thn: TailView<'p>,
    els: TailView<'p>,
    lp: Option<LoopCtx<'p>>,
    blocks: Blocks<'p>,
    next: usize,
) -> Option<(TailView<'p>, Blocks<'p>, usize)>
    decreases cnd, 1nat,
{
    let lt = fresh("thn", next);
    let le = fresh("els", next_id(next));
    let b0 = stored(stored(blocks, lt, thn), le, els);
    let n0 = next_id(next_id(next));
    match cnd {
        AExpr::Atom { atm } => Some((TailView::IfStmt { cnd: atm, thn: lt, els: le }, b0, n0)),
        _ => {
            let tmp = fresh("", n0);
            assigned(
                tmp,
                cnd,
                TailView::IfStmt { cnd: Atom::Var { sym: tmp }, thn: lt, els: le },
                lp,
                b0,
                next_id(n0),
            )
        },
    }
}


/// What the blocks `blocks` are, with sequences in place of vectors.
pub open spec fn tails<'p>(blocks: Seq<(UniqueSym<'p>, Tail<'p>)>) -> Blocks<'p> {
    mapped(blocks, |t: Tail<'p>| t.model())
}

/// A copy of `atoms`.
fn copy_atoms<'p>(atoms: &Vec<Atom<'p>>) -> (r: Vec<Atom<'p>>)
    ensures
        r@ == atoms@,
{
    let mut r: Vec<Atom<'p>> = Vec::new();
    let mut i: usize = 0;
    while i < atoms.len()
        invariant
            i <= atoms@.len(),
            r@ == atoms@.take(i as int),
        decreases atoms@.len() - i,
    {
        r.push(atoms[i]);
        assert(r@ =~= atoms@.take(i + 1));
        i += 1;
    }
    assert(atoms@.take(i as int) =~= atoms@);
    r
}

/// Computes [`simple`].
fn to_cexpr<'p>(e: &AExpr<'p>) -> (r: Option<CExpr<'p>>)
    ensures
        match r {
            Some(c) => simple(*e) == Some(c@),
            None => simple(*e) is None,
        },
{
    match e {
        AExpr::Atom { atm } => Some(CExpr::Atom { atm: *atm }),
        AExpr::FunRef { sym } => Some(CExpr::FunRef { sym: *sym }),
        AExpr::Prim { op, args } => Some(CExpr::Prim { op: *op, args: copy_atoms(args) }),
        AExpr::Apply { fun, args } => Some(CExpr::Apply { fun: *fun, args: copy_atoms(args) }),
        _ => None,
    }
}

/// Puts `tail` into the block `lbl`.
fn put<'p>(blocks: &mut SymMap<'p, Tail<'p>>, lbl: UniqueSym<'p>, tail: Tail<'p>)
    ensures
        tails(final(blocks)@) == stored(tails(old(blocks)@), lbl, tail@),
{
    proof {
        use_type_invariant(&*blocks);
        lemma_mapped_stored(blocks@, |t: Tail<'p>| t.model(), lbl, tail);
    }
    blocks.insert(lbl, tail);
}

/// Lowers `e` where its value is bound to `sym` and `tail` goes on:
/// see [`assigned`].
pub fn explicate_assign<'p>(
    sym: UniqueSym<'p>,
    e: &AExpr<'p>,
    tail: Tail<'p>,
    lp: Option<LoopCtx<'p>>,
    blocks: &mut SymMap<'p, Tail<'p>>,
    counter: &mut SymCounter,
) -> (r: Result<Tail<'p>, CompileError>)
    ensures
        match assigned(sym, *e, tail@, lp, tails(old(blocks)@), old(counter).next) {
            Some((t, b, n)) => r is Ok && r->Ok_0@ == t && tails(final(blocks)@) == b
                && final(counter).next == n,
            None => r == Err::<Tail<'p>, CompileError>(CompileError::Unreachable),
        },
    decreases e, 0nat,
{
    match e {
        AExpr::Let { sym: s2, bnd, bdy } => {
            let t1 = explicate_assign(sym, bdy, tail, lp, blocks, counter)?;
            explicate_assign(*s2, bnd, t1, lp, blocks, counter)
        },
        AExpr::If { cnd, thn, els } => {
            let join = gen_sym("join", counter);
            put(blocks, join, tail);
            let tt = explicate_assign(sym, thn, Tail::Goto { lbl: join }, lp, blocks, counter)?;
            let te = explicate_assign(sym, els, Tail::Goto { lbl: join }, lp, blocks, counter)?;
            explicate_pred(cnd, tt, te, lp, blocks, counter)
        },
        AExpr::Loop { bdy } => {
            let header = gen_sym("loop", counter);
            let after = gen_sym("after", counter);
            let unused = gen_sym("", counter);
            put(blocks, after, tail);
            let tb = explicate_assign(
                unused,
                bdy,
                Tail::Goto { lbl: header },
                Some(LoopCtx { header, after, result: sym }),
                blocks,
                counter,
            )?;
            put(blocks, header, tb);
            Ok(Tail::Goto { lbl: header })
        },
        AExpr::Break { bdy } => match lp {
            Some(l) => explicate_assign(
                l.result,
                bdy,
                Tail::Goto { lbl: l.after },
                lp,
                blocks,
                counter,
            ),
            None => Err(CompileError::Unreachable),
        },
        AExpr::Continue => match lp {
            Some(l) => Ok(Tail::Goto { lbl: l.header }),
            None => Err(CompileError::Unreachable),
        },
        AExpr::Return { bdy } => explicate_tail(bdy, lp, blocks, counter),
        AExpr::Sequence { stmt, cnt } => {
            let t1 = explicate_assign(sym, cnt, tail, lp, blocks, counter)?;
            let unused = gen_sym("", counter);
            explicate_assign(unused, stmt, t1, lp, blocks, counter)
        },
        AExpr::Assign { sym: s2, bnd } => explicate_assign(
            *s2,
            bnd,
            Tail::Bind {
                sym,
                bnd: CExpr::Atom { atm: Atom::Val { val: Lit::Unit } },
                tail: Box::new(tail),
            },
            lp,
            blocks,
            counter,
        ),
        AExpr::Atom { .. } | AExpr::FunRef { .. } | AExpr::Prim { .. } | AExpr::Apply { .. } => {
            match to_cexpr(e) {
                Some(bnd) => Ok(Tail::Bind { sym, bnd, tail: Box::new(tail) }),
                None => Err(CompileError::Unreachable),
            }
        },
    }
}

/// Lowers `e` where its value is the result of the function: see
/// [`returned`].
pub fn explicate_tail<'p>(
    e: &AExpr<'p>,
    lp: Option<LoopCtx<'p>>,
    blocks: &mut SymMap<'p, Tail<'p>>,
    counter: &mut SymCounter,
) -> (r: Result<Tail<'p>, CompileError>)
    ensures
        match returned(*e, lp, tails(old(blocks)@), old(counter).next) {
            Some((t, b, n)) => r is Ok && r->Ok_0@ == t && tails(final(blocks)@) == b
                && final(counter).next == n,
            None => r == Err::<Tail<'p>, CompileError>(CompileError::Unreachable),
        },
    decreases e, 1nat,
{
    match e {
        AExpr::Let { sym, bnd, bdy } => {
            let t1 = explicate_tail(bdy, lp, blocks, counter)?;
            explicate_assign(*sym, bnd, t1, lp, blocks, counter)
        },
        AExpr::If { cnd, thn, els } => {
            let tt = explicate_tail(thn, lp, blocks, counter)?;
            let te = explicate_tail(els, lp, blocks, counter)?;
            explicate_pred(cnd, tt, te, lp, blocks, counter)
        },
        AExpr::Return { bdy } => explicate_tail(bdy, lp, blocks, counter),
        AExpr::Sequence { stmt, cnt } => {
            let t1 = explicate_tail(cnt, lp, blocks, counter)?;
            let unused = gen_sym("", counter);
            explicate_assign(unused, stmt, t1, lp, blocks, counter)
        },
        AExpr::Loop { .. } | AExpr::Break { .. } | AExpr::Continue | AExpr::Assign { .. } => {
            let tmp = gen_sym("", counter);
            explicate_assign(
                tmp,
                e,
                Tail::Return { expr: CExpr::Atom { atm: Atom::Var { sym: tmp } } },
                lp,
                blocks,
                counter,
            )
        },
        AExpr::Atom { .. } | AExpr::FunRef { .. } | AExpr::Prim { .. } | AExpr::Apply { .. } => {
            match to_cexpr(e) {
                Some(expr) => Ok(Tail::Return { expr }),
                None => Err(CompileError::Unreachable),
            }
        },
    }
}

/// Lowers the condition `cnd` of a branch to `thn` or `els`: see
/// [`branched`].
pub fn explicate_pred<'p>(
    cnd: &AExpr<'p>,
    thn: Tail<'p>,
    els: Tail<'p>,
    lp: Option<LoopCtx<'p>>,
    blocks: &mut SymMap<'p, Tail<'p>>,
    counter: &mut SymCounter,
) -> (r: Result<Tail<'p>, CompileError>)
    ensures
        match branched(*cnd, thn@, els@, lp, tails(old(blocks)@), old(counter).next) {
            Some((t, b, n)) => r is Ok && r->Ok_0@ == t && tails(final(blocks)@) == b
                && final(counter).next == n,
            None => r == Err::<Tail<'p>, CompileError>(CompileError::Unreachable),
        },
    decreases cnd, 1nat,
{
    let lt = gen_sym("thn", counter);
    let le = gen_sym("els", counter);
    put(blocks, lt, thn);
    put(blocks, le, els);
    match cnd {
        AExpr::Atom { atm } => Ok(Tail::IfStmt { cnd: *atm, thn: lt, els: le }),
        _ => {
            let tmp = gen_sym("", counter);
            explicate_assign(
                tmp,
                cnd,
                Tail::IfStmt { cnd: Atom::Var { sym: tmp }, thn: lt, els: le },
                lp,
                blocks,
                counter,
            )
        },
    }
}


/// What explication makes of the function `def` when the counter is at
/// `next`: its blocks, the label of the block where it starts, and where
/// the counter is afterwards.
pub open spec fn explicated_def<'p>(def: Def<'p, AExpr<'p>>, next: usize) -> Option<
    (Blocks<'p>, UniqueSym<'p>, usize),
> {
    let entry = fresh("start", next);
    match returned(def.bdy, None, Seq::empty(), next_id(next)) {
        Some((t, b, n)) => Some((stored(b, entry, t), entry, n)),
        None => None,
    }
}

/// Where the counter is after the first `n` functions have been
/// explicated; `None` if one of them cannot be.
pub open spec fn explicated_upto<'p>(
    defs: Seq<(UniqueSym<'p>, Def<'p, AExpr<'p>>)>,
    n: int,
    next: usize,
) -> Option<usize>
    decreases n,
{
    if n <= 0 {
        Some(next)
    } else {
        match explicated_upto(defs, n - 1, next) {
            Some(before) => match explicated_def(defs[n - 1].1, before) {
                Some((_, _, after)) => Some(after),
                None => None,
            },
            None => None,
        }
    }
}

/// Explicates one function.
pub fn explicate_def<'p>(def: &Def<'p, AExpr<'p>>, counter: &mut SymCounter) -> (r: Result<
    FunExplicated<'p>,
    CompileError,
>)
    ensures
        match explicated_def(*def, old(counter).next) {
            Some((b, entry, n)) => r is Ok && tails(r->Ok_0.blocks@) == b && r->Ok_0.entry == entry
                && r->Ok_0.params@ == def.params@ && final(counter).next == n,
            None => r == Err::<FunExplicated<'p>, CompileError>(CompileError::Unreachable),
        },
{
    let entry = gen_sym("start", counter);
    let mut blocks: SymMap<'p, Tail<'p>> = SymMap::new();
    assert(tails(blocks@) =~= Seq::empty());
    let tail = match explicate_tail(&def.bdy, None, &mut blocks, counter) {
        Ok(tail) => tail,
        Err(e) => {
            return Err(e);
        },
    };
    put(&mut blocks, entry, tail);
    let mut params: Vec<UniqueSym<'p>> = Vec::new();
    let mut i: usize = 0;
    while i < def.params.len()
        invariant
            i <= def.params@.len(),
            params@ == def.params@.take(i as int),
        decreases def.params@.len() - i,
    {
        params.push(def.params[i]);
        assert(params@ =~= def.params@.take(i + 1));
        i += 1;
    }
    assert(def.params@.take(i as int) =~= def.params@);
    Ok(FunExplicated { params, blocks, entry })
}

impl<'p> ALVarProgram<'p> {
    /// Turns the body of every function into blocks in tail form.
    ///
    /// A `break` or a `continue` outside of a loop is `Unreachable`.
    pub fn explicate(self, counter: &mut SymCounter) -> (r: Result<PrgExplicated<'p>, CompileError>)
        ensures
            match r {
                Ok(out) => {
                    &&& out.entry == self.entry
                    &&& out.fns@.len() == self.defs@.len()
                    &&& explicated_upto(self.defs@, self.defs@.len() as int, old(counter).next)
                        == Some(final(counter).next)
                    &&& forall|j: int|
                        0 <= j < out.fns@.len() ==> (#[trigger] out.fns@[j]).0 == self.defs@[j].0
                            && out.fns@[j].1.params@ == self.defs@[j].1.params@ && explicated_upto(
                            self.defs@,
                            j,
                            old(counter).next,
                        ) is Some && explicated_def(
                            self.defs@[j].1,
                            explicated_upto(self.defs@, j, old(counter).next)->Some_0,
                        ) == Some(
                            (
                                tails(out.fns@[j].1.blocks@),
                                out.fns@[j].1.entry,
                                explicated_upto(self.defs@, j + 1, old(counter).next)->Some_0,
                            ),
                        )
                },
                Err(e) => e == CompileError::Unreachable && explicated_upto(
                    self.defs@,
                    self.defs@.len() as int,
                    old(counter).next,
                ) is None,
            },
    {
        let n = self.defs.len();
        let mut fns: SymMap<'p, FunExplicated<'p>> = SymMap::new();
        let mut j: usize = 0;
        while j < n
            invariant
                j <= n,
                n == self.defs@.len(),
                self.defs.wf(),
                fns@.len() == j,
                explicated_upto(self.defs@, j as int, old(counter).next) == Some(counter.next),
                forall|k: int|
                    0 <= k < j ==> (#[trigger] fns@[k]).0 == self.defs@[k].0 && fns@[k].1.params@
                        == self.defs@[k].1.params@ && explicated_upto(
                        self.defs@,
                        k,
                        old(counter).next,
                    ) is Some && explicated_def(
                        self.defs@[k].1,
                        explicated_upto(self.defs@, k, old(counter).next)->Some_0,
                    ) == Some(
                        (
                            tails(fns@[k].1.blocks@),
                            fns@[k].1.entry,
                            explicated_upto(self.defs@, k + 1, old(counter).next)->Some_0,
                        ),
                    ),
            decreases n - j,
        {
            let sym = self.defs.key_at(j);
            let fun = match explicate_def(self.defs.value_at(j), counter) {
                Ok(fun) => fun,
                Err(e) => {
                    proof {
                        lemma_explication_fails(
                            self.defs@,
                            j + 1,
                            n as int,
                            old(counter).next,
                        );
                    }
                    return Err(e);
                },
            };
            proof {
                if has_id(fns@, sym.id) {
                    let k = choose|k: int| 0 <= k < fns@.len() && #[trigger] fns@[k].0.id == sym.id;
                    assert(self.defs@[k].0.id != self.defs@[j as int].0.id);
                }
            }
            fns.insert(sym, fun);
            j += 1;
        }
        Ok(PrgExplicated { fns, entry: self.entry })
    }
}

proof fn lemma_explication_fails<'p>(
    defs: Seq<(UniqueSym<'p>, Def<'p, AExpr<'p>>)>,
    n: int,
    m: int,
    next: usize,
)
    requires
        n <= m,
        explicated_upto(defs, n, next) is None,
    ensures
        explicated_upto(defs, m, next) is None,
    decreases m - n,
{
    if n < m {
        lemma_explication_fails(defs, n, m - 1, next);
    }
}

} // verus!
