//! Atomization: the operands of primitive operations and calls become
//! atoms.
//!
//! An operand that is not an atom is bound to a fresh variable just before
//! the operation, in the order of the operands, so that everything is
//! still evaluated in the order in which it was written.

use vstd::prelude::*;
use crate::language::{AExpr, AExprView, ALVarProgram, Atom, Def, PrgRevealed, RExpr, ULVarProgram};
use crate::sym_map::{has_id, SymMap};
use crate::symbol::{gen_sym, next_id, SymCounter, UniqueSym};

verus! {

/// A variable that atomization introduces, and what it is bound to.
pub type Extra<'p> = (UniqueSym<'p>, AExprView<'p>);

/// The variable that atomization introduces when the counter is at `id`.
pub open spec fn temp<'p>(id: usize) -> UniqueSym<'p> {
    UniqueSym { sym: "", id }
}

/// `body` inside the bindings `extras`, the first of them outermost.
pub open spec fn with_lets<'p>(extras: Seq<Extra<'p>>, body: AExprView<'p>) -> AExprView<'p>
    decreases extras.len(),
{
    if extras.len() == 0 {
        body
    } else {
        with_lets(
            extras.drop_last(),
            AExprView::Let {
                sym: extras.last().0,
                bnd: Box::new(extras.last().1),
                bdy: Box::new(body),
            },
        )
    }
}

/// What atomization makes of the expression `e` when the counter is at
/// `next`, and where the counter is afterwards.
pub open spec fn atomized<'p>(e: RExpr<'p>, next: usize) -> (AExprView<'p>, usize)
    decreases e, 0nat,
{
    match e {
        RExpr::Lit { val } => (AExprView::Atom { atm: Atom::Val { val } }, next),
        RExpr::Var { sym } => (AExprView::Atom { atm: Atom::Var { sym } }, next),
        RExpr::FunRef { sym } => (AExprView::FunRef { sym }, next),
        RExpr::Prim { op, args } => {
            let (atoms, extras, after) = atomized_args(args@, args@.len() as int, next);
            (with_lets(extras, AExprView::Prim { op, args: atoms }), after)
        },
        RExpr::Apply { fun, args } => {
            let (f, first, n1) = atomized_atom(*fun, next);
            let (atoms, extras, n2) = atomized_args(args@, args@.len() as int, n1);
            (with_lets(first + extras, AExprView::Apply { fun: f, args: atoms }), n2)
        },
        RExpr::Let { sym, bnd, bdy } => {
            let (b, n1) = atomized(*bnd, next);
            let (d, n2) = atomized(*bdy, n1);
            (AExprView::Let { sym, bnd: Box::new(b), bdy: Box::new(d) }, n2)
        },
        RExpr::If { cnd, thn, els } => {
            let (c, n1) = atomized(*cnd, next);
            let (t, n2) = atomized(*thn, n1);
            let (e, n3) = atomized(*els, n2);
            (AExprView::If { cnd: Box::new(c), thn: Box::new(t), els: Box::new(e) }, n3)
        },
        RExpr::Loop { bdy } => {
            let (b, n1) = atomized(*bdy, next);
            (AExprView::Loop { bdy: Box::new(b) }, n1)
        },
        RExpr::Break { bdy } => {
            let (b, n1) = atomized(*bdy, next);
            (AExprView::Break { bdy: Box::new(b) }, n1)
        },
        RExpr::Continue => (AExprView::Continue, next),
        RExpr::Return { bdy } => {
            let (b, n1) = atomized(*bdy, next);
            (AExprView::Return { bdy: Box::new(b) }, n1)
        },
        RExpr::Sequence { stmt, cnt } => {
            let (s, n1) = atomized(*stmt, next);
            let (c, n2) = atomized(*cnt, n1);
            (AExprView::Sequence { stmt: Box::new(s), cnt: Box::new(c) }, n2)
        },
        RExpr::Assign { sym, bnd } => {
            let (b, n1) = atomized(*bnd, next);
            (AExprView::Assign { sym, bnd: Box::new(b) }, n1)
        },
    }
}

/// The atom that stands for the operand `e`, and the binding that it needs
/// if `e` is no atom itself: a fresh variable, bound to what atomization
/// makes of `e`.
pub open spec fn atomized_atom<'p>(e: RExpr<'p>, next: usize) -> (Atom<'p>, Seq<Extra<'p>>, usize)
    decreases e, 1nat,
{
    match e {
        RExpr::Lit { val } => (Atom::Val { val }, Seq::empty(), next),
        RExpr::Var { sym } => (Atom::Var { sym }, Seq::empty(), next),
        _ => {
            let (bnd, after) = atomized(e, next_id(next));
            (Atom::Var { sym: temp(next) }, seq![(temp(next), bnd)], after)
        },
    }
}

/// The atoms that stand for the first `n` operands `args`, and the
/// bindings that they need, from left to right.
pub open spec fn atomized_args<'p>(args: Seq<RExpr<'p>>, n: int, next: usize) -> (
    Seq<Atom<'p>>,
    Seq<Extra<'p>>,
    usize,
)
    decreases args, n,
{
    if n <= 0 || n > args.len() {
        (Seq::empty(), Seq::empty(), next)
    } else {
        let (atoms, extras, n1) = atomized_args(args, n - 1, next);
        let (atom, extra, n2) = atomized_atom(args[n - 1], n1);
        (atoms.push(atom), extras + extra, n2)
    }
}

/// What the bindings `extras` are, with sequences in place of vectors.
pub open spec fn extras_view<'p>(extras: Seq<(UniqueSym<'p>, AExpr<'p>)>) -> Seq<Extra<'p>> {
    Seq::new(extras.len(), |i: int| (extras[i].0, extras[i].1@))
}

/// Puts `body` inside the bindings `extras`, the first of them outermost.
fn wrap_lets<'p>(extras: Vec<(UniqueSym<'p>, AExpr<'p>)>, body: AExpr<'p>) -> (r: AExpr<'p>)
    ensures
        r@ == with_lets(extras_view(extras@), body@),
{
    let mut extras = extras;
    let mut body = body;
    let ghost goal = with_lets(extras_view(extras@), body@);
    while extras.len() > 0
        invariant
            with_lets(extras_view(extras@), body@) == goal,
        decreases extras@.len(),
    {
        let ghost before = extras@;
        let (sym, bnd) = extras.pop().unwrap();
        proof {
            assert(extras_view(before).drop_last() =~= extras_view(extras@));
            assert(extras_view(before).last() == (sym, bnd@));
        }
        body = AExpr::Let { sym, bnd: Box::new(bnd), bdy: Box::new(body) };
    }
    body
}

/// Atomizes the expression `expr`.
pub fn rco_expr<'p>(expr: &RExpr<'p>, counter: &mut SymCounter) -> (r: AExpr<'p>)
    ensures
        (r@, final(counter).next) == atomized(*expr, old(counter).next),
    decreases expr, 0nat,
{
    match expr {
        RExpr::Lit { val } => AExpr::Atom { atm: Atom::Val { val: *val } },
        RExpr::Var { sym } => AExpr::Atom { atm: Atom::Var { sym: *sym } },
        RExpr::FunRef { sym } => AExpr::FunRef { sym: *sym },
        RExpr::Prim { op, args } => {
            let mut extras: Vec<(UniqueSym<'p>, AExpr<'p>)> = Vec::new();
            let atoms = rco_args(args, &mut extras, counter);
            wrap_lets(extras, AExpr::Prim { op: *op, args: atoms })
        },
        RExpr::Apply { fun, args } => {
            let mut extras: Vec<(UniqueSym<'p>, AExpr<'p>)> = Vec::new();
            let f = rco_atom(fun, &mut extras, counter);
            let atoms = rco_args(args, &mut extras, counter);
            wrap_lets(extras, AExpr::Apply { fun: f, args: atoms })
        },
        RExpr::Let { sym, bnd, bdy } => {
            let bnd = rco_expr(bnd, counter);
            let bdy = rco_expr(bdy, counter);
            AExpr::Let { sym: *sym, bnd: Box::new(bnd), bdy: Box::new(bdy) }
        },
        RExpr::If { cnd, thn, els } => {
            let cnd = rco_expr(cnd, counter);
            let thn = rco_expr(thn, counter);
            let els = rco_expr(els, counter);
            AExpr::If { cnd: Box::new(cnd), thn: Box::new(thn), els: Box::new(els) }
        },
        RExpr::Loop { bdy } => AExpr::Loop { bdy: Box::new(rco_expr(bdy, counter)) },
        RExpr::Break { bdy } => AExpr::Break { bdy: Box::new(rco_expr(bdy, counter)) },
        RExpr::Continue => AExpr::Continue,
        RExpr::Return { bdy } => AExpr::Return { bdy: Box::new(rco_expr(bdy, counter)) },
        RExpr::Sequence { stmt, cnt } => {
            let stmt = rco_expr(stmt, counter);
            let cnt = rco_expr(cnt, counter);
            AExpr::Sequence { stmt: Box::new(stmt), cnt: Box::new(cnt) }
        },
        RExpr::Assign { sym, bnd } => AExpr::Assign {
            sym: *sym,
            bnd: Box::new(rco_expr(bnd, counter)),
        },
    }
}

/// Makes an atom of the operand `expr`; the binding that this takes, if any,
/// goes to the end of `extras`.
fn rco_atom<'p>(
    expr: &RExpr<'p>,
    extras: &mut Vec<(UniqueSym<'p>, AExpr<'p>)>,
    counter: &mut SymCounter,
) -> (r: Atom<'p>)
    ensures
        (r, extras_view(final(extras)@), final(counter).next) == (
            atomized_atom(*expr, old(counter).next).0,
            extras_view(old(extras)@) + atomized_atom(*expr, old(counter).next).1,
            atomized_atom(*expr, old(counter).next).2,
        ),
    decreases expr, 1nat,
{
    match expr {
        RExpr::Lit { val } => {
            assert(extras_view(extras@) + Seq::<Extra<'p>>::empty() =~= extras_view(extras@));
            Atom::Val { val: *val }
        },
        RExpr::Var { sym } => {
            assert(extras_view(extras@) + Seq::<Extra<'p>>::empty() =~= extras_view(extras@));
            Atom::Var { sym: *sym }
        },
        _ => {
            let tmp = gen_sym("", counter);
            let bnd = rco_expr(expr, counter);
            assert(tmp == temp::<'p>(old(counter).next));
            extras.push((tmp, bnd));
            assert(extras_view(extras@) =~= extras_view(old(extras)@) + seq![(tmp, bnd@)]);
            Atom::Var { sym: tmp }
        },
    }
}

/// Makes atoms of the operands `args`, from left to right; the bindings
/// that this takes go to the end of `extras`.
fn rco_args<'p>(
    args: &Vec<RExpr<'p>>,
    extras: &mut Vec<(UniqueSym<'p>, AExpr<'p>)>,
    counter: &mut SymCounter,
) -> (atoms: Vec<Atom<'p>>)
    ensures
        (atoms@, extras_view(final(extras)@), final(counter).next) == (
            atomized_args(args@, args@.len() as int, old(counter).next).0,
            extras_view(old(extras)@) + atomized_args(
                args@,
                args@.len() as int,
                old(counter).next,
            ).1,
            atomized_args(args@, args@.len() as int, old(counter).next).2,
        ),
    decreases args@, args@.len(),
{
    let mut atoms: Vec<Atom<'p>> = Vec::new();
    let mut i: usize = 0;
    assert(extras_view(extras@) + Seq::<Extra<'p>>::empty() =~= extras_view(extras@));
    while i < args.len()
        invariant
            i <= args@.len(),
            forall|j: int| 0 <= j < args@.len() ==> decreases_to!(args@ => #[trigger] args@[j]),
            atoms@ == atomized_args(args@, i as int, old(counter).next).0,
            extras_view(extras@) == extras_view(old(extras)@) + atomized_args(
                args@,
                i as int,
                old(counter).next,
            ).1,
            counter.next == atomized_args(args@, i as int, old(counter).next).2,
        decreases args@.len() - i,
    {
        let ghost before = extras_view(extras@);
        let atom = rco_atom(&args[i], extras, counter);
        atoms.push(atom);
        proof {
            let (a0, x0, n0) = atomized_args(args@, i as int, old(counter).next);
            let (a1, x1, n1) = atomized_atom(args@[i as int], n0);
            assert(extras_view(extras@) =~= extras_view(old(extras)@) + (x0 + x1));
        }
        i += 1;
    }
    atoms
}


/// Where the counter is after the first `n` definitions have been atomized.
pub open spec fn counter_after<'p>(
    defs: Seq<(UniqueSym<'p>, Def<'p, RExpr<'p>>)>,
    n: int,
    next: usize,
) -> usize
    decreases n,
{
    if n <= 0 {
        next
    } else {
        atomized(defs[n - 1].1.bdy, counter_after(defs, n - 1, next)).1
    }
}

impl<'p> ALVarProgram<'p> {
    /// `self` is `prog` with the body of every function atomized, one
    /// function after the other, starting with the counter at `next`.
    pub open spec fn atomization_of(self, prog: PrgRevealed<'p>, next: usize) -> bool {
        &&& self.entry == prog.entry
        &&& self.defs@.len() == prog.defs@.len()
        &&& forall|j: int|
            0 <= j < self.defs@.len() ==> {
                &&& (#[trigger] self.defs@[j]).0 == prog.defs@[j].0
                &&& self.defs@[j].1.sym == prog.defs@[j].1.sym
                &&& self.defs@[j].1.params@ == prog.defs@[j].1.params@
                &&& self.defs@[j].1.bdy@ == atomized(
                    prog.defs@[j].1.bdy,
                    counter_after(prog.defs@, j, next),
                ).0
            }
    }
}

impl<'p> ULVarProgram<'p> {
    /// Makes the operands of every primitive operation and of every call
    /// in the program atoms.
    pub fn remove_complex_operands(self, counter: &mut SymCounter) -> (out: ALVarProgram<'p>)
        ensures
            out.atomization_of(self, old(counter).next),
            final(counter).next == counter_after(
                self.defs@,
                self.defs@.len() as int,
                old(counter).next,
            ),
    {
        let n = self.defs.len();
        let mut defs: SymMap<'p, Def<'p, AExpr<'p>>> = SymMap::new();
        let mut j: usize = 0;
        while j < n
            invariant
                j <= n,
                n == self.defs@.len(),
                self.defs.wf(),
                defs@.len() == j,
                counter.next == counter_after(self.defs@, j as int, old(counter).next),
                forall|k: int|
                    0 <= k < j ==> {
                        &&& (#[trigger] defs@[k]).0 == self.defs@[k].0
                        &&& defs@[k].1.sym == self.defs@[k].1.sym
                        &&& defs@[k].1.params@ == self.defs@[k].1.params@
                        &&& defs@[k].1.bdy@ == atomized(
                            self.defs@[k].1.bdy,
                            counter_after(self.defs@, k, old(counter).next),
                        ).0
                    },
            decreases n - j,
        {
            let sym = self.defs.key_at(j);
            let def = self.defs.value_at(j);
            let mut params: Vec<UniqueSym<'p>> = Vec::new();
            let mut i: usize = 0;
            while i < def.params.len()
                invariant
                    i <= def.params@.len(),
                    params@ == def.params@.take(i as int),
                decreases def.params@.len() - i,
            {
                params.push(def.params[i]);
                assert(params@ =~= def.params@.take(i + 1));
                i += 1;
            }
            assert(def.params@.take(i as int) =~= def.params@);
            let bdy = rco_expr(&def.bdy, counter);
            proof {
                if has_id(defs@, sym.id) {
                    let k = choose|k: int| 0 <= k < defs@.len() && #[trigger] defs@[k].0.id
                        == sym.id;
                    assert(self.defs@[k].0.id != self.defs@[j as int].0.id);
                }
            }
            defs.insert(sym, Def { sym: def.sym, params, bdy });
            j += 1;
        }
        ALVarProgram { defs, entry: self.entry }
    }
}

} // verus!
