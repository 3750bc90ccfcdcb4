//! The expressions that the back end starts from, and the form that
//! atomization gives them.

use vstd::prelude::*;
use crate::sym_map::SymMap;
use crate::symbol::UniqueSym;
use crate::value::Lit;

verus! {

/// The primitive operations.
#[derive(Clone, Copy, Debug, PartialEq, Eq, Structural)]
pub enum Op {
    Plus,
    Minus,
    Mul,
    Div,
    Mod,
    LAnd,
    LOr,
    Xor,
    Not,
    GT,
    GE,
    EQ,
    LE,
    LT,
    NE,
    Read,
    Print,
}

/// An expression in which every variable is a globally unique symbol, and
/// references to functions are told apart from references to variables.
#[derive(Debug, PartialEq, Eq)]
pub enum RExpr<'p> {
    Lit { val: Lit },
    Var { sym: UniqueSym<'p> },
    FunRef { sym: UniqueSym<'p> },
    Prim { op: Op, args: Vec<RExpr<'p>> },
    Let { sym: UniqueSym<'p>, bnd: Box<RExpr<'p>>, bdy: Box<RExpr<'p>> },
    If { cnd: Box<RExpr<'p>>, thn: Box<RExpr<'p>>, els: Box<RExpr<'p>> },
    Apply { fun: Box<RExpr<'p>>, args: Vec<RExpr<'p>> },
    Loop { bdy: Box<RExpr<'p>> },
    Break { bdy: Box<RExpr<'p>> },
    Continue,
    Return { bdy: Box<RExpr<'p>> },
    Sequence { stmt: Box<RExpr<'p>>, cnt: Box<RExpr<'p>> },
    Assign { sym: UniqueSym<'p>, bnd: Box<RExpr<'p>> },
}

/// An expression without computation in it: a literal or a variable.
#[derive(Clone, Copy, Debug, PartialEq, Eq)]
pub enum Atom<'p> {
    Val { val: Lit },
    Var { sym: UniqueSym<'p> },
}

/// An expression in which the operands of every primitive operation and
/// of every call are atoms.
#[derive(Debug, PartialEq, Eq)]
pub enum AExpr<'p> {
    Atom { atm: Atom<'p> },
    FunRef { sym: UniqueSym<'p> },
    Prim { op: Op, args: Vec<Atom<'p>> },
    Let { sym: UniqueSym<'p>, bnd: Box<AExpr<'p>>, bdy: Box<AExpr<'p>> },
    If { cnd: Box<AExpr<'p>>, thn: Box<AExpr<'p>>, els: Box<AExpr<'p>> },
    Apply { fun: Atom<'p>, args: Vec<Atom<'p>> },
    Loop { bdy: Box<AExpr<'p>> },
    Break { bdy: Box<AExpr<'p>> },
    Continue,
    Return { bdy: Box<AExpr<'p>> },
    Sequence { stmt: Box<AExpr<'p>>, cnt: Box<AExpr<'p>> },
    Assign { sym: UniqueSym<'p>, bnd: Box<AExpr<'p>> },
}

/// What an [`AExpr`] is, with sequences in place of vectors.
pub enum AExprView<'p> {
    Atom { atm: Atom<'p> },
    FunRef { sym: UniqueSym<'p> },
    Prim { op: Op, args: Seq<Atom<'p>> },
    Let { sym: UniqueSym<'p>, bnd: Box<AExprView<'p>>, bdy: Box<AExprView<'p>> },
    If { cnd: Box<AExprView<'p>>, thn: Box<AExprView<'p>>, els: Box<AExprView<'p>> },
    Apply { fun: Atom<'p>, args: Seq<Atom<'p>> },
    Loop { bdy: Box<AExprView<'p>> },
    Break { bdy: Box<AExprView<'p>> },
    Continue,
    Return { bdy: Box<AExprView<'p>> },
    Sequence { stmt: Box<AExprView<'p>>, cnt: Box<AExprView<'p>> },
    Assign { sym: UniqueSym<'p>, bnd: Box<AExprView<'p>> },
}

impl<'p> AExpr<'p> {
    /// What the expression is, with sequences in place of vectors.
    pub open spec fn model(self) -> AExprView<'p>
        decreases self,
    {
        match self {
            AExpr::Atom { atm } => AExprView::Atom { atm },
            AExpr::FunRef { sym } => AExprView::FunRef { sym },
            AExpr::Prim { op, args } => AExprView::Prim { op, args: args@ },
            AExpr::Let { sym, bnd, bdy } => AExprView::Let {
                sym,
                bnd: Box::new((*bnd).model()),
                bdy: Box::new((*bdy).model()),
            },
            AExpr::If { cnd, thn, els } => AExprView::If {
                cnd: Box::new((*cnd).model()),
                thn: Box::new((*thn).model()),
                els: Box::new((*els).model()),
            },
            AExpr::Apply { fun, args } => AExprView::Apply { fun, args: args@ },
            AExpr::Loop { bdy } => AExprView::Loop { bdy: Box::new((*bdy).model()) },
            AExpr::Break { bdy } => AExprView::Break { bdy: Box::new((*bdy).model()) },
            AExpr::Continue => AExprView::Continue,
            AExpr::Return { bdy } => AExprView::Return { bdy: Box::new((*bdy).model()) },
            AExpr::Sequence { stmt, cnt } => AExprView::Sequence {
                stmt: Box::new((*stmt).model()),
                cnt: Box::new((*cnt).model()),
            },
            AExpr::Assign { sym, bnd } => AExprView::Assign { sym, bnd: Box::new((*bnd).model()) },
        }
    }
}

impl<'p> View for AExpr<'p> {
    type V = AExprView<'p>;

    open spec fn view(&self) -> AExprView<'p> {
        self.model()
    }
}

/// The definition of a function.
#[derive(Debug)]
pub struct Def<'p, E> {
    pub sym: UniqueSym<'p>,
    pub params: Vec<UniqueSym<'p>>,
    pub bdy: E,
}

/// A program over [`RExpr`].
#[derive(Debug)]
pub struct PrgRevealed<'p> {
    pub defs: SymMap<'p, Def<'p, RExpr<'p>>>,
    pub entry: UniqueSym<'p>,
}

/// A program whose variables are unique: the form in which programs come
/// to the back end.
pub type ULVarProgram<'p> = PrgRevealed<'p>;

/// A program over [`AExpr`].
#[derive(Debug)]
pub struct ALVarProgram<'p> {
    pub defs: SymMap<'p, Def<'p, AExpr<'p>>>,
    pub entry: UniqueSym<'p>,
}

} // verus!
