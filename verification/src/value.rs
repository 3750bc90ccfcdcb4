//! Values and literals.

use vstd::prelude::*;

verus! {

/// A value that an interpreter computes with; `A` is the type of the
/// symbols that name functions.
#[derive(Clone, Copy, Debug, PartialEq, Eq)]
#[allow(inconsistent_fields)]
pub enum Val<A: Copy> {
    Int { val: i64 },
    Bool { val: bool },
    Unit,
    Function { sym: A },
}

impl<A: Copy> Val<A> {
    /// The integer that the value is.
    pub fn as_int(self) -> (r: i64)
        requires
            self is Int,
        ensures
            r == self->Int_val,
    {
        match self {
            Val::Int { val } => val,
            _ => 0,
        }
    }

    /// The boolean that the value is.
    pub fn bool(self) -> (r: bool)
        requires
            self is Bool,
        ensures
            r == self->Bool_val,
    {
        match self {
            Val::Bool { val } => val,
            _ => false,
        }
    }

    /// The symbol of the function that the value is.
    pub fn fun(self) -> (r: A)
        requires
            self is Function,
        ensures
            r == self->sym,
    {
        match self {
            Val::Function { sym } => sym,
            _ => unreached(),
        }
    }
}

/// A literal of the source language.
#[derive(Clone, Copy, Debug, PartialEq, Eq)]
#[allow(inconsistent_fields)]
pub enum Lit {
    Int { val: i64 },
    Bool { val: bool },
    Unit,
}

impl Lit {
    /// The number that stands for the literal in machine code: the integer
    /// itself, one for `true`, and zero for `false` and for unit.
    pub open spec fn number(self) -> i64 {
        match self {
            Lit::Int { val } => val,
            Lit::Bool { val } => if val {
                1
            } else {
                0
            },
            Lit::Unit => 0,
        }
    }

    /// Computes [`Lit::number`].
    pub fn to_i64(self) -> (r: i64)
        ensures
            r == self.number(),
    {
        match self {
            Lit::Int { val } => val,
            Lit::Bool { val } => if val {
                1
            } else {
                0
            },
            Lit::Unit => 0,
        }
    }
}

/// A literal whose type is known; integers are of 32 bits.
#[derive(Clone, Copy, Debug, PartialEq, Eq)]
#[allow(inconsistent_fields)]
pub enum TLit {
    Int { val: i32 },
    Bool { val: bool },
    Unit,
}

impl TLit {
    /// The integer value of an integer literal.
    #[must_use]
    pub fn as_int(self) -> (r: i64)
        requires
            self is Int,
        ensures
            r == self->Int_val,
    {
        match self {
            TLit::Int { val } => val as i64,
            _ => 0,
        }
    }

    /// The boolean value of a boolean literal.
    #[must_use]
    pub fn bool(self) -> (r: bool)
        requires
            self is Bool,
        ensures
            r == self->Bool_val,
    {
        match self {
            TLit::Bool { val } => val,
            _ => false,
        }
    }

    /// The number that stands for the literal in machine code: the integer
    /// itself, one for `true`, and zero for `false` and for unit.
    pub open spec fn number(self) -> i64 {
        match self {
            TLit::Int { val } => val as i64,
            TLit::Bool { val } => if val {
                1
            } else {
                0
            },
            TLit::Unit => 0,
        }
    }

    /// Computes [`TLit::number`].
    pub fn to_i64(self) -> (r: i64)
        ensures
            r == self.number(),
    {
        match self {
            TLit::Int { val } => val as i64,
            TLit::Bool { val } => if val {
                1
            } else {
                0
            },
            TLit::Unit => 0,
        }
    }
}

} // verus!
