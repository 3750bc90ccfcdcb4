//! Back end of a compiler for a small imperative-functional language: from
//! uniquely named expressions down to x86-64 machine code.
//!
//! The passes run one after the other, each on what the one before made:
//! [`atomize`], [`explicate`], [`select`], the passes of [`assign`],
//! [`patch`], [`conclude`] and [`emit`]. The [`interpreter`] runs the
//! programs over x86 instructions, so that passes can be tested against
//! each other.

pub mod error;
pub mod symbol;
pub mod sym_map;
pub mod value;
pub mod language;
pub mod x86;
pub mod atomize;
pub mod explicate;
pub mod select;
pub mod assign;
pub mod patch;
pub mod conclude;
pub mod emit;
pub mod interpreter;
