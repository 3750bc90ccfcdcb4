//! Errors that the back end reports.

use vstd::prelude::*;

verus! {

/// Why a pass gave up.
#[derive(Clone, Copy, Debug, PartialEq, Eq, Structural)]
pub enum CompileError {
    /// A call or system call has more arguments than there are registers to
    /// pass them in.
    UnsupportedArity,
    /// The program has a shape that earlier passes never produce, such as an
    /// immediate in destination position.
    Unreachable,
    /// A displacement does not fit in a signed 32-bit field.
    EncodingOverflow,
}

} // verus!
