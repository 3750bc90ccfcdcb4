//! Interpreters for the intermediate programs, for testing the passes
//! against each other.

pub mod arith;
pub mod machine;
pub mod patched;
pub mod x86;

use vstd::prelude::*;

verus! {

/// Where an interpreted program reads its input and writes its output.
pub trait IO {
    /// The bytes that the program has not read yet.
    spec fn pending(&self) -> Seq<u8>;

    /// The bytes that the program has written.
    spec fn printed(&self) -> Seq<u8>;

    /// Takes the next byte of the input; `None` at its end.
    fn read(&mut self) -> (r: Option<u8>)
        ensures
            final(self).printed() == old(self).printed(),
            match r {
                Some(b) => old(self).pending().len() > 0 && b == old(self).pending()[0]
                    && final(self).pending() == old(self).pending().skip(1),
                None => old(self).pending().len() == 0 && final(self).pending() == old(
                    self,
                ).pending(),
            },
    ;

    /// Writes one byte.
    fn print(&mut self, v: u8)
        ensures
            final(self).pending() == old(self).pending(),
            final(self).printed() == old(self).printed().push(v),
    ;
}

/// Input and output held in memory.
#[derive(Debug)]
pub struct TestIO {
    input: Vec<u8>,
    position: usize,
    output: Vec<u8>,
}

impl TestIO {
    #[verifier::type_invariant]
    spec fn wf(self) -> bool {
        self.position <= self.input@.len()
    }

    /// An input of the bytes `input`, and no output yet.
    pub fn new(input: Vec<u8>) -> (io: TestIO)
        ensures
            io.pending() == input@,
            io.printed() == Seq::<u8>::empty(),
    {
        let io = TestIO { input, position: 0, output: Vec::new() };
        assert(io.input@.skip(0) =~= io.input@);
        io
    }

    /// The bytes written so far.
    pub fn outputs(&self) -> (out: &Vec<u8>)
        ensures
            out@ == self.printed(),
    {
        &self.output
    }
}

impl IO for TestIO {
    closed spec fn pending(&self) -> Seq<u8> {
        self.input@.skip(self.position as int)
    }

    closed spec fn printed(&self) -> Seq<u8> {
        self.output@
    }

    fn read(&mut self) -> (r: Option<u8>) {
        proof {
            use_type_invariant(&*self);
        }
        if self.position < self.input.len() {
            let b = self.input[self.position];
            let ghost before = self.input@.skip(self.position as int);
            let mut io = TestIO { input: Vec::new(), position: 0, output: Vec::new() };
            core::mem::swap(self, &mut io);
            let TestIO { input, position, output } = io;
            *self = TestIO { input, position: position + 1, output };
            assert(self.input@.skip(self.position as int) =~= before.skip(1));
            Some(b)
        } else {
            None
        }
    }

    fn print(&mut self, v: u8) {
        let mut io = TestIO { input: Vec::new(), position: 0, output: Vec::new() };
        core::mem::swap(self, &mut io);
        proof {
            use_type_invariant(&io);
        }
        let TestIO { input, position, output } = io;
        let mut output = output;
        output.push(v);
        *self = TestIO { input, position, output };
    }
}

/// Why an interpreted program stopped without a result.
#[derive(Clone, Copy, Debug, PartialEq, Eq, Structural)]
pub enum InterpError {
    /// The program ran for more steps than it was given.
    OutOfFuel,
    /// A jump, a call or a return went to a label or an address where
    /// there is no block.
    UnknownLabel,
    /// Execution went past the last instruction of a block.
    OutOfBlock,
    /// A variable or a memory cell was read before it was written.
    Uninitialized,
    /// An instruction would have written to an immediate.
    ImmediateDestination,
    /// The stack pointer was no multiple of eight at a push, a pop, a call
    /// or a return.
    MisalignedStack,
    /// A return found no call to return from.
    EmptyCallStack,
    /// A system call other than reading one byte from the standard input,
    /// writing one byte to the standard output, or ending the process.
    UnsupportedSyscall,
    /// A division by zero, or one whose quotient is out of range.
    DivideError,
    /// A block or an instruction has a number too large for an address.
    AddressOverflow,
}

} // verus!
