//! Globally unique symbols.

use vstd::prelude::*;

verus! {

/// A name together with the number that makes it unique.
///
/// Two symbols denote the same thing exactly when their `id`s agree; `sym`
/// is a hint for people reading intermediate programs.
#[derive(Clone, Copy, Debug)]
pub struct UniqueSym<'p> {
    pub sym: &'p str,
    pub id: usize,
}

impl<'p> PartialEq for UniqueSym<'p> {
    /// Symbols are equal when their numbers are.
    fn eq(&self, other: &Self) -> (r: bool) {
        self.id == other.id
    }
}

impl<'p> vstd::std_specs::cmp::PartialEqSpecImpl for UniqueSym<'p> {
    open spec fn obeys_eq_spec() -> bool {
        true
    }

    open spec fn eq_spec(&self, other: &Self) -> bool {
        self.id == other.id
    }
}

impl<'p> Eq for UniqueSym<'p> {

}

/// Source of fresh symbol numbers.
///
/// A compilation holds one counter and hands it to every pass that
/// introduces names.
#[derive(Debug)]
pub struct SymCounter {
    pub next: usize,
}

impl SymCounter {
    pub fn new() -> (c: SymCounter)
        ensures
            c.next == 0,
    {
        SymCounter { next: 0 }
    }
}

/// The counter value that follows `n`; the counter wraps at the end of its range.
pub open spec fn next_id(n: usize) -> usize {
    if n == usize::MAX {
        0
    } else {
        (n + 1) as usize
    }
}

/// Makes a symbol with hint `sym` and the counter's current number, and
/// advances the counter.
pub fn gen_sym<'p>(sym: &'p str, counter: &mut SymCounter) -> (s: UniqueSym<'p>)
    ensures
        s.sym == sym,
        s.id == old(counter).next,
        final(counter).next == next_id(old(counter).next),
{
    let id: usize = counter.next;
    counter.next = if id == usize::MAX {
        0
    } else {
        id + 1
    };
    UniqueSym { sym, id }
}

} // verus!
