//! What liveness analysis tracks: registers and variables, and sets of them.

use vstd::prelude::*;
use crate::symbol::UniqueSym;
use crate::x86::{Reg, VarArg};

verus! {

/// What identifies a location: `(0, n)` is the register numbered `n`,
/// `(1, id)` the variable whose symbol has the number `id`.
pub type Key = (u8, usize);

/// A location that can be live: a register or a variable.
#[derive(Clone, Copy, Debug, PartialEq, Eq)]
pub enum LArg<'p> {
    Var { sym: UniqueSym<'p> },
    Reg { reg: Reg },
}

impl<'p> LArg<'p> {
    pub open spec fn key(self) -> Key {
        match self {
            LArg::Reg { reg } => (0u8, reg.number() as usize),
            LArg::Var { sym } => (1u8, sym.id),
        }
    }

    /// Computes [`LArg::key`].
    pub fn node(&self) -> (k: Key)
        ensures
            k == self.key(),
    {
        match self {
            LArg::Reg { reg } => (0u8, reg.index() as usize),
            LArg::Var { sym } => (1u8, sym.id),
        }
    }

    /// The location as an operand.
    pub open spec fn lift(self) -> VarArg<'p> {
        match self {
            LArg::Reg { reg } => VarArg::Reg(reg),
            LArg::Var { sym } => VarArg::XVar(sym),
        }
    }

    /// Computes [`LArg::lift`].
    pub fn to_var_arg(&self) -> (a: VarArg<'p>)
        ensures
            a == self.lift(),
    {
        match self {
            LArg::Reg { reg } => VarArg::Reg(*reg),
            LArg::Var { sym } => VarArg::XVar(*sym),
        }
    }
}

/// The keys of the locations in `s`.
pub open spec fn key_set<'p>(s: Seq<LArg<'p>>) -> Set<Key> {
    Set::new(|k: Key| exists|i: int| 0 <= i < s.len() && #[trigger] s[i].key() == k)
}

/// No two locations in `s` have the same key.
pub open spec fn distinct_keys<'p>(s: Seq<LArg<'p>>) -> bool {
    forall|i: int, j: int| 0 <= i < j < s.len() ==> s[i].key() != s[j].key()
}

/// The position in `s` of the location with key `k`.
pub open spec fn key_index<'p>(s: Seq<LArg<'p>>, k: Key) -> int {
    choose|i: int| 0 <= i < s.len() && #[trigger] s[i].key() == k
}

/// `s` with `a` added at the end, unless its key is there already.
pub open spec fn with_arg<'p>(s: Seq<LArg<'p>>, a: LArg<'p>) -> Seq<LArg<'p>> {
    if key_set(s).contains(a.key()) {
        s
    } else {
        s.push(a)
    }
}

/// `s` without the location that has the key of `a`.
pub open spec fn without_arg<'p>(s: Seq<LArg<'p>>, a: LArg<'p>) -> Seq<LArg<'p>> {
    if key_set(s).contains(a.key()) {
        s.remove(key_index(s, a.key()))
    } else {
        s
    }
}

pub proof fn lemma_with_arg<'p>(s: Seq<LArg<'p>>, a: LArg<'p>)
    requires
        distinct_keys(s),
    ensures
        distinct_keys(with_arg(s, a)),
        key_set(with_arg(s, a)) == key_set(s).insert(a.key()),
{
    let t = with_arg(s, a);
    if key_set(s).contains(a.key()) {
        assert(key_set(t) =~= key_set(s).insert(a.key()));
    } else {
        assert forall|i: int, j: int| 0 <= i < j < t.len() implies t[i].key() != t[j].key() by {
            if j == s.len() {
                assert(s[i].key() != a.key());
            }
        }
        assert forall|k: Key| key_set(t).contains(k) <==> key_set(s).insert(a.key()).contains(
            k,
        ) by {
            if key_set(t).contains(k) {
                let i = choose|i: int| 0 <= i < t.len() && #[trigger] t[i].key() == k;
                if i < s.len() {
                    assert(s[i].key() == k);
                }
            }
            if key_set(s).contains(k) {
                let i = choose|i: int| 0 <= i < s.len() && #[trigger] s[i].key() == k;
                assert(t[i].key() == k);
            }
            if k == a.key() {
                assert(t[s.len() as int].key() == k);
            }
        }
        assert(key_set(t) =~= key_set(s).insert(a.key()));
    }
}

pub proof fn lemma_without_arg<'p>(s: Seq<LArg<'p>>, a: LArg<'p>)
    requires
        distinct_keys(s),
    ensures
        distinct_keys(without_arg(s, a)),
        key_set(without_arg(s, a)) == key_set(s).remove(a.key()),
{
    let t = without_arg(s, a);
    if key_set(s).contains(a.key()) {
        let p = key_index(s, a.key());
        assert(0 <= p < s.len() && s[p].key() == a.key());
        assert forall|i: int, j: int| 0 <= i < j < t.len() implies t[i].key() != t[j].key() by {
            let i0 = if i < p {
                i
            } else {
                i + 1
            };
            let j0 = if j < p {
                j
            } else {
                j + 1
            };
            assert(t[i] == s[i0] && t[j] == s[j0]);
        }
        assert forall|k: Key| key_set(t).contains(k) <==> key_set(s).remove(a.key()).contains(
            k,
        ) by {
            if key_set(t).contains(k) {
                let i = choose|i: int| 0 <= i < t.len() && #[trigger] t[i].key() == k;
                let i0 = if i < p {
                    i
                } else {
                    i + 1
                };
                assert(t[i] == s[i0]);
                assert(s[i0].key() == k);
                if i0 < p {
                    assert(s[i0].key() != s[p].key());
                } else {
                    assert(s[p].key() != s[i0].key());
                }
            }
            if key_set(s).remove(a.key()).contains(k) {
                let i = choose|i: int| 0 <= i < s.len() && #[trigger] s[i].key() == k;
                assert(i != p);
                let i1 = if i < p {
                    i
                } else {
                    i - 1
                };
                assert(t[i1] == s[i]);
                assert(t[i1].key() == k);
            }
        }
        assert(key_set(t) =~= key_set(s).remove(a.key()));
    } else {
        assert(key_set(t) =~= key_set(s).remove(a.key()));
    }
}

/// A set of locations, held in the order in which they were added.
#[derive(Debug)]
pub struct LiveSet<'p> {
    args: Vec<LArg<'p>>,
}

impl<'p> View for LiveSet<'p> {
    type V = Seq<LArg<'p>>;

    closed spec fn view(&self) -> Seq<LArg<'p>> {
        self.args@
    }
}

impl<'p> LiveSet<'p> {
    /// No location is held twice. This holds of every set that a program
    /// can get hold of.
    #[verifier::type_invariant]
    pub open spec fn wf(self) -> bool {
        distinct_keys(self@)
    }

    /// The keys of the locations in the set.
    pub open spec fn keys(self) -> Set<Key> {
        key_set(self@)
    }

    pub fn new() -> (s: Self)
        ensures
            s@ == Seq::<LArg<'p>>::empty(),
            s.keys() == Set::<Key>::empty(),
            s.wf(),
    {
        let s = LiveSet { args: Vec::new() };
        assert(s.keys() =~= Set::<Key>::empty());
        s
    }

    pub fn len(&self) -> (n: usize)
        ensures
            n == self@.len(),
            self.wf(),
    {
        proof {
            use_type_invariant(self);
        }
        self.args.len()
    }

    /// The `i`-th location in order of insertion.
    pub fn get(&self, i: usize) -> (a: LArg<'p>)
        requires
            i < self@.len(),
        ensures
            a == self@[i as int],
    {
        self.args[i]
    }

    /// Where the location with the key of `a` stands.
    pub fn position(&self, a: &LArg<'p>) -> (r: Option<usize>)
        ensures
            self.wf(),
            match r {
                Some(i) => i < self@.len() && self@[i as int].key() == a.key() && key_index(
                    self@,
                    a.key(),
                ) == i && self.keys().contains(a.key()),
                None => !self.keys().contains(a.key()),
            },
    {
        proof {
            use_type_invariant(self);
        }
        let k = a.node();
        let mut i: usize = 0;
        while i < self.args.len()
            invariant
                i <= self.args.len(),
                k == a.key(),
                forall|j: int| 0 <= j < i ==> self.args@[j].key() != k,
                distinct_keys(self.args@),
            decreases self.args.len() - i,
        {
            let ki = self.args[i].node();
            if ki.0 == k.0 && ki.1 == k.1 {
                proof {
                    let s = self.args@;
                    assert(s[i as int].key() == k);
                    let p = key_index(s, k);
                    assert(0 <= p < s.len() && s[p].key() == k);
                    if p < i {
                        assert(s[p].key() != s[i as int].key());
                    } else if i < p {
                        assert(s[i as int].key() != s[p].key());
                    }
                }
                return Some(i);
            }
            i += 1;
        }
        None
    }

    pub fn contains(&self, a: &LArg<'p>) -> (b: bool)
        ensures
            b == self.keys().contains(a.key()),
            self.wf(),
    {
        self.position(a).is_some()
    }

    /// Adds `a` unless a location with its key is in the set already.
    pub fn insert(&mut self, a: LArg<'p>)
        ensures
            final(self)@ == with_arg(old(self)@, a),
            final(self).keys() == old(self).keys().insert(a.key()),
            final(self).wf(),
    {
        let mut set = LiveSet { args: Vec::new() };
        core::mem::swap(self, &mut set);
        proof {
            use_type_invariant(&set);
            lemma_with_arg(set@, a);
        }
        let found = set.position(&a);
        let mut args = set.args;
        if found.is_none() {
            args.push(a);
        }
        *self = LiveSet { args };
    }

    /// Removes the location with the key of `a`, if there is one.
    pub fn remove(&mut self, a: &LArg<'p>)
        ensures
            final(self)@ == without_arg(old(self)@, *a),
            final(self).keys() == old(self).keys().remove(a.key()),
            final(self).wf(),
    {
        let mut set = LiveSet { args: Vec::new() };
        core::mem::swap(self, &mut set);
        proof {
            use_type_invariant(&set);
            lemma_without_arg(set@, *a);
        }
        let found = set.position(a);
        let mut args = set.args;
        if let Some(i) = found {
            args.remove(i);
        }
        *self = LiveSet { args };
    }

    /// A set with the same locations in the same order.
    pub fn copy(&self) -> (s: Self)
        ensures
            s@ == self@,
            s.wf(),
    {
        proof {
            use_type_invariant(self);
        }
        let mut args: Vec<LArg<'p>> = Vec::new();
        let mut i: usize = 0;
        while i < self.args.len()
            invariant
                i <= self.args.len(),
                args@ == self.args@.take(i as int),
            decreases self.args.len() - i,
        {
            args.push(self.args[i]);
            assert(self.args@.take(i as int).push(self.args@[i as int]) =~= self.args@.take(
                i + 1,
            ));
            i += 1;
        }
        assert(self.args@.take(i as int) =~= self.args@);
        LiveSet { args }
    }

    /// Whether every location of `self` is in `other`.
    pub fn subset_of(&self, other: &LiveSet<'p>) -> (b: bool)
        ensures
            b == self.keys().subset_of(other.keys()),
    {
        let mut i: usize = 0;
        while i < self.args.len()
            invariant
                i <= self.args.len(),
                forall|j: int| 0 <= j < i ==> other.keys().contains(self.args@[j].key()),
            decreases self.args.len() - i,
        {
            if !other.contains(&self.args[i]) {
                assert(self.keys().contains(self.args@[i as int].key()));
                return false;
            }
            i += 1;
        }
        assert forall|k: Key| self.keys().contains(k) implies other.keys().contains(k) by {
            let j = choose|j: int| 0 <= j < self@.len() && #[trigger] self@[j].key() == k;
        }
        true
    }

    /// Whether the two sets hold the same locations.
    pub fn same_as(&self, other: &LiveSet<'p>) -> (b: bool)
        ensures
            b == (self.keys() == other.keys()),
    {
        let b = self.subset_of(other) && other.subset_of(self);
        proof {
            if b {
                assert(self.keys() =~= other.keys());
            }
        }
        b
    }
}

} // verus!
