//! Maps keyed by symbol that remember the order of insertion.

use vstd::prelude::*;
use crate::symbol::UniqueSym;

verus! {

/// No two entries of `s` have symbols with the same number.
pub open spec fn distinct_ids<'p, V>(s: Seq<(UniqueSym<'p>, V)>) -> bool {
    forall|i: int, j: int| 0 <= i < j < s.len() ==> s[i].0.id != s[j].0.id
}

/// Some entry of `s` belongs to the symbol numbered `id`.
pub open spec fn has_id<'p, V>(s: Seq<(UniqueSym<'p>, V)>, id: usize) -> bool {
    exists|i: int| 0 <= i < s.len() && #[trigger] s[i].0.id == id
}

/// The position in `s` of the entry for the symbol numbered `id`.
pub open spec fn index_of<'p, V>(s: Seq<(UniqueSym<'p>, V)>, id: usize) -> int {
    choose|i: int| 0 <= i < s.len() && #[trigger] s[i].0.id == id
}

/// The value that `s` holds for the symbol numbered `id`.
pub open spec fn value_of<'p, V>(s: Seq<(UniqueSym<'p>, V)>, id: usize) -> V {
    s[index_of(s, id)].1
}

/// `s` after `value` is stored for `sym`: an entry with the number of `sym`
/// keeps its place and its symbol, otherwise a new entry goes to the end.
pub open spec fn stored<'p, V>(s: Seq<(UniqueSym<'p>, V)>, sym: UniqueSym<'p>, value: V) -> Seq<
    (UniqueSym<'p>, V),
> {
    if has_id(s, sym.id) {
        s.update(index_of(s, sym.id), (s[index_of(s, sym.id)].0, value))
    } else {
        s.push((sym, value))
    }
}

/// Where no number occurs twice, an entry's number leads back to its position.
pub proof fn lemma_index_of<'p, V>(s: Seq<(UniqueSym<'p>, V)>, i: int)
    requires
        distinct_ids(s),
        0 <= i < s.len(),
    ensures
        has_id(s, s[i].0.id),
        index_of(s, s[i].0.id) == i,
{
    let id = s[i].0.id;
    assert(s[i].0.id == id);
    let j = index_of(s, id);
    assert(0 <= j < s.len() && s[j].0.id == id);
    if j < i {
        assert(s[j].0.id != s[i].0.id);
    } else if i < j {
        assert(s[i].0.id != s[j].0.id);
    }
}

/// What storing a value does to lookups: the symbol's number now leads to
/// the new value, and every other number leads where it led before.
pub proof fn lemma_stored<'p, V>(
    s: Seq<(UniqueSym<'p>, V)>,
    t: Seq<(UniqueSym<'p>, V)>,
    sym: UniqueSym<'p>,
    value: V,
)
    requires
        distinct_ids(s),
        t == stored(s, sym, value),
    ensures
        distinct_ids(t),
        has_id(t, sym.id),
        value_of(t, sym.id) == value,
        forall|id: usize| has_id(t, id) <==> has_id(s, id) || id == sym.id,
        forall|id: usize| id != sym.id && has_id(s, id) ==> value_of(t, id) == value_of(s, id),
{
    let p = if has_id(s, sym.id) {
        index_of(s, sym.id)
    } else {
        s.len() as int
    };
    if has_id(s, sym.id) {
        assert(0 <= p < s.len() && s[p].0.id == sym.id);
    }
    assert(t[p].0.id == sym.id);
    assert forall|i: int, j: int| 0 <= i < j < t.len() implies t[i].0.id != t[j].0.id by {
        if !has_id(s, sym.id) && j == s.len() {
            assert(s[i].0.id != sym.id);
        }
    }
    lemma_index_of(t, p);
    assert forall|id: usize| has_id(t, id) <==> has_id(s, id) || id == sym.id by {
        if has_id(t, id) {
            let i = index_of(t, id);
            assert(0 <= i < t.len() && t[i].0.id == id);
            if i < s.len() {
                assert(s[i].0.id == id);
            }
        }
        if has_id(s, id) {
            let i = index_of(s, id);
            assert(0 <= i < s.len() && s[i].0.id == id);
            assert(t[i].0.id == id);
        }
    }
    assert forall|id: usize| id != sym.id && has_id(s, id) implies value_of(t, id) == value_of(
        s,
        id,
    ) by {
        let i = index_of(s, id);
        assert(0 <= i < s.len() && s[i].0.id == id);
        assert(t[i].0.id == id);
        lemma_index_of(t, i);
    }
}

/// `s` with `f` applied to every value.
pub open spec fn mapped<'p, V, W>(s: Seq<(UniqueSym<'p>, V)>, f: spec_fn(V) -> W) -> Seq<
    (UniqueSym<'p>, W),
> {
    Seq::new(s.len(), |k: int| (s[k].0, f(s[k].1)))
}

/// Lookups see through [`mapped`].
pub proof fn lemma_mapped<'p, V, W>(s: Seq<(UniqueSym<'p>, V)>, f: spec_fn(V) -> W, id: usize)
    requires
        distinct_ids(s),
    ensures
        distinct_ids(mapped(s, f)),
        has_id(mapped(s, f), id) == has_id(s, id),
        has_id(s, id) ==> value_of(mapped(s, f), id) == f(value_of(s, id)),
{
    let t = mapped(s, f);
    if has_id(s, id) {
        let i = index_of(s, id);
        assert(0 <= i < s.len() && s[i].0.id == id);
        assert(t[i].0.id == id);
        lemma_index_of(t, i);
    }
    if has_id(t, id) {
        let i = index_of(t, id);
        assert(0 <= i < t.len() && t[i].0.id == id);
        assert(s[i].0.id == id);
    }
}

/// Storing a value and then applying `f` to every value is storing what
/// `f` makes of the value.
pub proof fn lemma_mapped_stored<'p, V, W>(
    s: Seq<(UniqueSym<'p>, V)>,
    f: spec_fn(V) -> W,
    sym: UniqueSym<'p>,
    value: V,
)
    requires
        distinct_ids(s),
    ensures
        mapped(stored(s, sym, value), f) == stored(mapped(s, f), sym, f(value)),
{
    let t = mapped(s, f);
    lemma_mapped(s, f, sym.id);
    if has_id(s, sym.id) {
        let i = index_of(s, sym.id);
        assert(0 <= i < s.len() && s[i].0.id == sym.id);
        assert(t[i].0.id == sym.id);
        lemma_index_of(t, i);
    }
    assert(mapped(stored(s, sym, value), f) =~= stored(t, sym, f(value)));
}

/// A finite map from symbols to `V`.
///
/// Symbols are told apart by their number. Entries keep the order in which
/// their symbols were first inserted, so that walking the map gives the
/// same sequence on every run.
#[derive(Debug)]
pub struct SymMap<'p, V> {
    entries: Vec<(UniqueSym<'p>, V)>,
}

impl<'p, V> View for SymMap<'p, V> {
    type V = Seq<(UniqueSym<'p>, V)>;

    closed spec fn view(&self) -> Seq<(UniqueSym<'p>, V)> {
        self.entries@
    }
}

impl<'p, V> SymMap<'p, V> {
    /// The entries are keyed by distinct numbers. This holds of every map
    /// that a program can get hold of.
    #[verifier::type_invariant]
    pub open spec fn wf(self) -> bool {
        distinct_ids(self@)
    }

    pub fn new() -> (m: Self)
        ensures
            m@ == Seq::<(UniqueSym<'p>, V)>::empty(),
            m.wf(),
    {
        SymMap { entries: Vec::new() }
    }

    pub fn len(&self) -> (n: usize)
        ensures
            n == self@.len(),
            self.wf(),
    {
        proof {
            use_type_invariant(self);
        }
        self.entries.len()
    }

    /// The position of the entry for the symbol numbered `id`.
    pub fn find(&self, id: usize) -> (r: Option<usize>)
        ensures
            self.wf(),
            match r {
                Some(i) => i < self@.len() && self@[i as int].0.id == id && index_of(self@, id)
                    == i && has_id(self@, id),
                None => !has_id(self@, id),
            },
    {
        proof {
            use_type_invariant(self);
        }
        let mut i: usize = 0;
        while i < self.entries.len()
            invariant
                i <= self.entries.len(),
                forall|k: int| 0 <= k < i ==> self.entries@[k].0.id != id,
                distinct_ids(self.entries@),
            decreases self.entries.len() - i,
        {
            if self.entries[i].0.id == id {
                proof {
                    lemma_index_of(self.entries@, i as int);
                }
                return Some(i);
            }
            i += 1;
        }
        None
    }

    pub fn contains(&self, id: usize) -> (b: bool)
        ensures
            b == has_id(self@, id),
            self.wf(),
    {
        self.find(id).is_some()
    }

    /// The value stored for the symbol numbered `id`.
    pub fn get(&self, id: usize) -> (r: Option<&V>)
        ensures
            self.wf(),
            match r {
                Some(v) => has_id(self@, id) && *v == value_of(self@, id),
                None => !has_id(self@, id),
            },
    {
        match self.find(id) {
            Some(i) => Some(&self.entries[i].1),
            None => None,
        }
    }

    /// The symbol of the `i`-th entry.
    pub fn key_at(&self, i: usize) -> (k: UniqueSym<'p>)
        requires
            i < self@.len(),
        ensures
            k == self@[i as int].0,
    {
        self.entries[i].0
    }

    /// The value of the `i`-th entry.
    pub fn value_at(&self, i: usize) -> (v: &V)
        requires
            i < self@.len(),
        ensures
            *v == self@[i as int].1,
    {
        &self.entries[i].1
    }

    /// Stores `value` for `sym`. An entry with the number of `sym` keeps its
    /// place and its symbol; otherwise a new entry goes to the end.
    pub fn insert(&mut self, sym: UniqueSym<'p>, value: V)
        ensures
            final(self).wf(),
            final(self)@ == stored(old(self)@, sym, value),
            has_id(final(self)@, sym.id),
            value_of(final(self)@, sym.id) == value,
            forall|id: usize| has_id(final(self)@, id) <==> has_id(old(self)@, id) || id == sym.id,
            forall|id: usize|
                id != sym.id && has_id(old(self)@, id) ==> value_of(final(self)@, id) == value_of(
                    old(self)@,
                    id,
                ),
    {
        let mut map = SymMap { entries: Vec::new() };
        core::mem::swap(self, &mut map);
        proof {
            use_type_invariant(&map);
        }
        let found = map.find(sym.id);
        let mut entries = map.entries;
        match found {
            Some(i) => {
                let key = entries[i].0;
                entries.set(i, (key, value));
            },
            None => {
                entries.push((sym, value));
            },
        }
        proof {
            lemma_stored(old(self)@, entries@, sym, value);
        }
        *self = SymMap { entries };
    }

    /// Puts `value` in place of the value of the `i`-th entry, and returns
    /// the value that was there.
    pub fn replace_at(&mut self, i: usize, value: V) -> (previous: V)
        requires
            i < old(self)@.len(),
        ensures
            final(self).wf(),
            final(self)@ == old(self)@.update(i as int, (old(self)@[i as int].0, value)),
            previous == old(self)@[i as int].1,
    {
        let mut map = SymMap { entries: Vec::new() };
        core::mem::swap(self, &mut map);
        proof {
            use_type_invariant(&map);
        }
        let mut entries = map.entries;
        let mut entry = (entries[i].0, value);
        core::mem::swap(&mut entry, &mut entries[i]);
        *self = SymMap { entries };
        entry.1
    }

    /// Takes the map apart into its entries.
    pub fn into_entries(self) -> (v: Vec<(UniqueSym<'p>, V)>)
        ensures
            v@ == self@,
            distinct_ids(v@),
    {
        proof {
            use_type_invariant(&self);
        }
        self.entries
    }
}

} // verus!
