//! The queue of blocks that liveness analysis still has to look at.

use vstd::prelude::*;

verus! {

/// A set of label numbers that hands out its smallest member first.
#[derive(Debug)]
pub struct WorkQueue {
    ids: Vec<usize>,
}

impl View for WorkQueue {
    type V = Seq<usize>;

    closed spec fn view(&self) -> Seq<usize> {
        self.ids@
    }
}

impl WorkQueue {
    #[verifier::type_invariant]
    spec fn inv(self) -> bool {
        self.ids@.no_duplicates()
    }

    pub fn new() -> (q: Self)
        ensures
            q@ == Seq::<usize>::empty(),
    {
        WorkQueue { ids: Vec::new() }
    }

    pub fn len(&self) -> (n: usize)
        ensures
            n == self@.len(),
    {
        self.ids.len()
    }

    /// Adds `id` unless it is waiting already.
    pub fn push(&mut self, id: usize)
        ensures
            forall|x: usize| final(self)@.contains(x) <==> old(self)@.contains(x) || x == id,
    {
        let mut queue = WorkQueue { ids: Vec::new() };
        core::mem::swap(self, &mut queue);
        proof {
            use_type_invariant(&queue);
        }
        let mut ids = queue.ids;
        let mut i: usize = 0;
        let mut found = false;
        while i < ids.len()
            invariant
                i <= ids.len(),
                found <==> exists|j: int| 0 <= j < i && ids@[j] == id,
            decreases ids.len() - i,
        {
            if ids[i] == id {
                found = true;
            }
            i += 1;
        }
        if !found {
            ids.push(id);
            assert(ids@.last() == id);
            assert forall|x: usize| ids@.contains(x) <==> old(self)@.contains(x) || x == id by {
                if ids@.contains(x) {
                    let j = choose|j: int| 0 <= j < ids@.len() && ids@[j] == x;
                    if j < old(self)@.len() {
                        assert(old(self)@[j] == x);
                    }
                }
                if old(self)@.contains(x) {
                    let j = choose|j: int| 0 <= j < old(self)@.len() && old(self)@[j] == x;
                    assert(ids@[j] == x);
                }
            }
        }
        *self = WorkQueue { ids };
    }

    /// Takes out the smallest number.
    pub fn pop_first(&mut self) -> (r: Option<usize>)
        ensures
            match r {
                None => old(self)@.len() == 0 && final(self)@ == old(self)@,
                Some(id) => old(self)@.contains(id) && final(self)@.len() + 1 == old(self)@.len()
                    && (forall|x: usize| old(self)@.contains(x) ==> id <= x) && (forall|x: usize|
                    final(self)@.contains(x) <==> old(self)@.contains(x) && x != id),
            },
    {
        let mut queue = WorkQueue { ids: Vec::new() };
        core::mem::swap(self, &mut queue);
        proof {
            use_type_invariant(&queue);
        }
        let mut ids = queue.ids;
        if ids.len() == 0 {
            *self = WorkQueue { ids };
            return None;
        }
        let mut best: usize = 0;
        let mut i: usize = 1;
        while i < ids.len()
            invariant
                1 <= i <= ids.len(),
                best < i,
                forall|j: int| 0 <= j < i ==> ids@[best as int] <= ids@[j],
            decreases ids.len() - i,
        {
            if ids[i] < ids[best] {
                best = i;
            }
            i += 1;
        }
        let ghost before = ids@;
        let id = ids.remove(best);
        proof {
            assert(before == old(self)@);
            assert(before[best as int] == id);
            assert forall|x: usize| ids@.contains(x) <==> before.contains(x) && x != id by {
                if ids@.contains(x) {
                    let j = choose|j: int| 0 <= j < ids@.len() && ids@[j] == x;
                    let j0 = if j < best {
                        j
                    } else {
                        j + 1
                    };
                    assert(before[j0] == x);
                    assert(j0 != best);
                }
                if before.contains(x) && x != id {
                    let j = choose|j: int| 0 <= j < before.len() && before[j] == x;
                    let j1 = if j < best {
                        j
                    } else {
                        j - 1
                    };
                    assert(ids@[j1] == x);
                }
            }
            assert forall|a: int, b: int| 0 <= a < ids@.len() && 0 <= b < ids@.len() && a
                != b implies ids@[a] != ids@[b] by {
                let a0 = if a < best {
                    a
                } else {
                    a + 1
                };
                let b0 = if b < best {
                    b
                } else {
                    b + 1
                };
                assert(ids@[a] == before[a0] && ids@[b] == before[b0]);
            }
        }
        *self = WorkQueue { ids };
        Some(id)
    }
}

} // verus!
