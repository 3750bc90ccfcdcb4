//! Why the worklist iteration of liveness analysis ends, and why it ends
//! at the least solution of the liveness equations.

use vstd::prelude::*;
use crate::assign::equations::{
    agree_at,
    agree_on_targets,
    below,
    bounded,
    code_keys,
    lemma_grown,
    lemma_live_at_bounded,
    lemma_live_at_local,
    lemma_live_at_monotone,
    lemma_total_room,
    lemma_universe,
    room,
    total_room,
    universe,
};
use crate::assign::include_liveness::{jump_target, live_at, live_sets, LBlock, LiveMap};
use crate::assign::live_set::{distinct_keys, Key, LiveSet};
use crate::sym_map::{distinct_ids, has_id, value_of};
use crate::symbol::UniqueSym;
use crate::x86::{Instr, VarArg};

verus! {

/// Some instruction of `code` may jump to the label numbered `id`.
pub open spec fn jumps_to<'p>(code: Seq<Instr<'p, VarArg<'p>>>, id: usize) -> bool {
    exists|i: int|
        0 <= i < code.len() && match jump_target(#[trigger] code[i]) {
            Some(lbl) => lbl.id == id,
            None => false,
        }
}

/// The blocks of a function as liveness analysis sees them: `ids[j]` is the
/// number of the label of the `j`-th block, `codes[j]` its instructions,
/// and `exit` the number of the label where the function ends.
pub struct Flow<'p> {
    pub ids: Seq<usize>,
    pub codes: Seq<Seq<Instr<'p, VarArg<'p>>>>,
    pub exit: usize,
}

impl<'p> Flow<'p> {
    pub open spec fn wf(self) -> bool {
        self.ids.len() == self.codes.len() && self.ids.no_duplicates()
    }

    /// `t` is a solution of the liveness equations of the function.
    ///
    /// It knows the exit block; it knows every block that jumps to a block
    /// it knows; and at the start of every block it knows it has at least
    /// what is live there, given what it has at the targets of jumps.
    pub open spec fn solved_by(self, t: LiveMap) -> bool {
        &&& self.ids.contains(self.exit) ==> t.dom().contains(self.exit)
        &&& forall|j: int, x: usize|
            0 <= j < self.ids.len() && #[trigger] jumps_to(self.codes[j], x) && t.dom().contains(x)
                ==> t.dom().contains(self.ids[j])
        &&& forall|j: int|
            0 <= j < self.ids.len() && t.dom().contains(#[trigger] self.ids[j]) ==> live_at(
                self.codes[j],
                t,
                0,
            ).subset_of(t[self.ids[j]])
    }

    /// `t` is the least solution: it is a solution that knows only blocks
    /// of the function, holds exactly what the equations give, and lies
    /// below every other solution.
    pub open spec fn least_solution(self, t: LiveMap) -> bool {
        &&& self.solved_by(t)
        &&& forall|id: usize| #[trigger] t.dom().contains(id) ==> self.ids.contains(id)
        &&& forall|j: int|
            0 <= j < self.ids.len() && t.dom().contains(#[trigger] self.ids[j]) ==> t[self.ids[j]]
                == live_at(self.codes[j], t, 0)
        &&& forall|f: LiveMap| #[trigger] self.solved_by(f) ==> below(t, f)
    }
}

/// The blocks of `blocks` carry the labels and the instructions of `flow`.
pub open spec fn blocks_of<'p>(flow: Flow<'p>, blocks: Seq<(UniqueSym<'p>, LBlock<'p>)>) -> bool {
    &&& blocks.len() == flow.ids.len()
    &&& forall|j: int|
        0 <= j < blocks.len() ==> (#[trigger] blocks[j]).0.id == flow.ids[j] && blocks[j].1.code()
            == flow.codes[j]
}

/// The annotations of the blocks agree with `t`: a block that `t` knows
/// carries what the equations give, and any other block carries empty sets.
pub open spec fn annotations_of<'p>(
    flow: Flow<'p>,
    blocks: Seq<(UniqueSym<'p>, LBlock<'p>)>,
    t: LiveMap,
    waiting: Set<usize>,
) -> bool {
    forall|j: int|
        0 <= j < blocks.len() && !waiting.contains(flow.ids[j]) ==> if t.dom().contains(
            flow.ids[j],
        ) {
            (#[trigger] blocks[j]).1.annotated(t)
        } else {
            forall|i: int|
                0 <= i < blocks[j].1.instrs@.len() ==> (#[trigger] blocks[j].1.instrs@[i]).1.keys()
                    == Set::<Key>::empty()
        }
}

/// The edges of the flow graph are the jumps of the function.
pub open spec fn edges_of<'p>(flow: Flow<'p>, edges: Set<(usize, usize)>) -> bool {
    &&& forall|j: int, x: usize|
        0 <= j < flow.ids.len() && #[trigger] jumps_to(flow.codes[j], x) ==> edges.contains(
            (flow.ids[j], x),
        )
    &&& forall|a: usize, b: usize| #[trigger]
        edges.contains((a, b)) ==> exists|j: int|
            0 <= j < flow.ids.len() && flow.ids[j] == a && #[trigger] jumps_to(flow.codes[j], b)
}

/// What holds each time the analysis takes a block from its queue.
pub open spec fn progress<'p>(
    flow: Flow<'p>,
    blocks: Seq<(UniqueSym<'p>, LBlock<'p>)>,
    before: Seq<(UniqueSym<'p>, LiveSet<'p>)>,
    waiting: Set<usize>,
) -> bool {
    let t = live_sets(before);
    &&& flow.wf()
    &&& blocks_of(flow, blocks)
    &&& distinct_ids(before)
    &&& forall|id: usize| #[trigger] t.dom().contains(id) ==> flow.ids.contains(id)
    &&& bounded(t, universe(flow.codes))
    &&& annotations_of(flow, blocks, t, waiting)
    &&& forall|j: int|
        0 <= j < flow.ids.len() && t.dom().contains(#[trigger] flow.ids[j]) && !waiting.contains(
            flow.ids[j],
        ) ==> t[flow.ids[j]] == live_at(flow.codes[j], t, 0)
    &&& forall|j: int|
        0 <= j < flow.ids.len() && t.dom().contains(#[trigger] flow.ids[j])
            ==> t[flow.ids[j]].subset_of(
            live_at(flow.codes[j], t, 0),
        )
    &&& forall|j: int, x: usize|
        0 <= j < flow.ids.len() && #[trigger] jumps_to(flow.codes[j], x) && t.dom().contains(x)
            ==> t.dom().contains(flow.ids[j]) || waiting.contains(flow.ids[j])
    &&& flow.ids.contains(flow.exit) ==> t.dom().contains(flow.exit) || waiting.contains(flow.exit)
    &&& forall|f: LiveMap| #[trigger]
        flow.solved_by(f) ==> below(t, f) && forall|x: usize|
            waiting.contains(x) && flow.ids.contains(x) ==> f.dom().contains(x)
}

/// With nothing left in the queue, the analysis has the least solution.
pub proof fn lemma_done<'p>(
    flow: Flow<'p>,
    blocks: Seq<(UniqueSym<'p>, LBlock<'p>)>,
    before: Seq<(UniqueSym<'p>, LiveSet<'p>)>,
    waiting: Set<usize>,
)
    requires
        progress(flow, blocks, before, waiting),
        forall|x: usize| !waiting.contains(x),
    ensures
        flow.least_solution(live_sets(before)),
        annotations_of(flow, blocks, live_sets(before), Set::empty()),
{
    let t = live_sets(before);
    assert(flow.solved_by(t));
}

/// Taking a number that is no block from the queue changes nothing else.
pub proof fn lemma_skip<'p>(
    flow: Flow<'p>,
    blocks: Seq<(UniqueSym<'p>, LBlock<'p>)>,
    before: Seq<(UniqueSym<'p>, LiveSet<'p>)>,
    waiting: Set<usize>,
    rest: Set<usize>,
    id: usize,
)
    requires
        progress(flow, blocks, before, waiting),
        !flow.ids.contains(id),
        forall|x: usize| rest.contains(x) <==> waiting.contains(x) && x != id,
    ensures
        progress(flow, blocks, before, rest),
{
    let t = live_sets(before);
    assert forall|j: int| 0 <= j < flow.ids.len() implies (waiting.contains(#[trigger] flow.ids[j])
        <==> rest.contains(flow.ids[j])) by {
        assert(flow.ids.contains(flow.ids[j]));
    }
    assert forall|f: LiveMap| #[trigger] flow.solved_by(f) implies below(t, f) && forall|x: usize|
        rest.contains(x) && flow.ids.contains(x) ==> f.dom().contains(x) by {
        assert forall|x: usize| rest.contains(x) && flow.ids.contains(x) implies f.dom().contains(
            x,
        ) by {
            assert(waiting.contains(x));
        }
    }
}

/// Looking at a block again and finding what was there before leaves the
/// analysis where it was, with one block less to look at.
pub proof fn lemma_unchanged<'p>(
    flow: Flow<'p>,
    blocks: Seq<(UniqueSym<'p>, LBlock<'p>)>,
    blocks2: Seq<(UniqueSym<'p>, LBlock<'p>)>,
    before: Seq<(UniqueSym<'p>, LiveSet<'p>)>,
    waiting: Set<usize>,
    rest: Set<usize>,
    j: int,
)
    requires
        progress(flow, blocks, before, waiting),
        0 <= j < flow.ids.len(),
        forall|x: usize| rest.contains(x) <==> waiting.contains(x) && x != flow.ids[j],
        blocks2.len() == blocks.len(),
        forall|k: int| 0 <= k < blocks.len() && k != j ==> blocks2[k] == blocks[k],
        blocks2[j].0 == blocks[j].0,
        blocks2[j].1.code() == flow.codes[j],
        blocks2[j].1.annotated(live_sets(before)),
        live_sets(before).dom().contains(flow.ids[j]),
        live_sets(before)[flow.ids[j]] == live_at(flow.codes[j], live_sets(before), 0),
    ensures
        progress(flow, blocks2, before, rest),
{
    let t = live_sets(before);
    let id = flow.ids[j];
    assert forall|k: int| 0 <= k < flow.ids.len() && k != j implies (waiting.contains(
        #[trigger] flow.ids[k],
    ) <==> rest.contains(flow.ids[k])) by {
        assert(flow.ids[k] != flow.ids[j]);
    }
    assert(annotations_of(flow, blocks2, t, rest)) by {
        assert forall|k: int| 0 <= k < blocks2.len() && !rest.contains(flow.ids[k])
            implies if t.dom().contains(
            flow.ids[k],
        ) {
            (#[trigger] blocks2[k]).1.annotated(t)
        } else {
            forall|i: int|
                0 <= i < blocks2[k].1.instrs@.len()
                    ==> (#[trigger] blocks2[k].1.instrs@[i]).1.keys()
                    == Set::<Key>::empty()
        } by {
            if k != j {
                assert(blocks2[k] == blocks[k]);
                assert(!waiting.contains(flow.ids[k]));
            }
        }
    }
    assert forall|f: LiveMap| #[trigger] flow.solved_by(f) implies below(t, f) && forall|x: usize|
        rest.contains(x) && flow.ids.contains(x) ==> f.dom().contains(x) by {
        assert forall|x: usize| rest.contains(x) && flow.ids.contains(x) implies f.dom().contains(
            x,
        ) by {
            assert(waiting.contains(x));
        }
    }
    assert forall|k: int, x: usize|
        0 <= k < flow.ids.len() && #[trigger] jumps_to(flow.codes[k], x) && t.dom().contains(
            x,
        ) implies t.dom().contains(flow.ids[k]) || rest.contains(flow.ids[k]) by {
        if k != j {
            assert(flow.ids[k] != flow.ids[j]);
        }
    }
}


/// A block that does not jump to the label numbered `id` is not affected by
/// what the analysis learns about that label.
pub proof fn lemma_no_jump<'p>(
    code: Seq<Instr<'p, VarArg<'p>>>,
    t: LiveMap,
    t2: LiveMap,
    id: usize,
    i: int,
)
    requires
        !jumps_to(code, id),
        forall|x: usize| x != id ==> agree_at(t, t2, x),
    ensures
        live_at(code, t, i) == live_at(code, t2, i),
{
    assert forall|k: int| 0 <= k < code.len() implies match jump_target(#[trigger] code[k]) {
        Some(lbl) => agree_at(t, t2, lbl.id),
        None => true,
    } by {
        match jump_target(code[k]) {
            Some(lbl) => {
                if lbl.id == id {
                    assert(jumps_to(code, id));
                }
            },
            None => {},
        }
    }
    assert(agree_on_targets(code, t, t2));
    lemma_live_at_local(code, t, t2, i);
}

/// Looking at a block and finding more than was there before: the block's
/// set is replaced, and every block that jumps to it goes into the queue.
pub proof fn lemma_changed<'p>(
    flow: Flow<'p>,
    edges: Set<(usize, usize)>,
    blocks: Seq<(UniqueSym<'p>, LBlock<'p>)>,
    blocks2: Seq<(UniqueSym<'p>, LBlock<'p>)>,
    before: Seq<(UniqueSym<'p>, LiveSet<'p>)>,
    before2: Seq<(UniqueSym<'p>, LiveSet<'p>)>,
    waiting: Set<usize>,
    rest: Set<usize>,
    j: int,
)
    requires
        progress(flow, blocks, before, waiting),
        edges_of(flow, edges),
        0 <= j < flow.ids.len(),
        waiting.contains(flow.ids[j]),
        forall|x: usize|
            rest.contains(x) <==> (waiting.contains(x) && x != flow.ids[j]) || edges.contains(
                (x, flow.ids[j]),
            ),
        blocks2.len() == blocks.len(),
        forall|k: int| 0 <= k < blocks.len() && k != j ==> blocks2[k] == blocks[k],
        blocks2[j].0 == blocks[j].0,
        blocks2[j].1.code() == flow.codes[j],
        blocks2[j].1.annotated(live_sets(before)),
        distinct_ids(before2),
        forall|x: usize| has_id(before2, x) <==> has_id(before, x) || x == flow.ids[j],
        value_of(before2, flow.ids[j]).keys() == live_at(flow.codes[j], live_sets(before), 0),
        forall|x: usize|
            x != flow.ids[j] && has_id(before, x) ==> value_of(before2, x) == value_of(before, x),
    ensures
        progress(flow, blocks2, before2, rest),
        below(live_sets(before), live_sets(before2)),
{
    let t = live_sets(before);
    let t2 = live_sets(before2);
    let id = flow.ids[j];
    let u = universe(flow.codes);
    assert(flow.ids.contains(id));
    assert(t2.dom().contains(id));
    assert(t2[id] == live_at(flow.codes[j], t, 0));
    assert forall|x: usize| x != id implies agree_at(t, t2, x) by {}
    assert(below(t, t2)) by {
        assert forall|x: usize| #[trigger] t.dom().contains(x) implies t2.dom().contains(x)
            && t[x].subset_of(t2[x]) by {
            if x == id {
                assert(t[flow.ids[j]].subset_of(live_at(flow.codes[j], t, 0)));
            }
        }
    }
    assert forall|k: int| 0 <= k < flow.ids.len() && k != j implies flow.ids[k] != id by {}
    // Blocks that jump to the block just looked at are in the queue.
    assert forall|k: int| 0 <= k < flow.ids.len() && !rest.contains(flow.ids[k]) implies !jumps_to(
        flow.codes[k],
        id,
    ) by {
        if jumps_to(flow.codes[k], id) {
            assert(edges.contains((flow.ids[k], id)));
        }
    }
    assert(blocks_of(flow, blocks2)) by {
        assert forall|k: int| 0 <= k < blocks2.len() implies (#[trigger] blocks2[k]).0.id
            == flow.ids[k] && blocks2[k].1.code() == flow.codes[k] by {
            if k != j {
                assert(blocks2[k] == blocks[k]);
            }
        }
    }
    assert(bounded(t2, u)) by {
        lemma_universe(flow.codes, j);
        lemma_live_at_bounded(flow.codes[j], t, u, 0);
        assert forall|x: usize| #[trigger] t2.dom().contains(x) implies t2[x].subset_of(u) by {
            if x != id {
                assert(t.dom().contains(x));
            }
        }
    }
    assert(annotations_of(flow, blocks2, t2, rest)) by {
        assert forall|k: int| 0 <= k < blocks2.len() && !rest.contains(flow.ids[k])
            implies if t2.dom().contains(
            flow.ids[k],
        ) {
            (#[trigger] blocks2[k]).1.annotated(t2)
        } else {
            forall|i: int|
                0 <= i < blocks2[k].1.instrs@.len()
                    ==> (#[trigger] blocks2[k].1.instrs@[i]).1.keys()
                    == Set::<Key>::empty()
        } by {
            assert(!jumps_to(flow.codes[k], id));
            if k == j {
                assert forall|i: int| 0 <= i < blocks2[j].1.instrs@.len() implies (
                #[trigger] blocks2[j].1.instrs@[i]).1.keys() == live_at(
                    blocks2[j].1.code(),
                    t2,
                    i + 1,
                ) by {
                    lemma_no_jump(flow.codes[j], t, t2, id, i + 1);
                }
            } else {
                assert(blocks2[k] == blocks[k]);
                assert(!waiting.contains(flow.ids[k]));
                if t2.dom().contains(flow.ids[k]) {
                    assert(t.dom().contains(flow.ids[k]));
                    assert(blocks[k].1.annotated(t));
                    assert forall|i: int| 0 <= i < blocks2[k].1.instrs@.len() implies (
                    #[trigger] blocks2[k].1.instrs@[i]).1.keys() == live_at(
                        blocks2[k].1.code(),
                        t2,
                        i + 1,
                    ) by {
                        lemma_no_jump(flow.codes[k], t, t2, id, i + 1);
                    }
                } else {
                    assert(!t.dom().contains(flow.ids[k]));
                }
            }
        }
    }
    assert forall|k: int|
        0 <= k < flow.ids.len() && t2.dom().contains(#[trigger] flow.ids[k]) && !rest.contains(
            flow.ids[k],
        ) implies t2[flow.ids[k]] == live_at(flow.codes[k], t2, 0) by {
        assert(!jumps_to(flow.codes[k], id));
        lemma_no_jump(flow.codes[k], t, t2, id, 0);
        if k != j {
            assert(!waiting.contains(flow.ids[k]));
            assert(t.dom().contains(flow.ids[k]));
        }
    }
    assert forall|k: int|
        0 <= k < flow.ids.len() && t2.dom().contains(
            #[trigger] flow.ids[k],
        ) implies t2[flow.ids[k]].subset_of(live_at(flow.codes[k], t2, 0)) by {
        lemma_live_at_monotone(flow.codes[k], t, t2, 0);
        if k != j {
            assert(t.dom().contains(flow.ids[k]));
        }
    }
    assert forall|k: int, x: usize|
        0 <= k < flow.ids.len() && #[trigger] jumps_to(flow.codes[k], x) && t2.dom().contains(
            x,
        ) implies t2.dom().contains(flow.ids[k]) || rest.contains(flow.ids[k]) by {
        if x == id {
            assert(edges.contains((flow.ids[k], id)));
        } else {
            assert(t.dom().contains(x));
        }
    }
    assert forall|f: LiveMap| #[trigger] flow.solved_by(f) implies below(t2, f) && forall|x: usize|
        rest.contains(x) && flow.ids.contains(x) ==> f.dom().contains(x) by {
        assert(below(t, f));
        assert(f.dom().contains(id));
        lemma_live_at_monotone(flow.codes[j], t, f, 0);
        assert(live_at(flow.codes[j], f, 0).subset_of(f[flow.ids[j]]));
        assert forall|x: usize| #[trigger] t2.dom().contains(x) implies f.dom().contains(x)
            && t2[x].subset_of(f[x]) by {
            if x != id {
                assert(t.dom().contains(x));
            }
        }
        assert forall|x: usize| rest.contains(x) && flow.ids.contains(x) implies f.dom().contains(
            x,
        ) by {
            if edges.contains((x, id)) {
                let k = choose|k: int|
                    0 <= k < flow.ids.len() && flow.ids[k] == x && #[trigger] jumps_to(
                        flow.codes[k],
                        id,
                    );
                assert(jumps_to(flow.codes[k], id) && f.dom().contains(id));
            }
        }
    }
    assert forall|x: usize| #[trigger] t2.dom().contains(x) implies flow.ids.contains(x) by {
        if x != id {
            assert(t.dom().contains(x));
        }
    }
}

/// The measure that shows the analysis ends: how much room there is left
/// for the sets of all blocks to grow.
pub open spec fn room_left<'p>(flow: Flow<'p>, before: Seq<(UniqueSym<'p>, LiveSet<'p>)>) -> nat {
    total_room(flow.ids, before, universe(flow.codes).len(), flow.ids.len() as int)
}

/// Replacing a block's set by a different one that the equations give
/// leaves less room.
pub proof fn lemma_less_room<'p>(
    flow: Flow<'p>,
    blocks: Seq<(UniqueSym<'p>, LBlock<'p>)>,
    before: Seq<(UniqueSym<'p>, LiveSet<'p>)>,
    before2: Seq<(UniqueSym<'p>, LiveSet<'p>)>,
    waiting: Set<usize>,
    j: int,
)
    requires
        progress(flow, blocks, before, waiting),
        0 <= j < flow.ids.len(),
        forall|x: usize| has_id(before2, x) <==> has_id(before, x) || x == flow.ids[j],
        value_of(before2, flow.ids[j]).keys() == live_at(flow.codes[j], live_sets(before), 0),
        distinct_keys(value_of(before2, flow.ids[j])@),
        has_id(before, flow.ids[j]) ==> distinct_keys(value_of(before, flow.ids[j])@) && value_of(
            before,
            flow.ids[j],
        ).keys() != value_of(before2, flow.ids[j]).keys(),
        forall|x: usize|
            x != flow.ids[j] && has_id(before, x) ==> value_of(before2, x) == value_of(before, x),
    ensures
        room_left(flow, before2) < room_left(flow, before),
{
    let t = live_sets(before);
    let id = flow.ids[j];
    let u = universe(flow.codes);
    lemma_universe(flow.codes, j);
    lemma_live_at_bounded(flow.codes[j], t, u, 0);
    let new_set = value_of(before2, id)@;
    if has_id(before, id) {
        assert(t.dom().contains(flow.ids[j]));
        assert(t[flow.ids[j]].subset_of(live_at(flow.codes[j], t, 0)));
        lemma_grown(value_of(before, id)@, new_set, u);
    } else {
        lemma_grown(Seq::empty(), new_set, u);
    }
    assert(room(before2, id, u.len()) < room(before, id, u.len()));
    assert forall|x: usize| x != id implies room(before2, x, u.len()) == room(
        before,
        x,
        u.len(),
    ) by {}
    lemma_total_room(flow.ids, before, before2, u.len(), j, flow.ids.len() as int);
}

} // verus!
