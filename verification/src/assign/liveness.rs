//! Liveness analysis of whole functions and programs.

use vstd::prelude::*;
use crate::assign::fixpoint::{
    annotations_of,
    edges_of,
    jumps_to,
    lemma_changed,
    lemma_done,
    lemma_less_room,
    lemma_skip,
    lemma_unchanged,
    progress,
    room_left,
    Flow,
};
use crate::assign::graph::{flow_edges, flow_graph, predecessors};
use crate::assign::include_liveness::{block_liveness, jump_target, live_sets, LBlock};
use crate::assign::live_set::{Key, LiveSet};
use crate::assign::work_queue::WorkQueue;
use crate::select::{FunSelected, X86Selected};
use crate::sym_map::{has_id, SymMap};
use crate::symbol::UniqueSym;
use crate::x86::{Block, Instr, VarArg};

verus! {

/// A function whose instructions carry what is live after them.
#[derive(Debug)]
pub struct LFun<'p> {
    pub blocks: SymMap<'p, LBlock<'p>>,
    /// For each block from which the exit can be reached: what is live at
    /// its start.
    pub before_map: SymMap<'p, LiveSet<'p>>,
    pub entry: UniqueSym<'p>,
    pub exit: UniqueSym<'p>,
}

/// A program whose instructions carry what is live after them.
#[derive(Debug)]
pub struct LX86VarProgram<'p> {
    pub fns: SymMap<'p, LFun<'p>>,
    pub entry: UniqueSym<'p>,
}

/// The labels and instructions of a function, as liveness analysis sees them.
pub open spec fn flow_of<'p>(fun: FunSelected<'p>) -> Flow<'p> {
    Flow {
        ids: Seq::new(fun.blocks@.len(), |j: int| fun.blocks@[j].0.id),
        codes: Seq::new(fun.blocks@.len(), |j: int| fun.blocks@[j].1.instrs@),
        exit: fun.exit.id,
    }
}

impl<'p> LFun<'p> {
    /// `self` is `fun` with the result of its liveness analysis: the same
    /// blocks, the least solution of the liveness equations in
    /// `before_map`, and at each instruction what that solution gives.
    pub open spec fn analysis_of(self, fun: FunSelected<'p>) -> bool {
        &&& self.entry == fun.entry
        &&& self.exit == fun.exit
        &&& self.blocks@.len() == fun.blocks@.len()
        &&& forall|j: int|
            0 <= j < self.blocks@.len() ==> (#[trigger] self.blocks@[j]).0 == fun.blocks@[j].0
                && self.blocks@[j].1.code() == fun.blocks@[j].1.instrs@
        &&& flow_of(fun).least_solution(live_sets(self.before_map@))
        &&& annotations_of(flow_of(fun), self.blocks@, live_sets(self.before_map@), Set::empty())
    }
}

/// The pairs in `edges` are the jumps of the first `n` blocks.
spec fn edges_upto<'p>(
    blocks: Seq<(UniqueSym<'p>, Block<'p, VarArg<'p>>)>,
    n: int,
    edges: Seq<(usize, usize)>,
) -> bool {
    &&& forall|k: int, x: usize|
        0 <= k < n && #[trigger] jumps_to(blocks[k].1.instrs@, x) ==> edges.contains(
            (blocks[k].0.id, x),
        )
    &&& forall|e: (usize, usize)| #[trigger]
        edges.contains(e) ==> exists|k: int|
            0 <= k < n && blocks[k].0.id == e.0 && #[trigger] jumps_to(blocks[k].1.instrs@, e.1)
}

/// The first `i` instructions of `code` jump to the label numbered `x`.
spec fn jumps_within<'p>(code: Seq<Instr<'p, VarArg<'p>>>, i: int, x: usize) -> bool {
    exists|m: int|
        0 <= m < i && match jump_target(#[trigger] code[m]) {
            Some(lbl) => lbl.id == x,
            None => false,
        }
}

proof fn lemma_jumps_within_step<'p>(code: Seq<Instr<'p, VarArg<'p>>>, i: int, x: usize)
    requires
        0 <= i < code.len(),
    ensures
        jumps_within(code, i + 1, x) <==> jumps_within(code, i, x) || match jump_target(code[i]) {
            Some(lbl) => lbl.id == x,
            None => false,
        },
{
    if jumps_within(code, i + 1, x) {
        let m = choose|m: int|
            0 <= m < i + 1 && match jump_target(#[trigger] code[m]) {
                Some(l) => l.id == x,
                None => false,
            };
        if m < i {
            assert(jumps_within(code, i, x));
        }
    }
    if jumps_within(code, i, x) {
        let m = choose|m: int|
            0 <= m < i && match jump_target(#[trigger] code[m]) {
                Some(l) => l.id == x,
                None => false,
            };
        assert(0 <= m < i + 1);
        assert(jumps_within(code, i + 1, x));
    }
    let here = match jump_target(code[i]) {
        Some(lbl) => lbl.id == x,
        None => false,
    };
    if here {
        assert(jumps_within(code, i + 1, x));
    }
}

proof fn lemma_pushed<A>(s: Seq<A>, a: A)
    ensures
        forall|x: A| s.push(a).contains(x) <==> s.contains(x) || x == a,
{
    assert forall|x: A| s.push(a).contains(x) <==> s.contains(x) || x == a by {
        if s.push(a).contains(x) {
            let i = choose|i: int| 0 <= i < s.push(a).len() && s.push(a)[i] == x;
            if i < s.len() {
                assert(s[i] == x);
            }
        }
        if s.contains(x) {
            let i = choose|i: int| 0 <= i < s.len() && s[i] == x;
            assert(s.push(a)[i] == x);
        }
        if x == a {
            assert(s.push(a)[s.len() as int] == x);
        }
    }
}

/// Copies the blocks of `fun` with empty annotations, and collects the
/// jumps between them.
fn unannotated<'p>(fun: &FunSelected<'p>) -> (r: (SymMap<'p, LBlock<'p>>, Vec<(usize, usize)>))
    ensures
        r.0@.len() == fun.blocks@.len(),
        forall|j: int|
            0 <= j < r.0@.len() ==> (#[trigger] r.0@[j]).0 == fun.blocks@[j].0 && r.0@[j].1.code()
                == fun.blocks@[j].1.instrs@,
        forall|j: int, i: int|
            0 <= j < r.0@.len() && 0 <= i < r.0@[j].1.instrs@.len() ==> (
            #[trigger] r.0@[j].1.instrs@[i]).1.keys() == Set::<Key>::empty(),
        edges_upto(fun.blocks@, fun.blocks@.len() as int, r.1@),
{
    let n = fun.blocks.len();
    let mut liveness: SymMap<'p, LBlock<'p>> = SymMap::new();
    let mut edges: Vec<(usize, usize)> = Vec::new();
    let mut j: usize = 0;
    while j < n
        invariant
            j <= n,
            n == fun.blocks@.len(),
            fun.blocks.wf(),
            liveness@.len() == j,
            forall|k: int|
                0 <= k < j ==> (#[trigger] liveness@[k]).0 == fun.blocks@[k].0
                    && liveness@[k].1.code() == fun.blocks@[k].1.instrs@,
            forall|k: int, i: int|
                0 <= k < j && 0 <= i < liveness@[k].1.instrs@.len() ==> (
                #[trigger] liveness@[k].1.instrs@[i]).1.keys() == Set::<Key>::empty(),
            edges_upto(fun.blocks@, j as int, edges@),
        decreases n - j,
    {
        let lbl = fun.blocks.key_at(j);
        let block = fun.blocks.value_at(j);
        let ghost code = block.instrs@;
        let ghost edges0 = edges@;
        let mut instrs: Vec<(Instr<'p, VarArg<'p>>, LiveSet<'p>)> = Vec::new();
        let mut i: usize = 0;
        while i < block.instrs.len()
            invariant
                i <= block.instrs@.len(),
                code == block.instrs@,
                instrs@.len() == i,
                forall|m: int|
                    0 <= m < i ==> (#[trigger] instrs@[m]).0 == code[m] && instrs@[m].1.keys()
                        == Set::<Key>::empty(),
                forall|e: (usize, usize)|
                    #![trigger edges@.contains(e)]
                    edges@.contains(e) <==> edges0.contains(e) || (e.0 == lbl.id && jumps_within(
                        code,
                        i as int,
                        e.1,
                    )),
            decreases block.instrs@.len() - i,
        {
            let instr = block.instrs[i];
            let ghost edges1 = edges@;
            match instr {
                Instr::Jmp { lbl: target } | Instr::Jcc { lbl: target, .. } => {
                    edges.push((lbl.id, target.id));
                    proof {
                        lemma_pushed(edges1, (lbl.id, target.id));
                    }
                },
                _ => {},
            }
            instrs.push((instr, LiveSet::new()));
            proof {
                assert forall|e: (usize, usize)|
                    #![trigger edges@.contains(e)]
                    edges@.contains(e) <==> edges0.contains(e) || (e.0 == lbl.id && jumps_within(
                        code,
                        i + 1,
                        e.1,
                    )) by {
                    lemma_jumps_within_step(code, i as int, e.1);
                    assert(edges1.contains(e) <==> edges0.contains(e) || (e.0 == lbl.id
                        && jumps_within(code, i as int, e.1)));
                    match jump_target(code[i as int]) {
                        Some(l) => {
                            assert(edges@.contains(e) <==> edges1.contains(e) || e == (
                                lbl.id,
                                l.id,
                            ));
                        },
                        None => {
                            assert(edges@ == edges1);
                        },
                    }
                }
            }
            i += 1;
        }
        let lblock = LBlock { instrs };
        assert(lblock.code() =~= code);
        proof {
            if has_id(liveness@, lbl.id) {
                let k = choose|k: int|
                    0 <= k < liveness@.len() && #[trigger] liveness@[k].0.id == lbl.id;
                assert(fun.blocks@[k].0.id != fun.blocks@[j as int].0.id);
            }
            assert forall|x: usize| jumps_within(code, code.len() as int, x) <==> jumps_to(
                code,
                x,
            ) by {
                if jumps_within(code, code.len() as int, x) {
                    let m = choose|m: int|
                        0 <= m < code.len() && match jump_target(#[trigger] code[m]) {
                            Some(l) => l.id == x,
                            None => false,
                        };
                    assert(jumps_to(code, x));
                }
                if jumps_to(code, x) {
                    let m = choose|m: int|
                        0 <= m < code.len() && match jump_target(#[trigger] code[m]) {
                            Some(l) => l.id == x,
                            None => false,
                        };
                    assert(jumps_within(code, code.len() as int, x));
                }
            }
            assert(edges_upto(fun.blocks@, j + 1, edges@)) by {
                assert(fun.blocks@[j as int].1.instrs@ == code);
                assert(fun.blocks@[j as int].0.id == lbl.id);
                assert forall|k: int, x: usize|
                    0 <= k < j + 1 && #[trigger] jumps_to(
                        fun.blocks@[k].1.instrs@,
                        x,
                    ) implies edges@.contains((fun.blocks@[k].0.id, x)) by {
                    let e = (fun.blocks@[k].0.id, x);
                    if k < j {
                        assert(edges0.contains(e));
                        assert(edges@.contains(e));
                    } else {
                        assert(jumps_within(code, code.len() as int, x));
                        assert(e.0 == lbl.id && e.1 == x);
                        assert(edges@.contains(e));
                    }
                }
                assert forall|e: (usize, usize)| #[trigger] edges@.contains(e) implies exists|
                    k: int,
                |
                    0 <= k < j + 1 && fun.blocks@[k].0.id == e.0 && #[trigger] jumps_to(
                        fun.blocks@[k].1.instrs@,
                        e.1,
                    ) by {
                    if edges0.contains(e) {
                        let k = choose|k: int|
                            0 <= k < j && fun.blocks@[k].0.id == e.0 && #[trigger] jumps_to(
                                fun.blocks@[k].1.instrs@,
                                e.1,
                            );
                        assert(0 <= k < j + 1 && fun.blocks@[k].0.id == e.0 && jumps_to(
                            fun.blocks@[k].1.instrs@,
                            e.1,
                        ));
                    } else {
                        assert(jumps_within(code, code.len() as int, e.1));
                        assert(jumps_to(fun.blocks@[j as int].1.instrs@, e.1));
                    }
                }
            }
        }
        liveness.insert(lbl, lblock);
        j += 1;
    }
    (liveness, edges)
}


/// Analyses one function: iterates over its blocks, starting at the exit
/// and going back along the jumps, until nothing changes any more.
pub fn fn_liveness<'p>(fun: &FunSelected<'p>) -> (out: LFun<'p>)
    ensures
        out.analysis_of(*fun),
{
    let ghost flow = flow_of(*fun);
    let (mut liveness, edges) = unannotated(fun);
    let graph = flow_graph(&edges);
    let mut queue = WorkQueue::new();
    queue.push(fun.exit.id);
    let mut before_map: SymMap<'p, LiveSet<'p>> = SymMap::new();
    let n = fun.blocks.len();
    proof {
        assert(flow.wf()) by {
            assert forall|a: int, b: int|
                0 <= a < flow.ids.len() && 0 <= b < flow.ids.len() && a != b implies flow.ids[a]
                != flow.ids[b] by {
                if a < b {
                    assert(fun.blocks@[a].0.id != fun.blocks@[b].0.id);
                } else {
                    assert(fun.blocks@[b].0.id != fun.blocks@[a].0.id);
                }
            }
        }
        assert(edges_of(flow, flow_edges(graph))) by {
            assert forall|j: int, x: usize|
                0 <= j < flow.ids.len() && #[trigger] jumps_to(
                    flow.codes[j],
                    x,
                ) implies flow_edges(graph).contains((flow.ids[j], x)) by {
                assert(jumps_to(fun.blocks@[j].1.instrs@, x));
                assert(edges@.contains((fun.blocks@[j].0.id, x)));
            }
            assert forall|a: usize, b: usize| #[trigger]
                flow_edges(graph).contains((a, b)) implies exists|j: int|
                0 <= j < flow.ids.len() && flow.ids[j] == a && #[trigger] jumps_to(
                    flow.codes[j],
                    b,
                ) by {
                assert(edges@.contains((a, b)));
                let k = choose|k: int|
                    0 <= k < fun.blocks@.len() && fun.blocks@[k].0.id == a && #[trigger] jumps_to(
                        fun.blocks@[k].1.instrs@,
                        b,
                    );
                assert(flow.ids[k] == a && jumps_to(flow.codes[k], b));
            }
        }
        assert(live_sets(before_map@) =~= Map::<usize, Set<Key>>::empty());
        assert(progress(flow, liveness@, before_map@, queue@.to_set()));
    }
    while queue.len() > 0
        invariant
            flow == flow_of(*fun),
            edges_of(flow, flow_edges(graph)),
            progress(flow, liveness@, before_map@, queue@.to_set()),
            liveness@.len() == fun.blocks@.len(),
            forall|j: int|
                0 <= j < liveness@.len() ==> (#[trigger] liveness@[j]).0 == fun.blocks@[j].0
                    && liveness@[j].1.code() == fun.blocks@[j].1.instrs@,
        decreases room_left(flow, before_map@), queue@.len(),
    {
        let ghost waiting = queue@.to_set();
        let ghost blocks = liveness@;
        let ghost before0 = before_map@;
        let popped = queue.pop_first();
        let id = popped.unwrap();
        let ghost rest = queue@.to_set();
        match liveness.find(id) {
            None => {
                proof {
                    assert(!flow.ids.contains(id)) by {
                        if flow.ids.contains(id) {
                            let j = choose|j: int| 0 <= j < flow.ids.len() && flow.ids[j] == id;
                            assert(liveness@[j].0.id == id);
                        }
                    }
                    lemma_skip(flow, blocks, before0, waiting, rest, id);
                }
            },
            Some(j) => {
                let lbl = liveness.key_at(j);
                let mut block = liveness.replace_at(j, LBlock { instrs: Vec::new() });
                let before = block_liveness(&mut block, &before_map);
                liveness.replace_at(j, block);
                let same = match before_map.get(id) {
                    Some(known) => {
                        proof {
                            use_type_invariant(known);
                        }
                        known.same_as(&before)
                    },
                    None => false,
                };
                proof {
                    assert(flow.ids[j as int] == id);
                    assert(liveness@.len() == blocks.len());
                    assert(liveness@[j as int].0 == blocks[j as int].0);
                    assert(liveness@[j as int].1.code() == flow.codes[j as int]);
                }
                if same {
                    proof {
                        lemma_unchanged(flow, blocks, liveness@, before0, waiting, rest, j as int);
                    }
                } else {
                    let preds = predecessors(&graph, id);
                    let mut k: usize = 0;
                    while k < preds.len()
                        invariant
                            k <= preds@.len(),
                            forall|x: usize|
                                #![trigger queue@.contains(x)]
                                queue@.contains(x) <==> rest.contains(x) || preds@.take(
                                    k as int,
                                ).contains(x),
                        decreases preds@.len() - k,
                    {
                        proof {
                            lemma_pushed(preds@.take(k as int), preds@[k as int]);
                            assert(preds@.take(k + 1) =~= preds@.take(k as int).push(
                                preds@[k as int],
                            ));
                        }
                        queue.push(preds[k]);
                        k += 1;
                    }
                    assert(preds@.take(k as int) =~= preds@);
                    proof {
                        use_type_invariant(&before);
                    }
                    before_map.insert(lbl, before);
                    proof {
                        let after = queue@.to_set();
                        assert forall|x: usize|
                            after.contains(x) <==> (waiting.contains(x) && x != flow.ids[j as int])
                                || flow_edges(graph).contains((x, flow.ids[j as int])) by {
                            assert(after.contains(x) <==> queue@.contains(x));
                            assert(rest.contains(x) <==> waiting.contains(x) && x != id);
                            assert(preds@.contains(x) <==> flow_edges(graph).contains((x, id)));
                        }
                        lemma_less_room(flow, blocks, before0, before_map@, waiting, j as int);
                        lemma_changed(
                            flow,
                            flow_edges(graph),
                            blocks,
                            liveness@,
                            before0,
                            before_map@,
                            waiting,
                            after,
                            j as int,
                        );
                    }
                }
            },
        }
    }
    proof {
        lemma_done(flow, liveness@, before_map@, queue@.to_set());
    }
    LFun { blocks: liveness, before_map, entry: fun.entry, exit: fun.exit }
}


impl<'p> LX86VarProgram<'p> {
    /// `self` is `prog` with the liveness analysis of each of its functions.
    pub open spec fn analysis_of(self, prog: X86Selected<'p>) -> bool {
        &&& self.entry == prog.entry
        &&& self.fns@.len() == prog.fns@.len()
        &&& forall|j: int|
            0 <= j < self.fns@.len() ==> (#[trigger] self.fns@[j]).0 == prog.fns@[j].0
                && self.fns@[j].1.analysis_of(prog.fns@[j].1)
    }
}

impl<'p> X86Selected<'p> {
    /// Annotates every instruction with the locations that are live after it.
    #[must_use]
    pub fn include_liveness(self) -> (out: LX86VarProgram<'p>)
        ensures
            out.analysis_of(self),
    {
        let n = self.fns.len();
        let mut fns: SymMap<'p, LFun<'p>> = SymMap::new();
        let mut j: usize = 0;
        while j < n
            invariant
                j <= n,
                n == self.fns@.len(),
                self.fns.wf(),
                fns@.len() == j,
                forall|k: int|
                    0 <= k < j ==> (#[trigger] fns@[k]).0 == self.fns@[k].0
                        && fns@[k].1.analysis_of(self.fns@[k].1),
            decreases n - j,
        {
            let sym = self.fns.key_at(j);
            let fun = fn_liveness(self.fns.value_at(j));
            proof {
                if has_id(fns@, sym.id) {
                    let k = choose|k: int| 0 <= k < fns@.len() && #[trigger] fns@[k].0.id == sym.id;
                    assert(self.fns@[k].0.id != self.fns@[j as int].0.id);
                }
            }
            fns.insert(sym, fun);
            j += 1;
        }
        LX86VarProgram { fns, entry: self.entry }
    }
}

} // verus!
