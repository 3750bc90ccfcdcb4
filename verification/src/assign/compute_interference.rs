//! Construction of the interference graph: which locations cannot share a
//! home because one is written while the other is live.

use vstd::prelude::*;
use crate::assign::graph::{add_edge, add_node, adjacent, empty_graph, nodes, InterferenceGraph};
use crate::assign::include_liveness::{accesses, handle_instr, Access, LBlock, ReadWriteOp};
use crate::assign::live_set::{key_set, Key, LArg, LiveSet};
use crate::assign::liveness::{LFun, LX86VarProgram};
use crate::sym_map::{has_id, SymMap};
use crate::symbol::UniqueSym;
use crate::x86::{Block, Instr, VarArg};

verus! {

/// A function with the interference graph of its locations.
#[derive(Debug)]
pub struct FunWithInterference<'p> {
    pub blocks: SymMap<'p, Block<'p, VarArg<'p>>>,
    pub interference: InterferenceGraph,
    pub entry: UniqueSym<'p>,
    pub exit: UniqueSym<'p>,
}

/// A program with an interference graph for each function.
#[derive(Debug)]
pub struct X86WithInterference<'p> {
    pub fns: SymMap<'p, FunWithInterference<'p>>,
    pub entry: UniqueSym<'p>,
}

/// The location that an access overwrites, if it overwrites a register or
/// a variable.
pub open spec fn write_key<'p>(acc: Access<'p>) -> Option<Key> {
    if acc.1 == ReadWriteOp::Read {
        None
    } else {
        match acc.0 {
            VarArg::Reg(reg) => Some((LArg::Reg { reg }).key()),
            VarArg::XVar(sym) => Some((LArg::Var { sym }).key()),
            _ => None,
        }
    }
}

/// The locations that the accesses `accs` overwrite.
pub open spec fn writes_of<'p>(accs: Seq<Access<'p>>) -> Set<Key> {
    Set::new(|k: Key| exists|m: int| 0 <= m < accs.len() && write_key(#[trigger] accs[m])
        == Some(k))
}

/// The locations that `instr` overwrites.
pub open spec fn written<'p>(instr: Instr<'p, VarArg<'p>>) -> Set<Key> {
    writes_of(accesses(instr, Seq::empty()))
}

/// The pairs, in both orders, of a location in `ws` and a different one in
/// `live`.
pub open spec fn star(ws: Set<Key>, live: Set<Key>) -> Set<(Key, Key)> {
    Set::new(
        |e: (Key, Key)|
            e.0 != e.1 && ((ws.contains(e.0) && live.contains(e.1)) || (ws.contains(e.1)
                && live.contains(e.0))),
    )
}

/// The locations in `ws`, and those in `live` that [`star`] pairs with one.
pub open spec fn star_nodes(ws: Set<Key>, live: Set<Key>) -> Set<Key> {
    Set::new(|k: Key| ws.contains(k) || (live.contains(k) && exists|w: Key| ws.contains(w)
        && w != k))
}

/// The conflicts that the first `n` annotated instructions give rise to:
/// each location that an instruction writes conflicts with every other
/// location that is live after the instruction.
pub open spec fn block_edges<'p>(instrs: Seq<(Instr<'p, VarArg<'p>>, LiveSet<'p>)>, n: int) -> Set<
    (Key, Key),
>
    decreases n,
{
    if n <= 0 {
        Set::empty()
    } else {
        block_edges(instrs, n - 1).union(star(written(instrs[n - 1].0), instrs[n - 1].1.keys()))
    }
}

/// The locations that the first `n` annotated instructions write or bring
/// into conflict.
pub open spec fn block_nodes<'p>(instrs: Seq<(Instr<'p, VarArg<'p>>, LiveSet<'p>)>, n: int) -> Set<
    Key,
>
    decreases n,
{
    if n <= 0 {
        Set::empty()
    } else {
        block_nodes(instrs, n - 1).union(
            star_nodes(written(instrs[n - 1].0), instrs[n - 1].1.keys()),
        )
    }
}

/// The conflicts of the first `n` blocks.
pub open spec fn fun_edges<'p>(blocks: Seq<(UniqueSym<'p>, LBlock<'p>)>, n: int) -> Set<(Key, Key)>
    decreases n,
{
    if n <= 0 {
        Set::empty()
    } else {
        fun_edges(blocks, n - 1).union(
            block_edges(blocks[n - 1].1.instrs@, blocks[n - 1].1.instrs@.len() as int),
        )
    }
}

/// The locations that the first `n` blocks write or bring into conflict.
pub open spec fn fun_nodes<'p>(blocks: Seq<(UniqueSym<'p>, LBlock<'p>)>, n: int) -> Set<Key>
    decreases n,
{
    if n <= 0 {
        Set::empty()
    } else {
        fun_nodes(blocks, n - 1).union(
            block_nodes(blocks[n - 1].1.instrs@, blocks[n - 1].1.instrs@.len() as int),
        )
    }
}

/// Makes `w` a node and connects it with every other location in `live`.
fn add_conflicts<'p>(graph: &mut InterferenceGraph, w: Key, live: &LiveSet<'p>)
    ensures
        nodes(*final(graph)) == nodes(*old(graph)).union(star_nodes(set![w], live.keys())),
        adjacent(*final(graph)) == adjacent(*old(graph)).union(star(set![w], live.keys())),
{
    let ghost nodes0 = nodes(*graph);
    let ghost adj0 = adjacent(*graph);
    add_node(graph, w);
    let mut n: usize = 0;
    assert(key_set(live@.take(0)) =~= Set::<Key>::empty());
    assert(nodes(*graph) =~= nodes0.union(star_nodes(set![w], key_set(live@.take(0)))));
    assert(adjacent(*graph) =~= adj0.union(star(set![w], key_set(live@.take(0)))));
    while n < live.len()
        invariant
            n <= live@.len(),
            nodes(*graph) == nodes0.union(star_nodes(set![w], key_set(live@.take(n as int)))),
            adjacent(*graph) == adj0.union(star(set![w], key_set(live@.take(n as int)))),
        decreases live@.len() - n,
    {
        let l = live.get(n).node();
        let ghost before = key_set(live@.take(n as int));
        let ghost after = key_set(live@.take(n + 1));
        proof {
            assert(live@.take(n + 1) =~= live@.take(n as int).push(live@[n as int]));
            assert forall|k: Key| after.contains(k) <==> before.contains(k) || k == l by {
                if after.contains(k) {
                    let i = choose|i: int|
                        0 <= i < live@.take(n + 1).len() && #[trigger] live@.take(n + 1)[i].key()
                            == k;
                    if i < n {
                        assert(live@.take(n as int)[i].key() == k);
                    }
                }
                if before.contains(k) {
                    let i = choose|i: int|
                        0 <= i < live@.take(n as int).len() && #[trigger] live@.take(
                            n as int,
                        )[i].key() == k;
                    assert(live@.take(n + 1)[i].key() == k);
                }
                if k == l {
                    assert(live@.take(n + 1)[n as int].key() == k);
                }
            }
        }
        if !(l.0 == w.0 && l.1 == w.1) {
            add_edge(graph, w, l);
            proof {
                assert(set![w].contains(w));
                assert(nodes(*graph) =~= nodes0.union(star_nodes(set![w], after)));
                assert(adjacent(*graph) =~= adj0.union(star(set![w], after)));
            }
        } else {
            proof {
                assert(star_nodes(set![w], after) =~= star_nodes(set![w], before));
                assert(star(set![w], after) =~= star(set![w], before));
            }
        }
        n += 1;
    }
    assert(live@.take(n as int) =~= live@);
}

/// Adds the conflicts that `instr` gives rise to, given what is live after it.
fn add_instr<'p>(graph: &mut InterferenceGraph, instr: &Instr<'p, VarArg<'p>>, live: &LiveSet<'p>)
    ensures
        nodes(*final(graph)) == nodes(*old(graph)).union(star_nodes(written(*instr), live.keys())),
        adjacent(*final(graph)) == adjacent(*old(graph)).union(star(written(*instr), live.keys())),
{
    let ghost nodes0 = nodes(*graph);
    let ghost adj0 = adjacent(*graph);
    let nothing: SymMap<'p, LiveSet<'p>> = SymMap::new();
    let accs = handle_instr(instr, &nothing);
    let mut m: usize = 0;
    assert(writes_of(accs@.take(0)) =~= Set::<Key>::empty());
    assert(nodes(*graph) =~= nodes0.union(star_nodes(writes_of(accs@.take(0)), live.keys())));
    assert(adjacent(*graph) =~= adj0.union(star(writes_of(accs@.take(0)), live.keys())));
    while m < accs.len()
        invariant
            m <= accs@.len(),
            nodes(*graph) == nodes0.union(
                star_nodes(writes_of(accs@.take(m as int)), live.keys()),
            ),
            adjacent(*graph) == adj0.union(star(writes_of(accs@.take(m as int)), live.keys())),
        decreases accs@.len() - m,
    {
        let ghost before = writes_of(accs@.take(m as int));
        let ghost after = writes_of(accs@.take(m + 1));
        proof {
            assert(accs@.take(m + 1) =~= accs@.take(m as int).push(accs@[m as int]));
            assert forall|k: Key|
                after.contains(k) <==> before.contains(k) || write_key(accs@[m as int]) == Some(
                    k,
                ) by {
                if after.contains(k) {
                    let i = choose|i: int|
                        0 <= i < accs@.take(m + 1).len() && write_key(
                            #[trigger] accs@.take(m + 1)[i],
                        ) == Some(k);
                    if i < m {
                        assert(write_key(accs@.take(m as int)[i]) == Some(k));
                    }
                }
                if before.contains(k) {
                    let i = choose|i: int|
                        0 <= i < accs@.take(m as int).len() && write_key(
                            #[trigger] accs@.take(m as int)[i],
                        ) == Some(k);
                    assert(write_key(accs@.take(m + 1)[i]) == Some(k));
                }
                if write_key(accs@[m as int]) == Some(k) {
                    assert(write_key(accs@.take(m + 1)[m as int]) == Some(k));
                }
            }
        }
        let op = accs[m].1;
        let target: Option<Key> = match op {
            ReadWriteOp::Read => None,
            _ => match accs[m].0 {
                VarArg::Reg(reg) => Some((LArg::Reg { reg }).node()),
                VarArg::XVar(sym) => Some((LArg::Var { sym }).node()),
                _ => None,
            },
        };
        assert(target == write_key(accs@[m as int]));
        match target {
            Some(w) => {
                add_conflicts(graph, w, live);
                proof {
                    assert(after =~= before.insert(w));
                    assert(star_nodes(after, live.keys()) =~= star_nodes(before, live.keys()).union(
                        star_nodes(set![w], live.keys()),
                    )) by {
                        assert forall|k: Key|
                            star_nodes(after, live.keys()).contains(k) implies star_nodes(
                            before,
                            live.keys(),
                        ).union(star_nodes(set![w], live.keys())).contains(k) by {
                            if !after.contains(k) {
                                let x = choose|x: Key| after.contains(x) && x != k;
                                if x == w {
                                    assert(set![w].contains(x) && x != k);
                                } else {
                                    assert(before.contains(x) && x != k);
                                }
                            }
                        }
                        assert forall|k: Key|
                            star_nodes(before, live.keys()).union(
                                star_nodes(set![w], live.keys()),
                            ).contains(k) implies star_nodes(after, live.keys()).contains(k) by {
                            if star_nodes(before, live.keys()).contains(k) && !before.contains(k) {
                                let x = choose|x: Key| before.contains(x) && x != k;
                                assert(after.contains(x) && x != k);
                            }
                            if star_nodes(set![w], live.keys()).contains(k) && k != w {
                                let x = choose|x: Key| set![w].contains(x) && x != k;
                                assert(after.contains(x) && x != k);
                            }
                        }
                    }
                    assert(star(after, live.keys()) =~= star(before, live.keys()).union(
                        star(set![w], live.keys()),
                    ));
                    assert(nodes(*graph) =~= nodes0.union(star_nodes(after, live.keys())));
                    assert(adjacent(*graph) =~= adj0.union(star(after, live.keys())));
                }
            },
            None => {
                proof {
                    assert(after =~= before);
                }
            },
        }
        m += 1;
    }
    assert(accs@.take(m as int) =~= accs@);
}

impl<'p> LFun<'p> {
    /// Builds the interference graph of the function from its annotations.
    pub fn build_graph(&self) -> (graph: InterferenceGraph)
        ensures
            nodes(graph) == fun_nodes(self.blocks@, self.blocks@.len() as int),
            adjacent(graph) == fun_edges(self.blocks@, self.blocks@.len() as int),
    {
        let mut graph = empty_graph();
        let mut j: usize = 0;
        while j < self.blocks.len()
            invariant
                j <= self.blocks@.len(),
                nodes(graph) == fun_nodes(self.blocks@, j as int),
                adjacent(graph) == fun_edges(self.blocks@, j as int),
            decreases self.blocks@.len() - j,
        {
            let block = self.blocks.value_at(j);
            let ghost nodes0 = nodes(graph);
            let ghost adj0 = adjacent(graph);
            let mut i: usize = 0;
            assert(nodes(graph) =~= nodes0.union(block_nodes(block.instrs@, 0)));
            assert(adjacent(graph) =~= adj0.union(block_edges(block.instrs@, 0)));
            while i < block.instrs.len()
                invariant
                    i <= block.instrs@.len(),
                    nodes(graph) == nodes0.union(block_nodes(block.instrs@, i as int)),
                    adjacent(graph) == adj0.union(block_edges(block.instrs@, i as int)),
                decreases block.instrs@.len() - i,
            {
                add_instr(&mut graph, &block.instrs[i].0, &block.instrs[i].1);
                assert(nodes(graph) =~= nodes0.union(block_nodes(block.instrs@, i + 1)));
                assert(adjacent(graph) =~= adj0.union(block_edges(block.instrs@, i + 1)));
                i += 1;
            }
            j += 1;
        }
        graph
    }
}


impl<'p> LBlock<'p> {
    /// The block without its annotations.
    pub fn strip(&self) -> (block: Block<'p, VarArg<'p>>)
        ensures
            block.instrs@ == self.code(),
    {
        let mut instrs: Vec<Instr<'p, VarArg<'p>>> = Vec::new();
        let mut i: usize = 0;
        while i < self.instrs.len()
            invariant
                i <= self.instrs@.len(),
                instrs@ == self.code().take(i as int),
            decreases self.instrs@.len() - i,
        {
            instrs.push(self.instrs[i].0);
            assert(instrs@ =~= self.code().take(i + 1));
            i += 1;
        }
        assert(self.code().take(i as int) =~= self.code());
        Block { instrs }
    }
}

impl<'p> FunWithInterference<'p> {
    /// `self` has the blocks of `fun`, without their annotations, and the
    /// interference graph that the annotations give.
    pub open spec fn graph_of(self, fun: LFun<'p>) -> bool {
        &&& self.entry == fun.entry
        &&& self.exit == fun.exit
        &&& self.blocks@.len() == fun.blocks@.len()
        &&& forall|j: int|
            0 <= j < self.blocks@.len() ==> (#[trigger] self.blocks@[j]).0 == fun.blocks@[j].0
                && self.blocks@[j].1.instrs@ == fun.blocks@[j].1.code()
        &&& nodes(self.interference) == fun_nodes(fun.blocks@, fun.blocks@.len() as int)
        &&& adjacent(self.interference) == fun_edges(fun.blocks@, fun.blocks@.len() as int)
    }
}

impl<'p> LFun<'p> {
    /// Replaces the annotations of the function by its interference graph.
    pub fn compute_interference(&self) -> (out: FunWithInterference<'p>)
        ensures
            out.graph_of(*self),
    {
        let interference = self.build_graph();
        let n = self.blocks.len();
        let mut blocks: SymMap<'p, Block<'p, VarArg<'p>>> = SymMap::new();
        let mut j: usize = 0;
        while j < n
            invariant
                j <= n,
                n == self.blocks@.len(),
                self.blocks.wf(),
                blocks@.len() == j,
                forall|k: int|
                    0 <= k < j ==> (#[trigger] blocks@[k]).0 == self.blocks@[k].0
                        && blocks@[k].1.instrs@ == self.blocks@[k].1.code(),
            decreases n - j,
        {
            let lbl = self.blocks.key_at(j);
            let block = self.blocks.value_at(j).strip();
            proof {
                if has_id(blocks@, lbl.id) {
                    let k = choose|k: int|
                        0 <= k < blocks@.len() && #[trigger] blocks@[k].0.id == lbl.id;
                    assert(self.blocks@[k].0.id != self.blocks@[j as int].0.id);
                }
            }
            blocks.insert(lbl, block);
            j += 1;
        }
        FunWithInterference { blocks, interference, entry: self.entry, exit: self.exit }
    }
}

impl<'p> X86WithInterference<'p> {
    /// `self` is `prog` with an interference graph in place of the
    /// annotations of each function.
    pub open spec fn graphs_of(self, prog: LX86VarProgram<'p>) -> bool {
        &&& self.entry == prog.entry
        &&& self.fns@.len() == prog.fns@.len()
        &&& forall|j: int|
            0 <= j < self.fns@.len() ==> (#[trigger] self.fns@[j]).0 == prog.fns@[j].0
                && self.fns@[j].1.graph_of(prog.fns@[j].1)
    }
}

impl<'p> LX86VarProgram<'p> {
    /// Builds the interference graph of every function.
    #[must_use]
    pub fn compute_interference(self) -> (out: X86WithInterference<'p>)
        ensures
            out.graphs_of(self),
    {
        let n = self.fns.len();
        let mut fns: SymMap<'p, FunWithInterference<'p>> = SymMap::new();
        let mut j: usize = 0;
        while j < n
            invariant
                j <= n,
                n == self.fns@.len(),
                self.fns.wf(),
                fns@.len() == j,
                forall|k: int|
                    0 <= k < j ==> (#[trigger] fns@[k]).0 == self.fns@[k].0
                        && fns@[k].1.graph_of(self.fns@[k].1),
            decreases n - j,
        {
            let sym = self.fns.key_at(j);
            let fun = self.fns.value_at(j).compute_interference();
            proof {
                if has_id(fns@, sym.id) {
                    let k = choose|k: int| 0 <= k < fns@.len() && #[trigger] fns@[k].0.id == sym.id;
                    assert(self.fns@[k].0.id != self.fns@[j as int].0.id);
                }
            }
            fns.insert(sym, fun);
            j += 1;
        }
        X86WithInterference { fns, entry: self.entry }
    }
}

} // verus!
