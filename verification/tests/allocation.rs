use compiler::assign::assign_homes::apply_homes;
use compiler::assign::color::color_graph;
use compiler::assign::compute_interference::FunWithInterference;
use compiler::assign::graph::InterferenceGraph;
use compiler::assign::include_liveness::{block_liveness, handle_instr, LBlock, ReadWriteOp};
use compiler::assign::live_set::{LArg, LiveSet};
use compiler::assign::liveness::fn_liveness;
use compiler::assign::work_queue::WorkQueue;
use compiler::error::CompileError;
use compiler::select::{FunSelected, X86Selected};
use compiler::sym_map::SymMap;
use compiler::symbol::{gen_sym, SymCounter, UniqueSym};
use compiler::x86::{Arg, Block, Cnd, Instr, Reg, VarArg};

fn sym(hint: &'static str, id: usize) -> UniqueSym<'static> {
    UniqueSym { sym: hint, id }
}

fn var(s: UniqueSym<'static>) -> VarArg<'static> {
    VarArg::XVar(s)
}

fn r(reg: Reg) -> VarArg<'static> {
    VarArg::Reg(reg)
}

fn keys(set: &LiveSet<'static>) -> Vec<(u8, usize)> {
    let mut keys: Vec<(u8, usize)> = (0..set.len()).map(|i| set.get(i).node()).collect();
    keys.sort();
    keys
}

fn empty_before() -> SymMap<'static, LiveSet<'static>> {
    SymMap::new()
}

#[test]
fn two_operand_instructions_read_both_and_write_the_destination() {
    let x = sym("x", 1);
    let y = sym("y", 2);
    let add = Instr::Add { src: var(x), dst: var(y) };
    assert_eq!(
        handle_instr(&add, &empty_before()),
        vec![(var(y), ReadWriteOp::ReadWrite), (var(x), ReadWriteOp::Read)]
    );
    let mov = Instr::Mov { src: var(x), dst: var(y) };
    assert_eq!(
        handle_instr(&mov, &empty_before()),
        vec![(var(y), ReadWriteOp::Write), (var(x), ReadWriteOp::Read)]
    );
    let compare = Instr::Cmp { src: var(x), dst: var(y) };
    assert_eq!(
        handle_instr(&compare, &empty_before()),
        vec![(var(y), ReadWriteOp::Read), (var(x), ReadWriteOp::Read)]
    );
}

#[test]
fn a_call_overwrites_the_registers_without_arguments_and_reads_the_others() {
    let call = Instr::CallDirect { lbl: sym("f", 9), arity: 2 };
    let accesses = handle_instr(&call, &empty_before());
    let expected: Vec<(VarArg, ReadWriteOp)> = vec![
        (r(Reg::RDX), ReadWriteOp::Write),
        (r(Reg::RSI), ReadWriteOp::Write),
        (r(Reg::RDI), ReadWriteOp::Write),
        (r(Reg::R8), ReadWriteOp::Write),
        (r(Reg::R9), ReadWriteOp::Write),
        (r(Reg::R10), ReadWriteOp::Write),
        (r(Reg::R11), ReadWriteOp::Write),
        (r(Reg::RAX), ReadWriteOp::ReadWrite),
        (r(Reg::RCX), ReadWriteOp::ReadWrite),
    ];
    assert_eq!(accesses, expected);
    let many = Instr::CallDirect { lbl: sym("f", 9), arity: 20 };
    assert_eq!(handle_instr(&many, &empty_before()).len(), 9);
}

#[test]
fn a_system_call_overwrites_the_caller_saved_registers_and_reads_its_arguments() {
    let accesses = handle_instr(&Instr::Syscall { arity: 2 }, &empty_before());
    assert_eq!(accesses.len(), 11);
    assert_eq!(accesses[0], (r(Reg::RAX), ReadWriteOp::Write));
    assert_eq!(accesses[8], (r(Reg::R11), ReadWriteOp::Write));
    assert_eq!(accesses[9], (r(Reg::RDI), ReadWriteOp::Read));
    assert_eq!(accesses[10], (r(Reg::RSI), ReadWriteOp::Read));
}

#[test]
fn implicit_operands_are_accounted_for() {
    let x = sym("x", 1);
    assert_eq!(
        handle_instr(&Instr::Ret, &empty_before()),
        vec![(r(Reg::RAX), ReadWriteOp::Read)]
    );
    assert_eq!(
        handle_instr(&Instr::Setcc { cnd: Cnd::EQ }, &empty_before()),
        vec![(r(Reg::RAX), ReadWriteOp::Write)]
    );
    assert_eq!(
        handle_instr(&Instr::Mul { src: var(x) }, &empty_before()),
        vec![
            (r(Reg::RDX), ReadWriteOp::Write),
            (r(Reg::RAX), ReadWriteOp::ReadWrite),
            (var(x), ReadWriteOp::Read)
        ]
    );
    assert_eq!(
        handle_instr(&Instr::Div { divisor: var(x) }, &empty_before()),
        vec![
            (r(Reg::RDX), ReadWriteOp::ReadWrite),
            (r(Reg::RAX), ReadWriteOp::ReadWrite),
            (var(x), ReadWriteOp::Read)
        ]
    );
}

#[test]
fn a_jump_reads_what_is_live_at_its_target() {
    let x = sym("x", 1);
    let target = sym("target", 7);
    let mut live = LiveSet::new();
    live.insert(LArg::Var { sym: x });
    live.insert(LArg::Reg { reg: Reg::RBX });
    let mut before = SymMap::new();
    before.insert(target, live);
    assert_eq!(
        handle_instr(&Instr::Jmp { lbl: target }, &before),
        vec![(var(x), ReadWriteOp::Read), (r(Reg::RBX), ReadWriteOp::Read)]
    );
    assert_eq!(handle_instr(&Instr::Jmp { lbl: sym("other", 8) }, &before), vec![]);
}

#[test]
fn live_sets_hold_each_location_once() {
    let x = sym("x", 1);
    let also_x = sym("renamed", 1);
    let mut set = LiveSet::new();
    set.insert(LArg::Var { sym: x });
    set.insert(LArg::Var { sym: also_x });
    set.insert(LArg::Reg { reg: Reg::RCX });
    assert_eq!(set.len(), 2);
    assert!(set.contains(&LArg::Var { sym: also_x }));
    set.remove(&LArg::Var { sym: also_x });
    assert_eq!(keys(&set), vec![(0, 1)]);
    let copy = set.copy();
    assert!(copy.same_as(&set));
    set.insert(LArg::Reg { reg: Reg::RAX });
    assert!(copy.subset_of(&set));
    assert!(!set.subset_of(&copy));
    assert!(!copy.same_as(&set));
}

#[test]
fn the_queue_hands_out_the_smallest_label_first() {
    let mut queue = WorkQueue::new();
    queue.push(5);
    queue.push(2);
    queue.push(9);
    queue.push(2);
    assert_eq!(queue.len(), 3);
    assert_eq!(queue.pop_first(), Some(2));
    assert_eq!(queue.pop_first(), Some(5));
    assert_eq!(queue.pop_first(), Some(9));
    assert_eq!(queue.pop_first(), None);
}

#[test]
fn liveness_walks_a_block_backwards() {
    let x = sym("x", 1);
    let y = sym("y", 2);
    let mut block = LBlock {
        instrs: vec![
            (Instr::Mov { src: VarArg::Imm(1), dst: var(x) }, LiveSet::new()),
            (Instr::Mov { src: VarArg::Imm(2), dst: var(y) }, LiveSet::new()),
            (Instr::Add { src: var(x), dst: var(y) }, LiveSet::new()),
            (Instr::Mov { src: var(y), dst: r(Reg::RAX) }, LiveSet::new()),
            (Instr::Ret, LiveSet::new()),
        ],
    };
    let before = block_liveness(&mut block, &empty_before());
    assert!(keys(&before).is_empty());
    assert_eq!(keys(&block.instrs[0].1), vec![(1, 1)]);
    assert_eq!(keys(&block.instrs[1].1), vec![(1, 1), (1, 2)]);
    assert_eq!(keys(&block.instrs[2].1), vec![(1, 2)]);
    assert_eq!(keys(&block.instrs[3].1), vec![(0, 0)]);
    assert!(keys(&block.instrs[4].1).is_empty());
}

fn looping_function() -> (FunSelected<'static>, [UniqueSym<'static>; 4], [UniqueSym<'static>; 2]) {
    let entry = sym("entry", 10);
    let head = sym("head", 11);
    let body = sym("body", 12);
    let exit = sym("exit", 13);
    let i = sym("i", 1);
    let n = sym("n", 2);
    let mut blocks = SymMap::new();
    blocks.insert(
        entry,
        Block {
            instrs: vec![
                Instr::Mov { src: r(Reg::RAX), dst: var(n) },
                Instr::Mov { src: VarArg::Imm(0), dst: var(i) },
                Instr::Jmp { lbl: head },
            ],
        },
    );
    blocks.insert(
        head,
        Block {
            instrs: vec![
                Instr::Cmp { src: var(n), dst: var(i) },
                Instr::Jcc { lbl: exit, cnd: Cnd::EQ },
                Instr::Jmp { lbl: body },
            ],
        },
    );
    blocks.insert(
        body,
        Block {
            instrs: vec![
                Instr::Add { src: VarArg::Imm(1), dst: var(i) },
                Instr::Jmp { lbl: head },
            ],
        },
    );
    blocks.insert(
        exit,
        Block { instrs: vec![Instr::Mov { src: var(i), dst: r(Reg::RAX) }, Instr::Ret] },
    );
    (FunSelected { blocks, entry, exit }, [entry, head, body, exit], [i, n])
}

#[test]
fn liveness_follows_jumps_back_to_their_sources() {
    let (fun, [entry, head, body, exit], _) = looping_function();
    let live = fn_liveness(&fun);
    let at = |lbl: UniqueSym<'static>| keys(live.before_map.get(lbl.id).unwrap());
    assert_eq!(at(exit), vec![(1, 1)]);
    assert_eq!(at(head), vec![(1, 1), (1, 2)]);
    assert_eq!(at(body), vec![(1, 1), (1, 2)]);
    assert_eq!(at(entry), vec![(0, 0)]);
    let head_block = live.blocks.get(head.id).unwrap();
    assert_eq!(keys(&head_block.instrs[0].1), vec![(1, 1), (1, 2)]);
    assert_eq!(live.blocks.len(), 4);
    assert_eq!(live.entry, entry);
    assert_eq!(live.exit, exit);
}

#[test]
fn blocks_that_cannot_reach_the_exit_stay_without_annotation() {
    let (mut fun, labels, [i, _]) = looping_function();
    let stray = sym("stray", 14);
    fun.blocks.insert(
        stray,
        Block { instrs: vec![Instr::Mov { src: var(i), dst: r(Reg::RCX) }, Instr::Jmp { lbl: stray }] },
    );
    let live = fn_liveness(&fun);
    assert!(live.before_map.get(stray.id).is_none());
    assert!(keys(&live.blocks.get(stray.id).unwrap().instrs[0].1).is_empty());
    assert!(live.before_map.get(labels[0].id).is_some());
}

#[test]
fn a_written_location_interferes_with_what_is_live_after() {
    let (fun, _, _) = looping_function();
    let live = fn_liveness(&fun);
    let graph = live.build_graph();
    let i = (1u8, 1usize);
    let n = (1u8, 2usize);
    let rax = (0u8, 0usize);
    assert!(graph.contains_edge(i, n));
    assert!(graph.contains_edge(n, i));
    assert!(!graph.contains_edge(n, rax));
    assert!(!graph.contains_edge(i, rax));
    assert!(graph.contains_node(rax));
    assert_eq!(graph.node_count(), 3);
    assert_eq!(graph.edge_count(), 1);
}

#[test]
fn neighbours_get_different_colours_and_registers_keep_theirs() {
    let mut graph = InterferenceGraph::new();
    let rcx = (0u8, 1usize);
    let rax = (0u8, 0usize);
    let a = (1u8, 1usize);
    let b = (1u8, 2usize);
    let c = (1u8, 3usize);
    graph.add_edge(a, b, ());
    graph.add_edge(b, c, ());
    graph.add_edge(a, c, ());
    graph.add_edge(a, rcx, ());
    graph.add_edge(a, rax, ());
    graph.add_node((1u8, 4usize));
    let coloring = color_graph(&graph);
    assert_eq!(coloring.get(rcx), Some(0));
    assert_eq!(coloring.get(rax), None);
    assert_eq!(coloring.get((1, 4)), Some(0));
    let ca = coloring.get(a).unwrap();
    let cb = coloring.get(b).unwrap();
    let cc = coloring.get(c).unwrap();
    assert_eq!(ca, 1);
    assert!(ca != cb && cb != cc && ca != cc);
    let mut used = vec![ca, cb, cc];
    used.sort();
    assert_eq!(used, vec![0, 1, 2]);
    assert_eq!(coloring.len(), 5);
}

fn single_block(
    code: Vec<Instr<'static, VarArg<'static>>>,
) -> (FunSelected<'static>, UniqueSym<'static>) {
    let only = sym("only", 100);
    let mut blocks = SymMap::new();
    blocks.insert(only, Block { instrs: code });
    (FunSelected { blocks, entry: only, exit: only }, only)
}

fn with_graph(fun: &FunSelected<'static>) -> FunWithInterference<'static> {
    fn_liveness(fun).compute_interference()
}

#[test]
fn variables_move_into_the_registers_of_the_palette() {
    let x = sym("x", 1);
    let y = sym("y", 2);
    let (fun, only) = single_block(vec![
        Instr::Mov { src: VarArg::Imm(1), dst: var(x) },
        Instr::Mov { src: VarArg::Imm(2), dst: var(y) },
        Instr::Add { src: var(x), dst: var(y) },
        Instr::Mov { src: var(y), dst: r(Reg::RAX) },
        Instr::Ret,
    ]);
    let assigned = with_graph(&fun).assign_homes().unwrap();
    assert_eq!(assigned.stack_space, 0);
    let code = &assigned.blocks.get(only.id).unwrap().instrs;
    assert_eq!(code.len(), 5);
    let (hx, hy) = match (&code[0], &code[1]) {
        (Instr::Mov { dst: hx, .. }, Instr::Mov { dst: hy, .. }) => (*hx, *hy),
        _ => unreachable!(),
    };
    assert!(hx != hy);
    assert!(matches!(hx, Arg::Reg(Reg::RCX) | Arg::Reg(Reg::RDX)));
    assert!(matches!(hy, Arg::Reg(Reg::RCX) | Arg::Reg(Reg::RDX)));
    assert_eq!(code[2], Instr::Add { src: hx, dst: hy });
    assert_eq!(code[3], Instr::Mov { src: hy, dst: Arg::Reg(Reg::RAX) });
}

#[test]
fn a_variable_that_is_never_written_has_no_home() {
    let x = sym("x", 1);
    let (fun, _) =
        single_block(vec![Instr::Mov { src: var(x), dst: r(Reg::RAX) }, Instr::Ret]);
    assert_eq!(with_graph(&fun).assign_homes().err(), Some(CompileError::Unreachable));
}

fn many_live(count: usize) -> (FunSelected<'static>, UniqueSym<'static>) {
    let mut code = vec![
        Instr::Push { src: r(Reg::RBP) },
        Instr::Mov { src: r(Reg::RSP), dst: r(Reg::RBP) },
        Instr::Sub { src: VarArg::Imm(0x1000), dst: r(Reg::RSP) },
    ];
    for k in 0..count {
        code.push(Instr::Mov { src: VarArg::Imm(k as i32), dst: var(sym("v", k)) });
    }
    for k in 1..count {
        code.push(Instr::Add { src: var(sym("v", k)), dst: var(sym("v", 0)) });
    }
    code.push(Instr::Mov { src: var(sym("v", 0)), dst: r(Reg::RAX) });
    code.push(Instr::Add { src: VarArg::Imm(0x1000), dst: r(Reg::RSP) });
    code.push(Instr::Pop { dst: r(Reg::RBP) });
    code.push(Instr::Ret);
    single_block(code)
}

#[test]
fn callee_saved_registers_in_use_are_saved_and_spills_get_a_frame() {
    let (fun, only) = many_live(15);
    let assigned = with_graph(&fun).assign_homes().unwrap();
    assert_eq!(assigned.stack_space, 24);
    let code = &assigned.blocks.get(only.id).unwrap().instrs;
    let saved = [Reg::RBX, Reg::R12, Reg::R13, Reg::R14, Reg::R15];
    for (k, reg) in saved.iter().enumerate() {
        assert_eq!(code[3 + k], Instr::Push { src: Arg::Reg(*reg) });
    }
    let release = code
        .iter()
        .position(|i| *i == Instr::Add { src: Arg::Imm(0x1000), dst: Arg::Reg(Reg::RSP) })
        .unwrap();
    for (k, reg) in saved.iter().rev().enumerate() {
        assert_eq!(code[release - 5 + k], Instr::Pop { dst: Arg::Reg(*reg) });
    }
    let spilled = code.iter().any(|i| {
        matches!(i, Instr::Mov { dst: Arg::Deref { reg: Reg::RBP, off: -8 }, .. })
    });
    let deeper = code.iter().any(|i| {
        matches!(i, Instr::Mov { dst: Arg::Deref { reg: Reg::RBP, off: -16 }, .. })
    });
    assert!(spilled && deeper);
}

#[test]
fn the_frame_keeps_the_stack_aligned() {
    for count in [13usize, 14, 15, 16, 17] {
        let (fun, _) = many_live(count);
        let assigned = with_graph(&fun).assign_homes().unwrap();
        let spills = count - 13;
        let saved = 1 + 5;
        assert!(assigned.stack_space >= 8 * spills);
        assert!(assigned.stack_space <= 8 * spills + 8);
        assert_eq!((assigned.stack_space + 8 * saved + 8) % 16, 0);
    }
}

#[test]
fn homes_follow_the_colours_given() {
    let x = sym("x", 1);
    let (fun, only) = single_block(vec![
        Instr::Mov { src: VarArg::Imm(1), dst: var(x) },
        Instr::Mov { src: var(x), dst: r(Reg::RAX) },
        Instr::Ret,
    ]);
    let graph = with_graph(&fun);
    let coloring = color_graph(&graph.interference);
    assert_eq!(coloring.get((1, 1)), Some(0));
    let assigned = apply_homes(&graph, &coloring).unwrap();
    assert_eq!(
        assigned.blocks.get(only.id).unwrap().instrs[0],
        Instr::Mov { src: Arg::Imm(1), dst: Arg::Reg(Reg::RCX) }
    );
}

#[test]
fn every_function_of_a_program_is_analysed() {
    let mut counter = SymCounter::new();
    let f = gen_sym("f", &mut counter);
    let g = gen_sym("g", &mut counter);
    let (fun_f, _) = single_block(vec![Instr::Ret]);
    let (fun_g, _) = single_block(vec![Instr::Mov { src: VarArg::Imm(1), dst: r(Reg::RAX) }, Instr::Ret]);
    let mut fns = SymMap::new();
    fns.insert(f, fun_f);
    fns.insert(g, fun_g);
    let live = X86Selected { fns, entry: f }.include_liveness();
    assert_eq!(live.fns.len(), 2);
    assert_eq!(live.fns.key_at(0), f);
    assert_eq!(live.fns.key_at(1), g);
    let with_graphs = live.compute_interference();
    assert_eq!(with_graphs.fns.get(g.id).unwrap().interference.node_count(), 1);
    assert_eq!(with_graphs.entry, f);
}
