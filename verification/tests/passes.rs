use compiler::assign::assign_homes::{AX86Program, FunAssigned};
use compiler::atomize::rco_expr;
use compiler::conclude::{fix_stack_space, X86Concluded};
use compiler::error::CompileError;
use compiler::explicate::{explicate_def, CExpr, Tail};
use compiler::language::{AExpr, Atom, Def, Op, PrgRevealed, RExpr};
use compiler::patch::{patch_args, patch_block, patch_instr, BinaryKind, X86Patched};
use compiler::select::{select_expr, select_fun, select_tail};
use compiler::sym_map::SymMap;
use compiler::symbol::{gen_sym, SymCounter, UniqueSym};
use compiler::value::{Lit, TLit, Val};
use compiler::x86::{Arg, Block, Cnd, Instr, Reg, VarArg};

fn sym(hint: &'static str, id: usize) -> UniqueSym<'static> {
    UniqueSym { sym: hint, id }
}

fn num(val: i64) -> RExpr<'static> {
    RExpr::Lit { val: Lit::Int { val } }
}

fn lit(val: i64) -> Atom<'static> {
    Atom::Val { val: Lit::Int { val } }
}

fn boxed<T>(value: T) -> Box<T> {
    Box::new(value)
}

#[test]
fn symbols_count_up_and_wrap() {
    let mut counter = SymCounter::new();
    let a = gen_sym("a", &mut counter);
    let b = gen_sym("b", &mut counter);
    assert_eq!(a, UniqueSym { sym: "a", id: 0 });
    assert_eq!(b, UniqueSym { sym: "b", id: 1 });
    assert_eq!(counter.next, 2);
    let mut last = SymCounter { next: usize::MAX };
    assert_eq!(gen_sym("z", &mut last).id, usize::MAX);
    assert_eq!(last.next, 0);
}

#[test]
fn symbols_are_told_apart_by_their_number_alone() {
    assert_eq!(sym("x", 3), sym("renamed", 3));
    assert_ne!(sym("x", 3), sym("x", 4));
    assert_eq!(
        Instr::Jmp::<Arg> { lbl: sym("a", 1) },
        Instr::Jmp::<Arg> { lbl: sym("b", 1) }
    );
}

#[test]
fn maps_keep_the_order_of_insertion_and_replace_in_place() {
    let mut map = SymMap::new();
    map.insert(sym("a", 3), 30);
    map.insert(sym("b", 1), 10);
    map.insert(sym("c", 3), 31);
    assert_eq!(map.len(), 2);
    assert_eq!(map.key_at(0), sym("a", 3));
    assert_eq!(*map.value_at(0), 31);
    assert_eq!(map.get(1), Some(&10));
    assert_eq!(map.get(2), None);
    assert_eq!(map.find(1), Some(1));
    assert!(map.contains(3));
    assert_eq!(map.replace_at(1, 11), 10);
    assert_eq!(map.into_entries(), vec![(sym("a", 3), 31), (sym("b", 1), 11)]);
}

#[test]
fn values_give_what_they_hold() {
    assert_eq!(Val::<usize>::Int { val: -3 }.as_int(), -3);
    assert!(Val::<usize>::Bool { val: true }.bool());
    assert_eq!(Val::<usize>::Function { sym: 7 }.fun(), 7);
    assert_eq!(TLit::Int { val: -5 }.as_int(), -5);
    assert!(!TLit::Bool { val: false }.bool());
    assert_eq!(TLit::Bool { val: true }.to_i64(), 1);
    assert_eq!(TLit::Unit.to_i64(), 0);
    assert_eq!(Lit::Bool { val: true }.to_i64(), 1);
    assert_eq!(Lit::Unit.to_i64(), 0);
    assert_eq!(Lit::Int { val: i64::MIN }.to_i64(), i64::MIN);
}

#[test]
fn operands_that_are_no_atoms_are_bound_from_left_to_right() {
    let x = sym("x", 1);
    let mut counter = SymCounter { next: 10 };
    let e = RExpr::Prim {
        op: Op::Plus,
        args: vec![
            RExpr::Prim { op: Op::Minus, args: vec![num(1)] },
            RExpr::Var { sym: x },
            RExpr::Prim { op: Op::Mul, args: vec![num(2), RExpr::Prim { op: Op::Read, args: vec![] }] },
        ],
    };
    let t0 = sym("", 10);
    let t1 = sym("", 11);
    let t2 = sym("", 12);
    let expected = AExpr::Let {
        sym: t0,
        bnd: boxed(AExpr::Prim { op: Op::Minus, args: vec![lit(1)] }),
        bdy: boxed(AExpr::Let {
            sym: t1,
            bnd: boxed(AExpr::Let {
                sym: t2,
                bnd: boxed(AExpr::Prim { op: Op::Read, args: vec![] }),
                bdy: boxed(AExpr::Prim { op: Op::Mul, args: vec![lit(2), Atom::Var { sym: t2 }] }),
            }),
            bdy: boxed(AExpr::Prim {
                op: Op::Plus,
                args: vec![Atom::Var { sym: t0 }, Atom::Var { sym: x }, Atom::Var { sym: t1 }],
            }),
        }),
    };
    assert_eq!(rco_expr(&e, &mut counter), expected);
    assert_eq!(counter.next, 13);
}

#[test]
fn atoms_and_control_pass_through_atomization() {
    let x = sym("x", 1);
    let f = sym("f", 2);
    let mut counter = SymCounter { next: 5 };
    assert_eq!(rco_expr(&num(3), &mut counter), AExpr::Atom { atm: lit(3) });
    assert_eq!(
        rco_expr(&RExpr::FunRef { sym: f }, &mut counter),
        AExpr::FunRef { sym: f }
    );
    let call = RExpr::Apply { fun: boxed(RExpr::FunRef { sym: f }), args: vec![RExpr::Var { sym: x }] };
    assert_eq!(
        rco_expr(&call, &mut counter),
        AExpr::Let {
            sym: sym("", 5),
            bnd: boxed(AExpr::FunRef { sym: f }),
            bdy: boxed(AExpr::Apply {
                fun: Atom::Var { sym: sym("", 5) },
                args: vec![Atom::Var { sym: x }]
            }),
        }
    );
    let looped = RExpr::Loop { bdy: boxed(RExpr::Break { bdy: boxed(RExpr::Continue) }) };
    assert_eq!(
        rco_expr(&looped, &mut counter),
        AExpr::Loop { bdy: boxed(AExpr::Break { bdy: boxed(AExpr::Continue) }) }
    );
    assert_eq!(counter.next, 6);
}

#[test]
fn a_conditional_becomes_a_branch_between_blocks() {
    let c = sym("c", 1);
    let def = Def {
        sym: sym("f", 0),
        params: vec![c],
        bdy: AExpr::If {
            cnd: boxed(AExpr::Atom { atm: Atom::Var { sym: c } }),
            thn: boxed(AExpr::Atom { atm: lit(1) }),
            els: boxed(AExpr::Atom { atm: lit(2) }),
        },
    };
    let mut counter = SymCounter { next: 20 };
    let fun = explicate_def(&def, &mut counter).unwrap();
    assert_eq!(counter.next, 23);
    assert_eq!(fun.entry, sym("start", 20));
    assert_eq!(fun.params, vec![c]);
    assert_eq!(fun.blocks.len(), 3);
    assert_eq!(
        fun.blocks.get(21),
        Some(&Tail::Return { expr: CExpr::Atom { atm: lit(1) } })
    );
    assert_eq!(
        fun.blocks.get(22),
        Some(&Tail::Return { expr: CExpr::Atom { atm: lit(2) } })
    );
    assert_eq!(
        fun.blocks.get(20),
        Some(&Tail::IfStmt {
            cnd: Atom::Var { sym: c },
            thn: sym("thn", 21),
            els: sym("els", 22)
        })
    );
}

#[test]
fn a_loop_becomes_a_block_that_jumps_to_itself() {
    let x = sym("x", 1);
    let def = Def {
        sym: sym("f", 0),
        params: vec![],
        bdy: AExpr::Let {
            sym: x,
            bnd: boxed(AExpr::Loop {
                bdy: boxed(AExpr::Break { bdy: boxed(AExpr::Atom { atm: lit(7) }) }),
            }),
            bdy: boxed(AExpr::Atom { atm: Atom::Var { sym: x } }),
        },
    };
    let mut counter = SymCounter { next: 30 };
    let fun = explicate_def(&def, &mut counter).unwrap();
    assert_eq!(counter.next, 34);
    let header = sym("loop", 31);
    let after = sym("after", 32);
    assert_eq!(fun.blocks.get(30), Some(&Tail::Goto { lbl: header }));
    assert_eq!(
        fun.blocks.get(32),
        Some(&Tail::Return { expr: CExpr::Atom { atm: Atom::Var { sym: x } } })
    );
    assert_eq!(
        fun.blocks.get(31),
        Some(&Tail::Bind {
            sym: x,
            bnd: CExpr::Atom { atm: lit(7) },
            tail: boxed(Tail::Goto { lbl: after })
        })
    );
}

#[test]
fn break_and_continue_need_a_loop() {
    let mut counter = SymCounter::new();
    let stray_break = Def {
        sym: sym("f", 0),
        params: vec![],
        bdy: AExpr::Break { bdy: boxed(AExpr::Atom { atm: lit(1) }) },
    };
    assert_eq!(
        explicate_def(&stray_break, &mut counter).err(),
        Some(CompileError::Unreachable)
    );
    let stray_continue = Def { sym: sym("f", 0), params: vec![], bdy: AExpr::Continue };
    assert_eq!(
        explicate_def(&stray_continue, &mut counter).err(),
        Some(CompileError::Unreachable)
    );
}

fn selected(dst: VarArg<'static>, e: CExpr<'static>) -> Result<Vec<Instr<'static, VarArg<'static>>>, CompileError> {
    let mut out = Vec::new();
    select_expr(dst, &e, &mut out).map(|()| out)
}

#[test]
fn sums_start_from_the_first_operand() {
    let s = VarArg::XVar(sym("s", 1));
    let a = sym("a", 2);
    let code = selected(s, CExpr::Prim { op: Op::Plus, args: vec![Atom::Var { sym: a }, lit(5)] });
    assert_eq!(
        code,
        Ok(vec![
            Instr::Mov { src: VarArg::XVar(a), dst: s },
            Instr::Add { src: VarArg::Imm(5), dst: s }
        ])
    );
    let aliased = selected(
        s,
        CExpr::Prim { op: Op::Minus, args: vec![lit(5), Atom::Var { sym: sym("s", 1) }] },
    );
    assert_eq!(
        aliased,
        Ok(vec![
            Instr::Mov { src: VarArg::Imm(5), dst: VarArg::Reg(Reg::RAX) },
            Instr::Sub { src: s, dst: VarArg::Reg(Reg::RAX) },
            Instr::Mov { src: VarArg::Reg(Reg::RAX), dst: s },
        ])
    );
}

#[test]
fn products_quotients_and_comparisons_go_through_rax() {
    let s = VarArg::XVar(sym("s", 1));
    let a = VarArg::XVar(sym("a", 2));
    let b = VarArg::XVar(sym("b", 3));
    let args = vec![Atom::Var { sym: sym("a", 2) }, Atom::Var { sym: sym("b", 3) }];
    let rax = VarArg::Reg(Reg::RAX);
    let rdx = VarArg::Reg(Reg::RDX);
    assert_eq!(
        selected(s, CExpr::Prim { op: Op::Mul, args: args.clone() }),
        Ok(vec![
            Instr::Mov { src: a, dst: rax },
            Instr::Mul { src: b },
            Instr::Mov { src: rax, dst: s }
        ])
    );
    assert_eq!(
        selected(s, CExpr::Prim { op: Op::Div, args: args.clone() }),
        Ok(vec![
            Instr::Mov { src: a, dst: rax },
            Instr::Mov { src: VarArg::Imm(0), dst: rdx },
            Instr::Div { divisor: b },
            Instr::Mov { src: rax, dst: s }
        ])
    );
    assert_eq!(
        selected(s, CExpr::Prim { op: Op::Mod, args: args.clone() }).unwrap()[3],
        Instr::Mov { src: rdx, dst: s }
    );
    assert_eq!(
        selected(s, CExpr::Prim { op: Op::LT, args: args.clone() }),
        Ok(vec![
            Instr::Cmp { src: b, dst: a },
            Instr::Mov { src: VarArg::Imm(0), dst: rax },
            Instr::Setcc { cnd: Cnd::LT },
            Instr::Mov { src: rax, dst: s }
        ])
    );
}

#[test]
fn calls_pass_their_arguments_in_the_caller_saved_registers() {
    let s = VarArg::XVar(sym("s", 1));
    let f = sym("f", 2);
    let code = selected(
        s,
        CExpr::Apply { fun: Atom::Var { sym: f }, args: vec![lit(1), lit(2), lit(3)] },
    )
    .unwrap();
    assert_eq!(
        code,
        vec![
            Instr::Mov { src: VarArg::Imm(1), dst: VarArg::Reg(Reg::RAX) },
            Instr::Mov { src: VarArg::Imm(2), dst: VarArg::Reg(Reg::RCX) },
            Instr::Mov { src: VarArg::Imm(3), dst: VarArg::Reg(Reg::RDX) },
            Instr::CallIndirect { src: VarArg::XVar(f), arity: 3 },
            Instr::Mov { src: VarArg::Reg(Reg::RAX), dst: s },
        ]
    );
    assert_eq!(
        selected(s, CExpr::FunRef { sym: f }),
        Ok(vec![Instr::LoadLbl { lbl: f, dst: s }])
    );
}

#[test]
fn too_many_arguments_are_an_unsupported_arity() {
    let s = VarArg::XVar(sym("s", 1));
    let f = sym("f", 2);
    let nine = CExpr::Apply { fun: Atom::Var { sym: f }, args: vec![lit(0); 9] };
    assert!(selected(s, nine).is_ok());
    let ten = CExpr::Apply { fun: Atom::Var { sym: f }, args: vec![lit(0); 10] };
    assert_eq!(selected(s, ten), Err(CompileError::UnsupportedArity));
    let fun = compiler::explicate::FunExplicated {
        params: (0..10).map(|k| sym("p", k)).collect(),
        blocks: SymMap::new(),
        entry: sym("start", 50),
    };
    let mut counter = SymCounter { next: 60 };
    assert_eq!(select_fun(&fun, &mut counter).err(), Some(CompileError::UnsupportedArity));
    assert_eq!(counter.next, 62);
}

#[test]
fn what_has_no_code_is_unreachable() {
    let s = VarArg::XVar(sym("s", 1));
    assert_eq!(
        selected(s, CExpr::Atom { atm: lit(0x8000_0000) }),
        Err(CompileError::Unreachable)
    );
    assert_eq!(
        selected(s, CExpr::Atom { atm: lit(-0x8000_0000) }),
        Ok(vec![Instr::Mov { src: VarArg::Imm(i32::MIN), dst: s }])
    );
    assert_eq!(
        selected(s, CExpr::Prim { op: Op::Plus, args: vec![lit(1)] }),
        Err(CompileError::Unreachable)
    );
    assert_eq!(
        selected(s, CExpr::Prim { op: Op::Read, args: vec![lit(1)] }),
        Err(CompileError::Unreachable)
    );
}

#[test]
fn tails_end_in_jumps() {
    let exit = sym("exit", 9);
    let thn = sym("thn", 3);
    let els = sym("els", 4);
    let c = sym("c", 1);
    let mut out = Vec::new();
    select_tail(&Tail::Return { expr: CExpr::Atom { atm: lit(1) } }, exit, &mut out).unwrap();
    select_tail(&Tail::IfStmt { cnd: Atom::Var { sym: c }, thn, els }, exit, &mut out).unwrap();
    select_tail(&Tail::Goto { lbl: thn }, exit, &mut out).unwrap();
    assert_eq!(
        out,
        vec![
            Instr::Mov { src: VarArg::Imm(1), dst: VarArg::Reg(Reg::RAX) },
            Instr::Jmp { lbl: exit },
            Instr::Cmp { src: VarArg::Imm(0), dst: VarArg::XVar(c) },
            Instr::Jcc { lbl: thn, cnd: Cnd::NE },
            Instr::Jmp { lbl: els },
            Instr::Jmp { lbl: thn },
        ]
    );
}

#[test]
fn functions_get_a_prologue_and_an_epilogue() {
    let p = sym("p", 1);
    let q = sym("q", 2);
    let start = sym("start", 3);
    let mut blocks = SymMap::new();
    blocks.insert(start, Tail::Return { expr: CExpr::Atom { atm: Atom::Var { sym: q } } });
    let fun = compiler::explicate::FunExplicated { params: vec![p, q], blocks, entry: start };
    let mut counter = SymCounter { next: 40 };
    let selected = select_fun(&fun, &mut counter).unwrap();
    assert_eq!(selected.entry, sym("entry", 40));
    assert_eq!(selected.exit, sym("exit", 41));
    assert_eq!(selected.blocks.len(), 3);
    assert_eq!(
        selected.blocks.value_at(0).instrs,
        vec![
            Instr::Push { src: VarArg::Reg(Reg::RBP) },
            Instr::Mov { src: VarArg::Reg(Reg::RSP), dst: VarArg::Reg(Reg::RBP) },
            Instr::Sub { src: VarArg::Imm(0x1000), dst: VarArg::Reg(Reg::RSP) },
            Instr::Mov { src: VarArg::Reg(Reg::RAX), dst: VarArg::XVar(p) },
            Instr::Mov { src: VarArg::Reg(Reg::RCX), dst: VarArg::XVar(q) },
            Instr::Jmp { lbl: start },
        ]
    );
    assert_eq!(
        selected.blocks.value_at(2).instrs,
        vec![
            Instr::Add { src: VarArg::Imm(0x1000), dst: VarArg::Reg(Reg::RSP) },
            Instr::Pop { dst: VarArg::Reg(Reg::RBP) },
            Instr::Ret,
        ]
    );
}

fn m(off: i32) -> Arg {
    Arg::Deref { reg: Reg::RBP, off }
}

#[test]
fn memory_to_memory_goes_through_rax() {
    assert_eq!(
        patch_instr(Instr::Mov { src: m(-8), dst: m(-16) }),
        Ok(vec![
            Instr::Mov { src: m(-8), dst: Arg::Reg(Reg::RAX) },
            Instr::Mov { src: Arg::Reg(Reg::RAX), dst: m(-16) }
        ])
    );
    assert_eq!(
        patch_args(m(-8), m(-16), BinaryKind::Add),
        Ok(vec![
            Instr::Mov { src: m(-8), dst: Arg::Reg(Reg::RAX) },
            Instr::Add { src: Arg::Reg(Reg::RAX), dst: m(-16) }
        ])
    );
    assert_eq!(
        patch_instr(Instr::Cmp { src: m(-8), dst: m(-16) }),
        Ok(vec![
            Instr::Mov { src: m(-8), dst: Arg::Reg(Reg::RAX) },
            Instr::Cmp { src: Arg::Reg(Reg::RAX), dst: m(-16) }
        ])
    );
    let kept = Instr::Sub { src: m(-8), dst: Arg::Reg(Reg::RCX) };
    assert_eq!(patch_instr(kept), Ok(vec![kept]));
}

#[test]
fn immediates_leave_destination_position() {
    assert_eq!(
        patch_instr(Instr::Cmp { src: Arg::Reg(Reg::RCX), dst: Arg::Imm(3) }),
        Ok(vec![
            Instr::Mov { src: Arg::Imm(3), dst: Arg::Reg(Reg::RAX) },
            Instr::Cmp { src: Arg::Reg(Reg::RCX), dst: Arg::Reg(Reg::RAX) }
        ])
    );
    for instr in [
        Instr::Add { src: Arg::Reg(Reg::RCX), dst: Arg::Imm(3) },
        Instr::Mov { src: Arg::Reg(Reg::RCX), dst: Arg::Imm(3) },
        Instr::Pop { dst: Arg::Imm(3) },
        Instr::Neg { dst: Arg::Imm(3) },
        Instr::Not { dst: Arg::Imm(3) },
        Instr::LoadLbl { lbl: sym("f", 1), dst: Arg::Imm(3) },
    ] {
        assert_eq!(patch_instr(instr), Err(CompileError::Unreachable), "{:?}", instr);
    }
}

#[test]
fn moves_to_the_same_register_are_dropped() {
    assert_eq!(
        patch_instr(Instr::Mov { src: Arg::Reg(Reg::RCX), dst: Arg::Reg(Reg::RCX) }),
        Ok(vec![])
    );
    let kept = Instr::Add { src: Arg::Reg(Reg::RCX), dst: Arg::Reg(Reg::RCX) };
    assert_eq!(patch_instr(kept), Ok(vec![kept]));
}

#[test]
fn addresses_products_and_quotients_get_operands_they_can_take() {
    let f = sym("f", 1);
    assert_eq!(
        patch_instr(Instr::LoadLbl { lbl: f, dst: m(-8) }),
        Ok(vec![
            Instr::LoadLbl { lbl: f, dst: Arg::Reg(Reg::RAX) },
            Instr::Mov { src: Arg::Reg(Reg::RAX), dst: m(-8) }
        ])
    );
    assert_eq!(
        patch_instr(Instr::Mul { src: Arg::Imm(3) }),
        Ok(vec![
            Instr::Mov { src: Arg::Imm(3), dst: Arg::Reg(Reg::RDX) },
            Instr::Mul { src: Arg::Reg(Reg::RDX) }
        ])
    );
    assert_eq!(
        patch_instr(Instr::Div { divisor: Arg::Imm(3) }),
        Ok(vec![
            Instr::Push { src: Arg::Imm(3) },
            Instr::Div { divisor: Arg::Deref { reg: Reg::RSP, off: 0 } },
            Instr::Add { src: Arg::Imm(8), dst: Arg::Reg(Reg::RSP) }
        ])
    );
}

#[test]
fn patched_blocks_have_only_legal_operands() {
    let block = Block {
        instrs: vec![
            Instr::Mov { src: m(-8), dst: m(-16) },
            Instr::Cmp { src: m(-8), dst: Arg::Imm(0) },
            Instr::Mov { src: Arg::Reg(Reg::RBX), dst: Arg::Reg(Reg::RBX) },
            Instr::Ret,
        ],
    };
    let patched = patch_block(&block).unwrap();
    assert_eq!(patched.instrs.len(), 5);
    for instr in &patched.instrs {
        match instr {
            Instr::Mov { src, dst } | Instr::Cmp { src, dst } => {
                assert!(!matches!(dst, Arg::Imm(_)));
                assert!(!(matches!(src, Arg::Deref { .. }) && matches!(dst, Arg::Deref { .. })));
            }
            _ => {}
        }
    }
    let broken = Block { instrs: vec![Instr::Ret, Instr::Neg { dst: Arg::Imm(1) }] };
    assert_eq!(patch_block(&broken), Err(CompileError::Unreachable));
}

fn function(
    entry: UniqueSym<'static>,
    exit: UniqueSym<'static>,
    blocks: Vec<(UniqueSym<'static>, Vec<Instr<'static, Arg>>)>,
    stack_space: usize,
) -> FunAssigned<'static> {
    let mut map = SymMap::new();
    for (lbl, instrs) in blocks {
        map.insert(lbl, Block { instrs });
    }
    FunAssigned { blocks: map, entry, exit, stack_space }
}

fn small_program(stack_space: usize, callee: UniqueSym<'static>) -> X86Patched<'static> {
    let main = sym("main", 0);
    let entry = sym("entry", 1);
    let exit = sym("exit", 2);
    let mut fns = SymMap::new();
    fns.insert(
        main,
        function(
            entry,
            exit,
            vec![
                (
                    entry,
                    vec![
                        Instr::Sub { src: Arg::Imm(0x1000), dst: Arg::Reg(Reg::RSP) },
                        Instr::Sub { src: Arg::Imm(0x1000), dst: Arg::Reg(Reg::RCX) },
                        Instr::CallDirect { lbl: callee, arity: 0 },
                        Instr::LoadLbl { lbl: callee, dst: Arg::Reg(Reg::RCX) },
                        Instr::Jmp { lbl: exit },
                    ],
                ),
                (
                    exit,
                    vec![Instr::Add { src: Arg::Imm(0x1000), dst: Arg::Reg(Reg::RSP) }, Instr::Ret],
                ),
            ],
            stack_space,
        ),
    );
    X86Patched { fns, entry: main }
}

#[test]
fn conclusion_sizes_frames_resolves_calls_and_adds_the_runtime() {
    let mut counter = SymCounter { next: 70 };
    let concluded = small_program(32, sym("main", 0)).conclude(&mut counter).unwrap();
    assert_eq!(counter.next, 71);
    assert_eq!(concluded.entry, sym("runtime", 70));
    assert_eq!(concluded.blocks.len(), 3);
    let entry = sym("entry", 1);
    assert_eq!(
        concluded.blocks.get(1).unwrap().instrs,
        vec![
            Instr::Sub { src: Arg::Imm(32), dst: Arg::Reg(Reg::RSP) },
            Instr::Sub { src: Arg::Imm(0x1000), dst: Arg::Reg(Reg::RCX) },
            Instr::CallDirect { lbl: entry, arity: 0 },
            Instr::LoadLbl { lbl: entry, dst: Arg::Reg(Reg::RCX) },
            Instr::Jmp { lbl: sym("exit", 2) },
        ]
    );
    assert_eq!(
        concluded.blocks.get(2).unwrap().instrs,
        vec![Instr::Add { src: Arg::Imm(32), dst: Arg::Reg(Reg::RSP) }, Instr::Ret]
    );
    assert_eq!(
        concluded.blocks.get(70).unwrap().instrs,
        vec![
            Instr::CallDirect { lbl: entry, arity: 0 },
            Instr::Mov { src: Arg::Reg(Reg::RAX), dst: Arg::Reg(Reg::RDI) },
            Instr::Mov { src: Arg::Imm(0x3C), dst: Arg::Reg(Reg::RAX) },
            Instr::Syscall { arity: 2 },
        ]
    );
}

#[test]
fn conclusion_refuses_what_has_no_shape() {
    let mut counter = SymCounter { next: 70 };
    assert_eq!(
        small_program(32, sym("nowhere", 55)).conclude(&mut counter).err(),
        Some(CompileError::Unreachable)
    );
    assert_eq!(
        small_program(0x8000_0000, sym("main", 0)).conclude(&mut counter).err(),
        Some(CompileError::EncodingOverflow)
    );
    let mut no_entry = small_program(0, sym("main", 0));
    no_entry.entry = sym("other", 56);
    assert_eq!(no_entry.conclude(&mut counter).err(), Some(CompileError::Unreachable));
    let mut fns = SymMap::new();
    let main = sym("main", 0);
    fns.insert(main, function(sym("entry", 1), sym("exit", 2), vec![(sym("entry", 1), vec![Instr::Ret])], 0));
    assert_eq!(
        X86Patched { fns, entry: main }.conclude(&mut counter).err(),
        Some(CompileError::Unreachable)
    );
    assert_eq!(counter.next, 70);
}

#[test]
fn only_the_placeholder_for_the_frame_is_replaced() {
    let mut block = Block {
        instrs: vec![
            Instr::Sub { src: Arg::Imm(0x1000), dst: Arg::Reg(Reg::RSP) },
            Instr::Sub { src: Arg::Imm(0x1001), dst: Arg::Reg(Reg::RSP) },
            Instr::Add { src: Arg::Imm(0x1000), dst: Arg::Reg(Reg::RBP) },
            Instr::Add { src: Arg::Imm(0x1000), dst: Arg::Reg(Reg::RSP) },
            Instr::Mov { src: Arg::Imm(0x1000), dst: Arg::Reg(Reg::RSP) },
        ],
    };
    fix_stack_space(&mut block, 48);
    assert_eq!(
        block.instrs,
        vec![
            Instr::Sub { src: Arg::Imm(48), dst: Arg::Reg(Reg::RSP) },
            Instr::Sub { src: Arg::Imm(0x1001), dst: Arg::Reg(Reg::RSP) },
            Instr::Add { src: Arg::Imm(0x1000), dst: Arg::Reg(Reg::RBP) },
            Instr::Add { src: Arg::Imm(48), dst: Arg::Reg(Reg::RSP) },
            Instr::Mov { src: Arg::Imm(0x1000), dst: Arg::Reg(Reg::RSP) },
        ]
    );
}

#[test]
fn patching_a_program_keeps_its_frames() {
    let main = sym("main", 0);
    let entry = sym("entry", 1);
    let mut fns = SymMap::new();
    fns.insert(
        main,
        function(entry, entry, vec![(entry, vec![Instr::Mov { src: m(-8), dst: m(-16) }, Instr::Ret])], 16),
    );
    let patched = AX86Program { fns, entry: main }.patch().unwrap();
    let fun = patched.fns.get(0).unwrap();
    assert_eq!(fun.stack_space, 16);
    assert_eq!(fun.blocks.get(1).unwrap().instrs.len(), 3);
    let mut broken = SymMap::new();
    broken.insert(main, function(entry, entry, vec![(entry, vec![Instr::Pop { dst: Arg::Imm(0) }])], 0));
    assert_eq!(
        AX86Program { fns: broken, entry: main }.patch().err(),
        Some(CompileError::Unreachable)
    );
}

fn constant_program() -> X86Concluded<'static> {
    let mut counter = SymCounter::new();
    let main = gen_sym("main", &mut counter);
    let mut defs = SymMap::new();
    defs.insert(main, Def { sym: main, params: vec![], bdy: num(42) });
    PrgRevealed { defs, entry: main }
        .remove_complex_operands(&mut counter)
        .explicate(&mut counter)
        .unwrap()
        .select(&mut counter)
        .unwrap()
        .include_liveness()
        .compute_interference()
        .assign_homes()
        .unwrap()
        .patch()
        .unwrap()
        .conclude(&mut counter)
        .unwrap()
}

#[test]
fn a_program_is_encoded_block_after_block() {
    let (bytes, entry) = constant_program().emit().unwrap();
    let expected: Vec<u8> = vec![
        0x55, // push rbp
        0x48, 0x89, 0xE5, // mov rbp, rsp
        0x48, 0x81, 0xEC, 0x00, 0x00, 0x00, 0x00, // sub rsp, 0
        0xE9, 0x00, 0x00, 0x00, 0x00, // jmp to the next block
        0x48, 0xC7, 0xC0, 0x2A, 0x00, 0x00, 0x00, // mov rax, 42
        0xE9, 0x00, 0x00, 0x00, 0x00, // jmp to the next block
        0x48, 0x81, 0xC4, 0x00, 0x00, 0x00, 0x00, // add rsp, 0
        0x5D, // pop rbp
        0xC3, // ret
        0xE8, 0xD6, 0xFF, 0xFF, 0xFF, // call 42 bytes back
        0x48, 0x89, 0xC7, // mov rdi, rax
        0x48, 0xC7, 0xC0, 0x3C, 0x00, 0x00, 0x00, // mov rax, 60
        0x0F, 0x05, // syscall
    ];
    assert_eq!(bytes, expected);
    assert_eq!(entry, 37);
}

#[test]
fn emission_refuses_unknown_labels_and_operands_without_a_form() {
    let lbl = sym("only", 1);
    let mut blocks = SymMap::new();
    blocks.insert(lbl, Block { instrs: vec![Instr::Jmp { lbl: sym("gone", 2) }] });
    assert_eq!(X86Concluded { blocks, entry: lbl }.emit(), Err(CompileError::Unreachable));
    let mut blocks = SymMap::new();
    blocks.insert(lbl, Block { instrs: vec![Instr::Mov { src: m(0), dst: m(8) }] });
    assert_eq!(X86Concluded { blocks, entry: lbl }.emit(), Err(CompileError::Unreachable));
    let mut blocks = SymMap::new();
    blocks.insert(lbl, Block { instrs: vec![Instr::Ret] });
    assert_eq!(
        X86Concluded { blocks, entry: sym("gone", 2) }.emit(),
        Err(CompileError::Unreachable)
    );
}

#[test]
fn backward_and_forward_references_are_resolved() {
    let a = sym("a", 1);
    let b = sym("b", 2);
    let mut blocks = SymMap::new();
    blocks.insert(
        a,
        Block {
            instrs: vec![
                Instr::Jcc { lbl: b, cnd: Cnd::EQ },
                Instr::LoadLbl { lbl: a, dst: Arg::Reg(Reg::RCX) },
                Instr::Jmp { lbl: a },
            ],
        },
    );
    blocks.insert(b, Block { instrs: vec![Instr::CallDirect { lbl: a, arity: 0 }, Instr::Ret] });
    let (bytes, entry) = X86Concluded { blocks, entry: b }.emit().unwrap();
    assert_eq!(
        bytes,
        vec![
            0x0F, 0x84, 0x0C, 0x00, 0x00, 0x00, // je +12
            0x48, 0x8D, 0x0D, 0xF3, 0xFF, 0xFF, 0xFF, // lea rcx, [rip - 13]
            0xE9, 0xEE, 0xFF, 0xFF, 0xFF, // jmp -18
            0xE8, 0xE9, 0xFF, 0xFF, 0xFF, // call -23
            0xC3,
        ]
    );
    assert_eq!(entry, 18);
}
