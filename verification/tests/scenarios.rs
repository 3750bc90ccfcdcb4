use compiler::conclude::X86Concluded;
use compiler::error::CompileError;
use compiler::interpreter::x86::X86Interpreter;
use compiler::interpreter::{InterpError, TestIO};
use compiler::language::{Def, Op, PrgRevealed, RExpr};
use compiler::select::{FunSelected, X86Selected};
use compiler::sym_map::SymMap;
use compiler::symbol::{gen_sym, SymCounter, UniqueSym};
use compiler::value::Lit;
use compiler::x86::{Arg, Block, Instr, Reg, VarArg};

const FUEL: usize = 1_000_000;

fn num(val: i64) -> RExpr<'static> {
    RExpr::Lit { val: Lit::Int { val } }
}

fn var(sym: UniqueSym<'static>) -> RExpr<'static> {
    RExpr::Var { sym }
}

fn prim(op: Op, args: Vec<RExpr<'static>>) -> RExpr<'static> {
    RExpr::Prim { op, args }
}

fn let_in(sym: UniqueSym<'static>, bnd: RExpr<'static>, bdy: RExpr<'static>) -> RExpr<'static> {
    RExpr::Let { sym, bnd: Box::new(bnd), bdy: Box::new(bdy) }
}

fn both(stmt: RExpr<'static>, cnt: RExpr<'static>) -> RExpr<'static> {
    RExpr::Sequence { stmt: Box::new(stmt), cnt: Box::new(cnt) }
}

fn assign(sym: UniqueSym<'static>, bnd: RExpr<'static>) -> RExpr<'static> {
    RExpr::Assign { sym, bnd: Box::new(bnd) }
}

fn if_then(cnd: RExpr<'static>, thn: RExpr<'static>, els: RExpr<'static>) -> RExpr<'static> {
    RExpr::If { cnd: Box::new(cnd), thn: Box::new(thn), els: Box::new(els) }
}

fn unit() -> RExpr<'static> {
    RExpr::Lit { val: Lit::Unit }
}

fn program(
    defs: Vec<(UniqueSym<'static>, Vec<UniqueSym<'static>>, RExpr<'static>)>,
    entry: UniqueSym<'static>,
) -> PrgRevealed<'static> {
    let mut map = SymMap::new();
    for (sym, params, bdy) in defs {
        map.insert(sym, Def { sym, params, bdy });
    }
    PrgRevealed { defs: map, entry }
}

/// Runs the program while it still works on variables, from a block that
/// calls its entry function and ends the process with what it returned.
fn run_on_variables(
    selected: &X86Selected<'static>,
    counter: &mut SymCounter,
    input: &[u8],
) -> (Result<i64, InterpError>, Vec<u8>) {
    let runtime = gen_sym("runtime", counter);
    let block = gen_sym("runtime", counter);
    let mut fns = SymMap::new();
    for k in 0..selected.fns.len() {
        let fun = selected.fns.value_at(k);
        let mut blocks = SymMap::new();
        for b in 0..fun.blocks.len() {
            blocks.insert(fun.blocks.key_at(b), fun.blocks.value_at(b).clone());
        }
        fns.insert(selected.fns.key_at(k), FunSelected { blocks, entry: fun.entry, exit: fun.exit });
    }
    let mut blocks = SymMap::new();
    blocks.insert(
        block,
        Block {
            instrs: vec![
                Instr::CallDirect { lbl: selected.entry, arity: 0 },
                Instr::Mov { src: VarArg::Reg(Reg::RAX), dst: VarArg::Reg(Reg::RDI) },
                Instr::Mov { src: VarArg::Imm(0x3C), dst: VarArg::Reg(Reg::RAX) },
                Instr::Syscall { arity: 2 },
            ],
        },
    );
    fns.insert(runtime, FunSelected { blocks, entry: block, exit: block });
    let program = X86Selected { fns, entry: runtime };
    let mut io = TestIO::new(input.to_vec());
    let status = program.interpret(&mut io, FUEL);
    (status, io.outputs().clone())
}

fn compile_on(
    program: PrgRevealed<'static>,
    counter: &mut SymCounter,
    input: &[u8],
) -> Result<X86Concluded<'static>, CompileError> {
    let selected = program.remove_complex_operands(counter).explicate(counter)?.select(counter)?;
    let before = run_on_variables(&selected, counter, input);
    let concluded = selected
        .include_liveness()
        .compute_interference()
        .assign_homes()?
        .patch()?
        .conclude(counter)?;
    let mut io = TestIO::new(input.to_vec());
    let after = concluded.interpret(&mut io, FUEL);
    assert_eq!(before, (after, io.outputs().clone()));
    Ok(concluded)
}

/// Steps through the program and looks at the stack pointer before every
/// call: counted from where it started, it is a multiple of sixteen.
/// Returns the number of calls.
fn count_aligned_calls(concluded: &X86Concluded<'static>, input: &[u8]) -> usize {
    let mut entries = SymMap::new();
    let mut blocks = SymMap::new();
    for k in 0..concluded.blocks.len() {
        let lbl = concluded.blocks.key_at(k);
        let instrs = concluded.blocks.value_at(k).instrs.iter().map(|i| i.to_var_instr()).collect();
        entries.insert(lbl, lbl);
        blocks.insert(lbl, Block { instrs });
    }
    let mut state = X86Interpreter::new(entries, blocks, concluded.entry.id);
    let start = state.regs[usize::from(Reg::RSP.index())];
    let mut io = TestIO::new(input.to_vec());
    let mut calls = 0;
    for _ in 0..FUEL {
        let instr = state.blocks.get(state.block).unwrap().instrs[state.index];
        if matches!(instr, Instr::CallDirect { .. } | Instr::CallIndirect { .. }) {
            assert_eq!((start - state.regs[usize::from(Reg::RSP.index())]) % 16, 0);
            calls += 1;
        }
        if state.step(&mut io).is_some() {
            return calls;
        }
    }
    panic!("the program did not end");
}

fn run(
    program: PrgRevealed<'static>,
    counter: &mut SymCounter,
    input: &[u8],
) -> (Result<i64, InterpError>, Vec<u8>) {
    let concluded = compile_on(program, counter, input).unwrap();
    assert!(count_aligned_calls(&concluded, input) >= 1);
    let mut io = TestIO::new(input.to_vec());
    let status = concluded.interpret(&mut io, FUEL);
    let printed = io.outputs().clone();
    let (bytes, entry) = concluded.emit().unwrap();
    assert!(entry < bytes.len());
    (status, printed)
}

#[test]
fn a_constant_is_the_exit_status() {
    let mut counter = SymCounter::new();
    let main = gen_sym("main", &mut counter);
    let (status, printed) = run(program(vec![(main, vec![], num(42))], main), &mut counter, &[]);
    assert_eq!(status, Ok(42));
    assert!(printed.is_empty());
}

#[test]
fn printing_writes_bytes_in_order() {
    let mut counter = SymCounter::new();
    let main = gen_sym("main", &mut counter);
    let body = both(
        prim(Op::Print, vec![num(65)]),
        both(prim(Op::Print, vec![num(10)]), num(0)),
    );
    let (status, printed) = run(program(vec![(main, vec![], body)], main), &mut counter, &[]);
    assert_eq!(status, Ok(0));
    assert_eq!(printed, vec![0x41, 0x0A]);
}

#[test]
fn a_loop_sums_the_numbers_below_ten() {
    let mut counter = SymCounter::new();
    let main = gen_sym("main", &mut counter);
    let x = gen_sym("x", &mut counter);
    let i = gen_sym("i", &mut counter);
    let body = let_in(
        x,
        num(0),
        let_in(
            i,
            num(0),
            both(
                RExpr::Loop {
                    bdy: Box::new(both(
                        if_then(
                            prim(Op::EQ, vec![var(i), num(10)]),
                            RExpr::Break { bdy: Box::new(unit()) },
                            unit(),
                        ),
                        both(
                            assign(x, prim(Op::Plus, vec![var(x), var(i)])),
                            assign(i, prim(Op::Plus, vec![var(i), num(1)])),
                        ),
                    )),
                },
                var(x),
            ),
        ),
    );
    let (status, printed) = run(program(vec![(main, vec![], body)], main), &mut counter, &[]);
    assert_eq!(status, Ok(45));
    assert!(printed.is_empty());
}

#[test]
fn a_recursive_function_computes_the_factorial() {
    let mut counter = SymCounter::new();
    let main = gen_sym("main", &mut counter);
    let fact = gen_sym("fact", &mut counter);
    let n = gen_sym("n", &mut counter);
    let fact_body = if_then(
        prim(Op::EQ, vec![var(n), num(0)]),
        num(1),
        prim(
            Op::Mul,
            vec![
                var(n),
                RExpr::Apply {
                    fun: Box::new(RExpr::FunRef { sym: fact }),
                    args: vec![prim(Op::Minus, vec![var(n), num(1)])],
                },
            ],
        ),
    );
    let main_body =
        RExpr::Apply { fun: Box::new(RExpr::FunRef { sym: fact }), args: vec![num(5)] };
    let (status, _) = run(
        program(vec![(fact, vec![n], fact_body), (main, vec![], main_body)], main),
        &mut counter,
        &[],
    );
    assert_eq!(status, Ok(120));
}

#[test]
fn three_bytes_read_are_summed() {
    let mut counter = SymCounter::new();
    let main = gen_sym("main", &mut counter);
    let a = gen_sym("a", &mut counter);
    let b = gen_sym("b", &mut counter);
    let c = gen_sym("c", &mut counter);
    let s = gen_sym("s", &mut counter);
    let body = let_in(
        a,
        prim(Op::Read, vec![]),
        let_in(
            b,
            prim(Op::Read, vec![]),
            let_in(
                c,
                prim(Op::Read, vec![]),
                let_in(
                    s,
                    prim(
                        Op::Mod,
                        vec![
                            prim(Op::Plus, vec![prim(Op::Plus, vec![var(a), var(b)]), var(c)]),
                            num(256),
                        ],
                    ),
                    both(prim(Op::Print, vec![var(s)]), var(s)),
                ),
            ),
        ),
    );
    let (status, printed) =
        run(program(vec![(main, vec![], body)], main), &mut counter, &[200, 100, 7]);
    assert_eq!(status, Ok((200 + 100 + 7) % 256));
    assert_eq!(printed, vec![((200 + 100 + 7) % 256) as u8]);
}

#[test]
fn twenty_live_variables_spill_and_still_add_up() {
    let mut counter = SymCounter::new();
    let main = gen_sym("main", &mut counter);
    let vars: Vec<UniqueSym<'static>> = (0..20).map(|_| gen_sym("v", &mut counter)).collect();
    let mut sum = var(vars[0]);
    for v in &vars[1..] {
        sum = prim(Op::Plus, vec![sum, var(*v)]);
    }
    let mut body = sum;
    for (k, v) in vars.iter().enumerate().rev() {
        body = let_in(*v, prim(Op::Read, vec![]), body);
        let _ = k;
    }
    let input: Vec<u8> = (1..=20).collect();
    let concluded =
        compile_on(program(vec![(main, vec![], body)], main), &mut counter, &input).unwrap();
    let mut spilled = false;
    for k in 0..concluded.blocks.len() {
        for instr in &concluded.blocks.value_at(k).instrs {
            match instr {
                Instr::Mov { src: Arg::Deref { off, .. }, .. }
                | Instr::Mov { dst: Arg::Deref { off, .. }, .. }
                | Instr::Add { src: Arg::Deref { off, .. }, .. }
                | Instr::Pop { dst: Arg::Deref { off, .. } } => {
                    if *off < 0 {
                        spilled = true;
                    }
                }
                _ => {}
            }
        }
    }
    assert!(spilled);
    let mut io = TestIO::new(input);
    assert_eq!(concluded.interpret(&mut io, FUEL), Ok(210));
}

fn call(f: UniqueSym<'static>, args: Vec<RExpr<'static>>) -> RExpr<'static> {
    RExpr::Apply { fun: Box::new(RExpr::FunRef { sym: f }), args }
}

#[test]
fn nine_arguments_travel_in_registers() {
    let mut counter = SymCounter::new();
    let main = gen_sym("main", &mut counter);
    let weigh = gen_sym("weigh", &mut counter);
    let params: Vec<UniqueSym<'static>> = (0..9).map(|_| gen_sym("p", &mut counter)).collect();
    let mut body = num(0);
    for (k, p) in params.iter().enumerate() {
        body = prim(Op::Plus, vec![body, prim(Op::Mul, vec![var(*p), num(k as i64 + 1)])]);
    }
    let args: Vec<RExpr<'static>> = (1..=9).map(|k| num(10 - k)).collect();
    let (status, _) = run(
        program(vec![(weigh, params, body), (main, vec![], call(weigh, args))], main),
        &mut counter,
        &[],
    );
    let expected: i64 = (1..=9).map(|k| (10 - k) * k).sum();
    assert_eq!(status, Ok(expected));
}

#[test]
fn ten_arguments_are_refused() {
    let mut counter = SymCounter::new();
    let main = gen_sym("main", &mut counter);
    let f = gen_sym("f", &mut counter);
    let args: Vec<RExpr<'static>> = (0..10).map(num).collect();
    let result = compile_on(
        program(vec![(f, vec![], num(0)), (main, vec![], call(f, args))], main),
        &mut counter,
        &[],
    );
    assert_eq!(result.err(), Some(CompileError::UnsupportedArity));
}

#[test]
fn a_break_outside_of_a_loop_is_refused() {
    let mut counter = SymCounter::new();
    let main = gen_sym("main", &mut counter);
    let result = compile_on(
        program(vec![(main, vec![], RExpr::Break { bdy: Box::new(num(1)) })], main),
        &mut counter,
        &[],
    );
    assert_eq!(result.err(), Some(CompileError::Unreachable));
}

#[test]
fn functions_call_each_other() {
    let mut counter = SymCounter::new();
    let main = gen_sym("main", &mut counter);
    let even = gen_sym("even", &mut counter);
    let odd = gen_sym("odd", &mut counter);
    let n = gen_sym("n", &mut counter);
    let m = gen_sym("m", &mut counter);
    let even_body = if_then(
        prim(Op::EQ, vec![var(n), num(0)]),
        num(1),
        call(odd, vec![prim(Op::Minus, vec![var(n), num(1)])]),
    );
    let odd_body = if_then(
        prim(Op::EQ, vec![var(m), num(0)]),
        num(0),
        call(even, vec![prim(Op::Minus, vec![var(m), num(1)])]),
    );
    let main_body = prim(
        Op::Plus,
        vec![
            prim(Op::Mul, vec![call(even, vec![num(10)]), num(10)]),
            call(even, vec![num(7)]),
        ],
    );
    let (status, _) = run(
        program(
            vec![(even, vec![n], even_body), (odd, vec![m], odd_body), (main, vec![], main_body)],
            main,
        ),
        &mut counter,
        &[],
    );
    assert_eq!(status, Ok(10));
}

#[test]
fn arithmetic_and_comparisons_agree_with_the_source() {
    let mut counter = SymCounter::new();
    let main = gen_sym("main", &mut counter);
    let a = gen_sym("a", &mut counter);
    let b = gen_sym("b", &mut counter);
    let body = let_in(
        a,
        num(17),
        let_in(
            b,
            prim(Op::Minus, vec![num(5)]),
            prim(
                Op::Plus,
                vec![
                    prim(
                        Op::Plus,
                        vec![
                            prim(Op::Mul, vec![prim(Op::Div, vec![var(a), num(5)]), num(1000)]),
                            prim(Op::Mul, vec![prim(Op::Mod, vec![var(a), num(5)]), num(100)]),
                        ],
                    ),
                    prim(
                        Op::Plus,
                        vec![
                            prim(Op::Mul, vec![prim(Op::LT, vec![var(b), var(a)]), num(10)]),
                            prim(
                                Op::Plus,
                                vec![
                                    prim(Op::GE, vec![var(b), var(a)]),
                                    prim(
                                        Op::Minus,
                                        vec![prim(Op::Minus, vec![num(3), var(a)]), var(b)],
                                    ),
                                ],
                            ),
                        ],
                    ),
                ],
            ),
        ),
    );
    let (status, _) = run(program(vec![(main, vec![], body)], main), &mut counter, &[]);
    assert_eq!(status, Ok(3 * 1000 + 2 * 100 + 10 + 0 + (3 - 17 + 5)));
}

#[test]
fn logic_works_on_truth_values() {
    let mut counter = SymCounter::new();
    let main = gen_sym("main", &mut counter);
    let t = RExpr::Lit { val: Lit::Bool { val: true } };
    let f = RExpr::Lit { val: Lit::Bool { val: false } };
    let body = if_then(
        prim(
            Op::LAnd,
            vec![
                prim(Op::LOr, vec![f, prim(Op::Not, vec![RExpr::Lit { val: Lit::Bool { val: false } }])]),
                prim(Op::Xor, vec![t, RExpr::Lit { val: Lit::Bool { val: false } }]),
            ],
        ),
        num(7),
        num(8),
    );
    let (status, _) = run(program(vec![(main, vec![], body)], main), &mut counter, &[]);
    assert_eq!(status, Ok(7));
}

#[test]
fn continue_skips_the_rest_of_the_body() {
    let mut counter = SymCounter::new();
    let main = gen_sym("main", &mut counter);
    let i = gen_sym("i", &mut counter);
    let s = gen_sym("s", &mut counter);
    let body = let_in(
        i,
        num(0),
        let_in(
            s,
            num(0),
            RExpr::Loop {
                bdy: Box::new(both(
                    assign(i, prim(Op::Plus, vec![var(i), num(1)])),
                    both(
                        if_then(
                            prim(Op::GT, vec![var(i), num(6)]),
                            RExpr::Break { bdy: Box::new(var(s)) },
                            unit(),
                        ),
                        both(
                            if_then(
                                prim(Op::EQ, vec![prim(Op::Mod, vec![var(i), num(2)]), num(0)]),
                                RExpr::Continue,
                                unit(),
                            ),
                            assign(s, prim(Op::Plus, vec![var(s), var(i)])),
                        ),
                    ),
                )),
            },
        ),
    );
    let (status, _) = run(program(vec![(main, vec![], body)], main), &mut counter, &[]);
    assert_eq!(status, Ok(1 + 3 + 5));
}

#[test]
fn an_early_return_leaves_the_function() {
    let mut counter = SymCounter::new();
    let main = gen_sym("main", &mut counter);
    let x = gen_sym("x", &mut counter);
    let body = let_in(
        x,
        prim(Op::Read, vec![]),
        both(
            if_then(
                prim(Op::EQ, vec![var(x), num(1)]),
                RExpr::Return { bdy: Box::new(num(100)) },
                unit(),
            ),
            both(prim(Op::Print, vec![var(x)]), num(200)),
        ),
    );
    assert_eq!(
        run(program(vec![(main, vec![], body)], main), &mut counter, &[1]),
        (Ok(100), vec![])
    );
}

#[test]
fn without_an_early_return_the_function_goes_on() {
    let mut counter = SymCounter::new();
    let main = gen_sym("main", &mut counter);
    let x = gen_sym("x", &mut counter);
    let body = let_in(
        x,
        prim(Op::Read, vec![]),
        both(
            if_then(
                prim(Op::EQ, vec![var(x), num(1)]),
                RExpr::Return { bdy: Box::new(num(100)) },
                unit(),
            ),
            both(prim(Op::Print, vec![var(x)]), num(200)),
        ),
    );
    assert_eq!(
        run(program(vec![(main, vec![], body)], main), &mut counter, &[66]),
        (Ok(200), vec![66])
    );
}

#[test]
fn the_stack_is_aligned_at_every_call() {
    let mut counter = SymCounter::new();
    let main = gen_sym("main", &mut counter);
    let fact = gen_sym("fact", &mut counter);
    let n = gen_sym("n", &mut counter);
    let fact_body = if_then(
        prim(Op::EQ, vec![var(n), num(0)]),
        num(1),
        prim(Op::Mul, vec![var(n), call(fact, vec![prim(Op::Minus, vec![var(n), num(1)])])]),
    );
    let concluded = compile_on(
        program(vec![(fact, vec![n], fact_body), (main, vec![], call(fact, vec![num(5)]))], main),
        &mut counter,
        &[],
    )
    .unwrap();
    // One call of `main`, and one of `fact` for each number from five down
    // to zero.
    assert_eq!(count_aligned_calls(&concluded, &[]), 7);
}
