use compiler::conclude::X86Concluded;
use compiler::interpreter::x86::X86Interpreter;
use compiler::interpreter::{InterpError, TestIO, IO};
use compiler::select::{FunSelected, X86Selected};
use compiler::sym_map::SymMap;
use compiler::symbol::UniqueSym;
use compiler::x86::{Arg, Block, Cnd, Instr, Reg, VarArg};

fn sym(hint: &'static str, id: usize) -> UniqueSym<'static> {
    UniqueSym { sym: hint, id }
}

fn r(reg: Reg) -> VarArg<'static> {
    VarArg::Reg(reg)
}

fn i(val: i32) -> VarArg<'static> {
    VarArg::Imm(val)
}

fn exit_with(reg: Reg) -> Vec<Instr<'static, VarArg<'static>>> {
    vec![
        Instr::Mov { src: r(reg), dst: r(Reg::RDI) },
        Instr::Mov { src: i(0x3C), dst: r(Reg::RAX) },
        Instr::Syscall { arity: 1 },
    ]
}

fn machine(code: Vec<Instr<'static, VarArg<'static>>>) -> X86Interpreter<'static> {
    let main = sym("main", 1);
    let mut entries = SymMap::new();
    entries.insert(main, main);
    let mut blocks = SymMap::new();
    blocks.insert(main, Block { instrs: code });
    X86Interpreter::new(entries, blocks, 0)
}

fn run_with(code: Vec<Instr<'static, VarArg<'static>>>, input: &[u8]) -> (Result<i64, InterpError>, Vec<u8>) {
    let mut state = machine(code);
    let mut io = TestIO::new(input.to_vec());
    let result = state.run(sym("main", 1), &mut io, 10_000);
    (result, io.outputs().clone())
}

fn run(code: Vec<Instr<'static, VarArg<'static>>>) -> Result<i64, InterpError> {
    run_with(code, &[]).0
}

fn result_in(reg: Reg, mut code: Vec<Instr<'static, VarArg<'static>>>) -> Result<i64, InterpError> {
    code.extend(exit_with(reg));
    run(code)
}

#[test]
fn input_and_output_are_kept_apart() {
    let mut io = TestIO::new(vec![1, 2]);
    assert_eq!(io.read(), Some(1));
    io.print(9);
    assert_eq!(io.read(), Some(2));
    assert_eq!(io.read(), None);
    io.print(8);
    assert_eq!(io.outputs(), &vec![9, 8]);
}

#[test]
fn arithmetic_wraps_at_sixty_four_bits() {
    let max = vec![
        Instr::Mov { src: i(1), dst: r(Reg::RCX) },
        Instr::Neg { dst: r(Reg::RCX) },
        Instr::Mov { src: i(-1), dst: r(Reg::RBX) },
        Instr::Mov { src: i(2), dst: r(Reg::RAX) },
        Instr::Mul { src: r(Reg::RBX) },
    ];
    assert_eq!(result_in(Reg::RAX, max.clone()), Ok(-2));
    assert_eq!(result_in(Reg::RDX, max.clone()), Ok(-1));
    assert_eq!(result_in(Reg::RCX, max), Ok(-1));
    let big = vec![
        Instr::Mov { src: i(i32::MAX), dst: r(Reg::RAX) },
        Instr::Mov { src: i(i32::MAX), dst: r(Reg::RCX) },
        Instr::Mul { src: r(Reg::RCX) },
        Instr::Mul { src: r(Reg::RCX) },
        Instr::Mul { src: r(Reg::RCX) },
    ];
    let low_of_cube = (i32::MAX as i128).pow(3) as i64;
    let last = low_of_cube as i128 * i32::MAX as i128;
    assert_eq!(result_in(Reg::RAX, big.clone()), Ok(last as i64));
    assert_eq!(result_in(Reg::RDX, big), Ok((last >> 64) as i64));
    let overflow = vec![
        Instr::Mov { src: i(-1), dst: r(Reg::RCX) },
        Instr::Mov { src: i(i32::MIN), dst: r(Reg::RBX) },
        Instr::Mov { src: r(Reg::RBX), dst: r(Reg::RAX) },
        Instr::Mul { src: r(Reg::RBX) },
        Instr::Mov { src: r(Reg::RAX), dst: r(Reg::RBX) },
        Instr::Add { src: r(Reg::RBX), dst: r(Reg::RBX) },
        Instr::Mov { src: r(Reg::RBX), dst: r(Reg::RSI) },
        Instr::Sub { src: i(1), dst: r(Reg::RBX) },
    ];
    assert_eq!(result_in(Reg::RSI, overflow.clone()), Ok(i64::MIN));
    assert_eq!(result_in(Reg::RBX, overflow), Ok(i64::MAX));
}

#[test]
fn logic_works_on_all_bits() {
    let code = vec![
        Instr::Mov { src: i(0b1100), dst: r(Reg::RCX) },
        Instr::And { src: i(0b1010), dst: r(Reg::RCX) },
        Instr::Mov { src: i(0b1100), dst: r(Reg::RBX) },
        Instr::Or { src: i(0b1010), dst: r(Reg::RBX) },
        Instr::Mov { src: i(0b1100), dst: r(Reg::RSI) },
        Instr::Xor { src: i(0b1010), dst: r(Reg::RSI) },
        Instr::Mov { src: i(5), dst: r(Reg::R8) },
        Instr::Not { dst: r(Reg::R8) },
    ];
    assert_eq!(result_in(Reg::RCX, code.clone()), Ok(0b1000));
    assert_eq!(result_in(Reg::RBX, code.clone()), Ok(0b1110));
    assert_eq!(result_in(Reg::RSI, code.clone()), Ok(0b0110));
    assert_eq!(result_in(Reg::R8, code), Ok(-6));
}

#[test]
fn division_rounds_towards_zero() {
    let divide = |a: i32, b: i32, high: i32| {
        vec![
            Instr::Mov { src: i(a), dst: r(Reg::RAX) },
            Instr::Mov { src: i(high), dst: r(Reg::RDX) },
            Instr::Mov { src: i(b), dst: r(Reg::RCX) },
            Instr::Div { divisor: r(Reg::RCX) },
        ]
    };
    assert_eq!(result_in(Reg::RAX, divide(17, 5, 0)), Ok(3));
    assert_eq!(result_in(Reg::RDX, divide(17, 5, 0)), Ok(2));
    assert_eq!(result_in(Reg::RAX, divide(-17, 5, 0)), Ok(-3));
    assert_eq!(result_in(Reg::RDX, divide(-17, 5, 0)), Ok(-2));
    assert_eq!(result_in(Reg::RAX, divide(17, -5, 0)), Ok(-3));
    assert_eq!(result_in(Reg::RDX, divide(17, -5, 0)), Ok(2));
    assert_eq!(result_in(Reg::RAX, divide(0, 2, 1)), Ok(i64::MIN));
    assert_eq!(result_in(Reg::RAX, divide(1, 0, 0)), Err(InterpError::DivideError));
    let overflow = vec![
        Instr::Mov { src: i(i32::MIN), dst: r(Reg::RAX) },
        Instr::Mov { src: i(i32::MIN), dst: r(Reg::RCX) },
        Instr::Mul { src: r(Reg::RCX) },
        Instr::Add { src: r(Reg::RAX), dst: r(Reg::RAX) },
        Instr::Mov { src: r(Reg::RAX), dst: r(Reg::RDX) },
        Instr::Mov { src: i(0), dst: r(Reg::RAX) },
        Instr::Mov { src: i(-1), dst: r(Reg::RCX) },
        Instr::Div { divisor: r(Reg::RCX) },
    ];
    assert_eq!(result_in(Reg::RAX, overflow), Err(InterpError::DivideError));
}

#[test]
fn comparisons_set_the_flags_that_conditions_read() {
    let holds = |a: i32, b: i32, cnd: Cnd| {
        result_in(
            Reg::RAX,
            vec![
                Instr::Mov { src: i(a), dst: r(Reg::RCX) },
                Instr::Mov { src: i(0x700), dst: r(Reg::RAX) },
                Instr::Cmp { src: i(b), dst: r(Reg::RCX) },
                Instr::Setcc { cnd },
            ],
        )
        .map(|rax| rax - 0x700)
    };
    assert_eq!(holds(1, 2, Cnd::LT), Ok(1));
    assert_eq!(holds(2, 1, Cnd::LT), Ok(0));
    assert_eq!(holds(2, 2, Cnd::LE), Ok(1));
    assert_eq!(holds(2, 2, Cnd::EQ), Ok(1));
    assert_eq!(holds(2, 3, Cnd::NE), Ok(1));
    assert_eq!(holds(3, 2, Cnd::GT), Ok(1));
    assert_eq!(holds(-3, 2, Cnd::GT), Ok(0));
    assert_eq!(holds(-3, 2, Cnd::GE), Ok(0));
    assert_eq!(holds(-3, 2, Cnd::Above), Ok(1));
    assert_eq!(holds(2, -3, Cnd::Below), Ok(1));
    assert_eq!(holds(2, -3, Cnd::Carry), Ok(1));
    assert_eq!(holds(2, 2, Cnd::BelowOrEqual), Ok(1));
    assert_eq!(holds(2, 2, Cnd::AboveOrEqual), Ok(1));
    assert_eq!(holds(5, 3, Cnd::ParityEven), Ok(1));
    assert_eq!(holds(5, 2, Cnd::ParityOdd), Ok(1));
    assert_eq!(holds(1, 2, Cnd::Sign), Ok(1));
    assert_eq!(holds(2, 1, Cnd::NotSign), Ok(1));
    assert_eq!(holds(2, 1, Cnd::NotOverflow), Ok(1));
    assert_eq!(holds(2, 1, Cnd::Overflow), Ok(0));
    assert_eq!(holds(2, 1, Cnd::NotCarry), Ok(1));
}

#[test]
fn the_stack_grows_downwards_from_the_top_of_memory() {
    let code = vec![
        Instr::Mov { src: r(Reg::RSP), dst: r(Reg::RBX) },
        Instr::Push { src: i(11) },
        Instr::Push { src: i(22) },
        Instr::Mov { src: VarArg::Deref { reg: Reg::RSP, off: 8 }, dst: r(Reg::RCX) },
        Instr::Pop { dst: r(Reg::RSI) },
        Instr::Pop { dst: VarArg::XVar(sym("x", 5)) },
        Instr::Sub { src: r(Reg::RSP), dst: r(Reg::RBX) },
    ];
    assert_eq!(result_in(Reg::RCX, code.clone()), Ok(11));
    assert_eq!(result_in(Reg::RSI, code.clone()), Ok(22));
    assert_eq!(result_in(Reg::RBX, code), Ok(0));
    assert_eq!(result_in(Reg::RSP, vec![]), Ok(i64::MAX - 7));
    assert_eq!(result_in(Reg::RBP, vec![]), Ok(i64::MAX - 7));
}

#[test]
fn bytes_come_in_and_go_out_through_system_calls() {
    let read = vec![
        Instr::Push { src: i(7) },
        Instr::Mov { src: i(0), dst: r(Reg::RAX) },
        Instr::Mov { src: i(0), dst: r(Reg::RDI) },
        Instr::Mov { src: r(Reg::RSP), dst: r(Reg::RSI) },
        Instr::Mov { src: i(1), dst: r(Reg::RDX) },
        Instr::Syscall { arity: 3 },
        Instr::Pop { dst: r(Reg::RCX) },
    ];
    let mut with_byte = read.clone();
    with_byte.extend(exit_with(Reg::RCX));
    assert_eq!(run_with(with_byte.clone(), &[0xAB]).0, Ok(0xAB));
    assert_eq!(run_with(with_byte, &[]).0, Ok(0));
    let mut count = read;
    count.extend(exit_with(Reg::RAX));
    assert_eq!(run_with(count.clone(), &[1]).0, Ok(1));
    assert_eq!(run_with(count, &[]).0, Ok(0));
    let write = vec![
        Instr::Push { src: i(0x141) },
        Instr::Mov { src: i(1), dst: r(Reg::RAX) },
        Instr::Mov { src: i(1), dst: r(Reg::RDI) },
        Instr::Mov { src: r(Reg::RSP), dst: r(Reg::RSI) },
        Instr::Mov { src: i(1), dst: r(Reg::RDX) },
        Instr::Syscall { arity: 3 },
        Instr::Mov { src: r(Reg::RAX), dst: r(Reg::RCX) },
    ];
    let mut code = write;
    code.extend(exit_with(Reg::RCX));
    assert_eq!(run_with(code, &[]), (Ok(1), vec![0x41]));
}

#[test]
fn calls_put_the_variables_of_the_caller_aside() {
    let main = sym("main", 1);
    let callee = sym("callee", 2);
    let x = VarArg::XVar(sym("x", 7));
    let mut entries = SymMap::new();
    entries.insert(main, main);
    entries.insert(callee, callee);
    let mut blocks = SymMap::new();
    let mut code = vec![
        Instr::Mov { src: i(5), dst: x },
        Instr::LoadLbl { lbl: callee, dst: r(Reg::RBX) },
        Instr::CallIndirect { src: r(Reg::RBX), arity: 0 },
        Instr::CallDirect { lbl: callee, arity: 0 },
        Instr::Add { src: x, dst: r(Reg::RAX) },
    ];
    code.extend(exit_with(Reg::RAX));
    blocks.insert(main, Block { instrs: code });
    blocks.insert(
        callee,
        Block {
            instrs: vec![
                Instr::Mov { src: i(100), dst: x },
                Instr::Add { src: x, dst: r(Reg::RAX) },
                Instr::Ret,
            ],
        },
    );
    let mut state = X86Interpreter::new(entries, blocks, 0);
    let mut io = TestIO::new(vec![]);
    assert_eq!(state.run(main, &mut io, 100), Ok(205));
    assert_eq!(state.stats.branches_taken, 0);
}

#[test]
fn every_kind_of_fault_is_reported() {
    assert_eq!(run(vec![Instr::Jmp { lbl: sym("main", 1) }]), Err(InterpError::OutOfFuel));
    assert_eq!(run(vec![Instr::Jmp { lbl: sym("gone", 9) }]), Err(InterpError::UnknownLabel));
    assert_eq!(run(vec![Instr::Mov { src: i(1), dst: r(Reg::RAX) }]), Err(InterpError::OutOfBlock));
    assert_eq!(
        run(vec![Instr::Mov { src: VarArg::XVar(sym("x", 3)), dst: r(Reg::RAX) }]),
        Err(InterpError::Uninitialized)
    );
    assert_eq!(
        run(vec![Instr::Mov { src: VarArg::Deref { reg: Reg::RSP, off: 0 }, dst: r(Reg::RAX) }]),
        Err(InterpError::Uninitialized)
    );
    assert_eq!(
        run(vec![Instr::Mov { src: i(1), dst: i(2) }]),
        Err(InterpError::ImmediateDestination)
    );
    assert_eq!(
        run(vec![Instr::Cmp { src: i(1), dst: i(2) }]),
        Err(InterpError::ImmediateDestination)
    );
    assert_eq!(
        run(vec![Instr::Add { src: i(1), dst: r(Reg::RSP) }, Instr::Push { src: i(1) }]),
        Err(InterpError::MisalignedStack)
    );
    assert_eq!(
        run(vec![Instr::Push { src: i(1) }, Instr::Ret]),
        Err(InterpError::EmptyCallStack)
    );
    assert_eq!(
        run(vec![Instr::Mov { src: i(2), dst: r(Reg::RAX) }, Instr::Syscall { arity: 0 }]),
        Err(InterpError::UnsupportedSyscall)
    );
    assert_eq!(
        run(vec![Instr::Mov { src: i(1), dst: r(Reg::RDI) }, Instr::Syscall { arity: 0 }]),
        Err(InterpError::UnsupportedSyscall)
    );
    assert_eq!(
        run(vec![Instr::Mov { src: i(1), dst: r(Reg::RCX) }, Instr::Div { divisor: i(0) }]),
        Err(InterpError::DivideError)
    );
    assert_eq!(
        run(vec![Instr::LoadLbl { lbl: sym("gone", 9), dst: r(Reg::RAX) }]),
        Err(InterpError::UnknownLabel)
    );
    let mut state = machine(vec![]);
    let mut io = TestIO::new(vec![]);
    assert_eq!(state.run(sym("gone", 9), &mut io, 10), Err(InterpError::UnknownLabel));
}

#[test]
fn labels_too_large_for_an_address_overflow() {
    let big = sym("big", 0x8000_0000);
    let mut entries = SymMap::new();
    entries.insert(big, big);
    let mut blocks = SymMap::new();
    blocks.insert(big, Block { instrs: vec![Instr::CallDirect { lbl: big, arity: 0 }] });
    let mut state = X86Interpreter::new(entries, blocks, 0);
    let mut io = TestIO::new(vec![]);
    assert_eq!(state.run(big, &mut io, 10), Err(InterpError::AddressOverflow));
}

#[test]
fn conditional_jumps_are_counted() {
    let main = sym("main", 1);
    let mut code = vec![
        Instr::Add { src: i(1), dst: r(Reg::RCX) },
        Instr::Cmp { src: i(5), dst: r(Reg::RCX) },
        Instr::Jcc { lbl: main, cnd: Cnd::NE },
    ];
    code.extend(exit_with(Reg::RCX));
    let mut blocks = SymMap::new();
    blocks.insert(
        main,
        Block {
            instrs: code
                .iter()
                .map(|instr| match *instr {
                    Instr::Add { .. } => Instr::Add { src: Arg::Imm(1), dst: Arg::Reg(Reg::RCX) },
                    Instr::Cmp { .. } => Instr::Cmp { src: Arg::Imm(5), dst: Arg::Reg(Reg::RCX) },
                    Instr::Jcc { lbl, cnd } => Instr::Jcc { lbl, cnd },
                    Instr::Mov { src: VarArg::Reg(s), dst: VarArg::Reg(d) } => {
                        Instr::Mov { src: Arg::Reg(s), dst: Arg::Reg(d) }
                    }
                    Instr::Mov { src: VarArg::Imm(v), dst: VarArg::Reg(d) } => {
                        Instr::Mov { src: Arg::Imm(v), dst: Arg::Reg(d) }
                    }
                    _ => Instr::Syscall { arity: 1 },
                })
                .collect(),
        },
    );
    let concluded = X86Concluded { blocks, entry: main };
    let mut io = TestIO::new(vec![]);
    let (status, stats) = concluded.interpret_with_stats(&mut io, 1000);
    assert_eq!(status, Ok(5));
    assert_eq!(stats.branches_taken, 5);
    assert_eq!(stats.instructions_executed, 0);
    let mut io = TestIO::new(vec![]);
    assert_eq!(concluded.interpret(&mut io, 17), Err(InterpError::OutOfFuel));
    let mut io = TestIO::new(vec![]);
    assert_eq!(concluded.interpret(&mut io, 18), Ok(5));
}

#[test]
fn programs_over_variables_run_from_the_entry_of_their_function() {
    let main = sym("main", 1);
    let start = sym("start", 2);
    let x = VarArg::XVar(sym("x", 7));
    let mut code = vec![Instr::Mov { src: i(9), dst: x }, Instr::Mov { src: x, dst: r(Reg::RCX) }];
    code.extend(exit_with(Reg::RCX));
    let mut blocks = SymMap::new();
    blocks.insert(start, Block { instrs: code });
    let mut fns = SymMap::new();
    fns.insert(main, FunSelected { blocks, entry: start, exit: start });
    let program = X86Selected { fns, entry: main };
    let mut io = TestIO::new(vec![]);
    assert_eq!(program.interpret(&mut io, 100), Ok(9));
    let mut io = TestIO::new(vec![]);
    let lost = X86Selected { fns: SymMap::new(), entry: main };
    assert_eq!(lost.interpret(&mut io, 100), Err(InterpError::UnknownLabel));
}
